use vstd::prelude::*;

use crate::helpers::{cell_at, grid_view, neighbour_value, nonzero_map, to_point_map};

verus! {

/// A cell is settled when it is fully dead (0) or fully alive (`max`).
pub open spec fn settled(heat: u32, max: u32) -> bool {
    heat == 0 || heat == max
}

/// Sum of the eight Moore neighbours of `(x, y)`; missing neighbours count 0.
pub open spec fn neighbour_sum(g: Seq<Seq<u32>>, x: int, y: int) -> int {
    cell_at(g, x - 1, y - 1, 0u32) + cell_at(g, x, y - 1, 0u32) + cell_at(g, x + 1, y - 1, 0u32)
        + cell_at(g, x - 1, y, 0u32) + cell_at(g, x + 1, y, 0u32) + cell_at(g, x - 1, y + 1, 0u32)
        + cell_at(g, x, y + 1, 0u32) + cell_at(g, x + 1, y + 1, 0u32)
}

/// Mean heat of the Moore neighbourhood, by integer division by eight.
pub open spec fn neighbour_mean(g: Seq<Seq<u32>>, x: int, y: int) -> int {
    neighbour_sum(g, x, y) / 8
}

/// The heat of cell `(x, y)` in the next generation. A settled cell keeps its
/// heat. Otherwise, with `n` the neighbourhood mean: the cell dies when
/// `n <= min(mean, heat)` or `n == mean`; it drops by `2 * (mean + n)`, not below
/// 0, when `n < mean`; else it grows by `2 * (n - mean)`, not above `max`.
pub open spec fn next_heat(g: Seq<Seq<u32>>, x: int, y: int, max: u32, mean: u32) -> u32 {
    let heat = g[y][x];
    let n = neighbour_mean(g, x, y);
    if settled(heat, max) {
        heat
    } else if n <= (if mean <= heat { mean } else { heat }) || n == mean {
        0
    } else if n < mean {
        if heat - 2 * (mean + n) > 0 {
            (heat - 2 * (mean + n)) as u32
        } else {
            0
        }
    } else if heat + 2 * (n - mean) < max {
        (heat + 2 * (n - mean)) as u32
    } else {
        max
    }
}

/// One synchronous generation of the automaton over the whole grid.
pub open spec fn step(g: Seq<Seq<u32>>, max: u32, mean: u32) -> Seq<Seq<u32>> {
    Seq::new(g.len(), |y: int| Seq::new(g[y].len(), |x: int| next_heat(g, x, y, max, mean)))
}

/// The grid after `n` generations.
pub open spec fn evolve(g: Seq<Seq<u32>>, max: u32, mean: u32, n: nat) -> Seq<Seq<u32>>
    decreases n,
{
    if n == 0 {
        g
    } else {
        step(evolve(g, max, mean, (n - 1) as nat), max, mean)
    }
}

/// Generations keep the shape of the grid.
pub proof fn lemma_evolve_shape(g: Seq<Seq<u32>>, max: u32, mean: u32, n: nat)
    ensures
        evolve(g, max, mean, n).len() == g.len(),
        forall|y: int| 0 <= y < g.len() ==> (#[trigger] evolve(g, max, mean, n)[y]).len() == g[y].len(),
    decreases n,
{
    if n > 0 {
        lemma_evolve_shape(g, max, mean, (n - 1) as nat);
    }
}

/// Every cell of the grid is settled.
pub open spec fn is_stable(g: Seq<Seq<u32>>, max: u32) -> bool {
    forall|y: int, x: int| 0 <= y < g.len() && 0 <= x < g[y].len() ==> settled(#[trigger] g[y][x], max)
}

/// After `k` generations every cell is settled or lies in `[2k, max)`.
spec fn in_band(g: Seq<Seq<u32>>, max: u32, k: nat) -> bool {
    forall|y: int, x: int|
        0 <= y < g.len() && 0 <= x < g[y].len() ==> settled(#[trigger] g[y][x], max) || (k == 0 || (2 * k
            <= g[y][x] && g[y][x] < max))
}

proof fn lemma_step_band(g: Seq<Seq<u32>>, max: u32, mean: u32, k: nat)
    requires
        in_band(g, max, k),
    ensures
        in_band(step(g, max, mean), max, k + 1),
{
    let s = step(g, max, mean);
    assert forall|y: int, x: int| 0 <= y < s.len() && 0 <= x < s[y].len() implies settled(
        #[trigger] s[y][x],
        max,
    ) || (2 * (k + 1) <= s[y][x] && s[y][x] < max) by {
        assert(s[y][x] == next_heat(g, x, y, max, mean));
        assert(settled(g[y][x], max) || k == 0 || (2 * k <= g[y][x] && g[y][x] < max));
    }
}

/// Mean heat of the Moore neighbourhood of `(x, y)`.
fn neighborhood_heat(map: &Vec<Vec<u32>>, x: usize, y: usize) -> (r: u64)
    ensures
        r == neighbour_mean(grid_view(map), x as int, y as int),
{
    let sum: u64 = neighbour_value(map, x, y, -1, -1, 0u32) as u64 + neighbour_value(map, x, y, 0, -1, 0u32) as u64
        + neighbour_value(map, x, y, 1, -1, 0u32) as u64 + neighbour_value(map, x, y, -1, 0, 0u32) as u64
        + neighbour_value(map, x, y, 1, 0, 0u32) as u64 + neighbour_value(map, x, y, -1, 1, 0u32) as u64
        + neighbour_value(map, x, y, 0, 1, 0u32) as u64 + neighbour_value(map, x, y, 1, 1, 0u32) as u64;
    sum / 8
}

/// Computes the next heat of one cell from the previous generation.
fn next_cell(map: &Vec<Vec<u32>>, x: usize, y: usize, max: u32, mean: u32) -> (r: u32)
    requires
        y < map.len(),
        x < map[y as int].len(),
    ensures
        r == next_heat(grid_view(map), x as int, y as int, max, mean),
{
    let heat: u32 = map[y][x];
    if heat == max || heat == 0 {
        return heat;
    }
    let n: u64 = neighborhood_heat(map, x, y);
    let h: u64 = heat as u64;
    let m: u64 = mean as u64;
    let low: u64 = if m <= h { m } else { h };
    if n <= low || n == m {
        0
    } else if n < m {
        // Decrease rule: `max(0, heat - 2 * (mean + n))`.
        if h > 2 * (m + n) {
            (h - 2 * (m + n)) as u32
        } else {
            0
        }
    } else if h + 2 * (n - m) < max as u64 {
        (h + 2 * (n - m)) as u32
    } else {
        max
    }
}

/// Runs the automaton until every cell has settled to 0 or `max`, and returns
/// the settled grid: the first generation in which no cell changes, reached
/// after at most `max / 2 + 1` generations.
pub fn stabilize(image: Vec<Vec<u32>>, max: u32, mean: u32) -> (r: Vec<Vec<u32>>)
    ensures
        is_stable(grid_view(&r), max),
        exists|n: nat|
            {
                &&& #[trigger] evolve(grid_view(&image), max, mean, n) == grid_view(&r)
                &&& forall|m: nat| m < n ==> !is_stable(#[trigger] evolve(grid_view(&image), max, mean, m), max)
                &&& 2 * n <= max + 2
            },
{
    let ghost g0 = grid_view(&image);
    let ghost mut iter: nat = 0;
    let mut grid = image;
    loop
        invariant
            g0 == grid_view(&image),
            grid_view(&grid) == evolve(g0, max, mean, iter),
            in_band(grid_view(&grid), max, iter),
            2 * iter <= max + 2,
            forall|m: nat| m < iter ==> !is_stable(#[trigger] evolve(g0, max, mean, m), max),
        decreases max + 2 - 2 * iter,
    {
        let ghost g = grid_view(&grid);
        let mut stabilized = true;
        let mut step_map: Vec<Vec<u32>> = Vec::new();
        let mut y: usize = 0;
        while y < grid.len()
            invariant
                g == grid_view(&grid),
                y <= grid.len(),
                step_map.len() == y,
                forall|j: int| 0 <= j < y ==> #[trigger] step_map@[j]@ == step(g, max, mean)[j],
                stabilized <==> (forall|j: int, i: int|
                    0 <= j < y && 0 <= i < g[j].len() ==> settled(#[trigger] g[j][i], max)),
            decreases grid.len() - y,
        {
            let mut row: Vec<u32> = Vec::new();
            let mut x: usize = 0;
            let ghost st0 = stabilized;
            while x < grid[y].len()
                invariant
                    g == grid_view(&grid),
                    y < grid.len(),
                    x <= grid[y as int].len(),
                    row.len() == x,
                    forall|i: int| 0 <= i < x ==> #[trigger] row@[i] == next_heat(g, i, y as int, max, mean),
                    stabilized <==> (st0 && forall|i: int| 0 <= i < x ==> settled(#[trigger] g[y as int][i], max)),
                decreases grid[y as int].len() - x,
            {
                let heat: u32 = grid[y][x];
                if !(heat == max || heat == 0) {
                    stabilized = false;
                }
                let v = next_cell(&grid, x, y, max, mean);
                row.push(v);
                x += 1;
            }
            assert(row@ =~= step(g, max, mean)[y as int]);
            step_map.push(row);
            assert forall|j: int, i: int|
                0 <= j < y + 1 && 0 <= i < g[j].len() && stabilized implies settled(#[trigger] g[j][i], max) by {
                if j == y {
                    assert(settled(g[y as int][i], max));
                }
            }
            y += 1;
        }
        assert(grid_view(&step_map) =~= step(g, max, mean));
        if stabilized {
            assert(is_stable(g, max));
            assert(evolve(grid_view(&image), max, mean, iter) == grid_view(&grid));
            assert(forall|m: nat| m < iter ==> !is_stable(#[trigger] evolve(g0, max, mean, m), max));
            return grid;
        }
        proof {
            let (j, i) = choose|j: int, i: int| 0 <= j < g.len() && 0 <= i < g[j].len() && !settled(#[trigger] g[j][i], max);
            assert(!settled(g[j][i], max));
            lemma_step_band(g, max, mean, iter);
            assert(!is_stable(evolve(g0, max, mean, iter), max));
            iter = iter + 1;
            assert(evolve(g0, max, mean, iter) == step(g, max, mean));
        }
        grid = step_map;
    }
}

/// Runs the automaton until it settles and marks each alive cell as highlighted.
pub fn cellular_automaton(image: Vec<Vec<u32>>, max: u32, mean: u32) -> (r: Vec<Vec<bool>>)
    ensures
        exists|n: nat|
            {
                &&& is_stable(#[trigger] evolve(grid_view(&image), max, mean, n), max)
                &&& grid_view(&r) == nonzero_map(evolve(grid_view(&image), max, mean, n))
                &&& forall|m: nat| m < n ==> !is_stable(#[trigger] evolve(grid_view(&image), max, mean, m), max)
                &&& 2 * n <= max + 2
            },
{
    let settled_map = stabilize(image, max, mean);
    to_point_map(settled_map)
}

} // verus!
