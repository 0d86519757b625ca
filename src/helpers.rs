use vstd::prelude::*;

verus! {

/// The value at column `x` of row `y`, or `default` where that cell does not exist.
pub open spec fn cell_at<T>(g: Seq<Seq<T>>, x: int, y: int, default: T) -> T {
    if 0 <= y < g.len() && 0 <= x < g[y].len() {
        g[y][x]
    } else {
        default
    }
}

/// The view of a grid of vectors as a sequence of sequences.
pub open spec fn grid_view<T>(g: &Vec<Vec<T>>) -> Seq<Seq<T>> {
    g@.map_values(|row: Vec<T>| row@)
}

/// Reads the cell at column `x` of row `y`; out of range it gives `default`.
pub fn pixel_value<T: Copy>(vec: &Vec<Vec<T>>, x: isize, y: isize, default: T) -> (r: T)
    ensures
        r == cell_at(grid_view(vec), x as int, y as int, default),
{
    if x < 0 || y < 0 {
        return default;
    }
    let yu = y as usize;
    if yu >= vec.len() {
        return default;
    }
    let row = &vec[yu];
    let xu = x as usize;
    if xu >= row.len() {
        return default;
    }
    row[xu]
}

/// A grid in which each cell is `true` exactly where `g` holds a nonzero value.
pub open spec fn nonzero_map(g: Seq<Seq<u32>>) -> Seq<Seq<bool>> {
    g.map_values(|row: Seq<u32>| row.map_values(|v: u32| v != 0))
}

/// Marks every nonzero cell as highlighted.
pub fn to_point_map(input: Vec<Vec<u32>>) -> (r: Vec<Vec<bool>>)
    ensures
        grid_view(&r) == nonzero_map(grid_view(&input)),
{
    let mut r: Vec<Vec<bool>> = Vec::new();
    let mut y: usize = 0;
    while y < input.len()
        invariant
            y <= input.len(),
            r.len() == y,
            forall|j: int| 0 <= j < y ==> #[trigger] r@[j]@ == grid_view(&input)[j].map_values(|v: u32| v != 0),
        decreases input.len() - y,
    {
        let row = &input[y];
        let mut out: Vec<bool> = Vec::new();
        let mut x: usize = 0;
        while x < row.len()
            invariant
                x <= row.len(),
                out.len() == x,
                forall|i: int| 0 <= i < x ==> #[trigger] out@[i] == (row@[i] != 0),
            decreases row.len() - x,
        {
            out.push(row[x] != 0);
            x += 1;
        }
        assert(out@ =~= row@.map_values(|v: u32| v != 0));
        r.push(out);
        y += 1;
    }
    assert(grid_view(&r) =~= nonzero_map(grid_view(&input)));
    r
}

/// Reads the neighbour of `(x, y)` at offset `(dx, dy)`, each offset in `-1..=1`;
/// a neighbour outside the grid gives `default`.
pub fn neighbour_value<T: Copy>(g: &Vec<Vec<T>>, x: usize, y: usize, dx: i8, dy: i8, default: T) -> (r: T)
    requires
        -1 <= dx <= 1,
        -1 <= dy <= 1,
    ensures
        r == cell_at(grid_view(g), x + dx, y + dy, default),
{
    proof {
        assert(grid_view(g).len() == g.len());
    }
    let yy: usize = if dy < 0 {
        if y == 0 {
            return default;
        }
        y - 1
    } else if dy == 0 {
        y
    } else {
        if y >= g.len() {
            return default;
        }
        y + 1
    };
    if yy >= g.len() {
        return default;
    }
    let row = &g[yy];
    proof {
        assert(grid_view(g)[yy as int] == row@);
    }
    let xx: usize = if dx < 0 {
        if x == 0 {
            return default;
        }
        x - 1
    } else if dx == 0 {
        x
    } else {
        if x >= row.len() {
            return default;
        }
        x + 1
    };
    if xx >= row.len() {
        return default;
    }
    row[xx]
}

} // verus!
