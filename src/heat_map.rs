use vstd::prelude::*;

use crate::gray_image::GrayImage;
use crate::helpers::{cell_at, grid_view, neighbour_value};

verus! {

/// Side, in pixels, of the square cell that the bricked heat map counts edges in.
/// Image width and height are multiples of it.
pub const CELL_SIZE: u32 = 10;

/// Number of pixels equal to 0 among `row[x0 .. x0 + n]`.
pub open spec fn zeros_in_row(row: Seq<u8>, x0: int, n: nat) -> nat
    decreases n,
{
    if n == 0 {
        0
    } else {
        zeros_in_row(row, x0, (n - 1) as nat) + (if row[x0 + n - 1] == 0u8 { 1nat } else { 0nat })
    }
}

/// Number of pixels equal to 0 in the `w` by `h` rectangle whose top left corner is `(x0, y0)`.
pub open spec fn zeros_in_rect(img: Seq<Seq<u8>>, x0: int, y0: int, w: nat, h: nat) -> nat
    decreases h,
{
    if h == 0 {
        0
    } else {
        zeros_in_rect(img, x0, y0, w, (h - 1) as nat) + zeros_in_row(img[y0 + h - 1], x0, w)
    }
}

/// Cells of the bricked map along a side of `len` pixels: cells overlap by half.
pub open spec fn brick_count(len: u32) -> int {
    if len / 5 >= 1 {
        len / 5 - 1
    } else {
        0
    }
}

/// The bricked heat map: cell `(cx, cy)` counts the edge pixels (value 0) in the
/// `CELL_SIZE` square that starts at pixel `(5 * cx, 5 * cy)`.
pub open spec fn bricked_heat(img: &GrayImage) -> Seq<Seq<u32>> {
    Seq::new(
        brick_count(img.height) as nat,
        |cy: int|
            Seq::new(
                brick_count(img.width) as nat,
                |cx: int| zeros_in_rect(img.view_rows(), 5 * cx, 5 * cy, 10, 10) as u32,
            ),
    )
}

/// Mean of the 2x2 window of the bricked map whose bottom right cell is `(ox, oy)`;
/// missing cells count 0.
pub open spec fn overlap_heat(b: Seq<Seq<u32>>, ox: int, oy: int) -> int {
    (cell_at(b, ox, oy, 0u32) + cell_at(b, ox, oy - 1, 0u32) + cell_at(b, ox - 1, oy, 0u32) + cell_at(
        b,
        ox - 1,
        oy - 1,
        0u32,
    )) / 4
}

/// The overlap heat map: `height / 5` rows of `width / 5` cells.
pub open spec fn overlap_map(img: &GrayImage) -> Seq<Seq<u32>> {
    Seq::new(
        (img.height / 5) as nat,
        |oy: int| Seq::new((img.width / 5) as nat, |ox: int| overlap_heat(bricked_heat(img), ox, oy) as u32),
    )
}

/// Largest value of a row, 0 for an empty one.
pub open spec fn row_max(r: Seq<u32>) -> int
    decreases r.len(),
{
    if r.len() == 0 {
        0
    } else {
        let m = row_max(r.drop_last());
        if r.last() > m {
            r.last() as int
        } else {
            m
        }
    }
}

/// Largest value of a grid, 0 for an empty one.
pub open spec fn grid_max(g: Seq<Seq<u32>>) -> int
    decreases g.len(),
{
    if g.len() == 0 {
        0
    } else {
        let m = grid_max(g.drop_last());
        if row_max(g.last()) > m {
            row_max(g.last())
        } else {
            m
        }
    }
}

/// Sum of the values of a row.
pub open spec fn row_sum(r: Seq<u32>) -> int
    decreases r.len(),
{
    if r.len() == 0 {
        0
    } else {
        row_sum(r.drop_last()) + r.last()
    }
}

/// Sum of the values of a grid.
pub open spec fn grid_sum(g: Seq<Seq<u32>>) -> int
    decreases g.len(),
{
    if g.len() == 0 {
        0
    } else {
        grid_sum(g.drop_last()) + row_sum(g.last())
    }
}

/// Number of positive values in a row.
pub open spec fn row_positive(r: Seq<u32>) -> int
    decreases r.len(),
{
    if r.len() == 0 {
        0
    } else {
        row_positive(r.drop_last()) + (if r.last() > 0 { 1int } else { 0int })
    }
}

/// Number of positive values in a grid.
pub open spec fn grid_positive(g: Seq<Seq<u32>>) -> int
    decreases g.len(),
{
    if g.len() == 0 {
        0
    } else {
        grid_positive(g.drop_last()) + row_positive(g.last())
    }
}

/// The largest heat, at least 1.
pub open spec fn heat_max_of(g: Seq<Seq<u32>>) -> int {
    if grid_max(g) > 1 {
        grid_max(g)
    } else {
        1
    }
}

/// The total heat divided by one more than the number of positive cells.
pub open spec fn heat_mean_of(g: Seq<Seq<u32>>) -> int {
    grid_sum(g) / (1 + grid_positive(g))
}

proof fn lemma_row_zeros_bound(row: Seq<u8>, x0: int, n: nat)
    ensures
        zeros_in_row(row, x0, n) <= n,
    decreases n,
{
    if n > 0 {
        lemma_row_zeros_bound(row, x0, (n - 1) as nat);
    }
}

proof fn lemma_rect_zeros_bound(img: Seq<Seq<u8>>, x0: int, y0: int, h: nat)
    ensures
        zeros_in_rect(img, x0, y0, 10, h) <= 10 * h,
    decreases h,
{
    if h > 0 {
        lemma_rect_zeros_bound(img, x0, y0, (h - 1) as nat);
        lemma_row_zeros_bound(img[y0 + h - 1], x0, 10);
    }
}

/// Counts the edge pixels of every overlapping cell.
fn bricked_heat_map(image: &GrayImage) -> (r: Vec<Vec<u32>>)
    requires
        image.wf(),
        image.width % CELL_SIZE == 0,
        image.height % CELL_SIZE == 0,
    ensures
        grid_view(&r) == bricked_heat(image),
        forall|y: int, x: int| 0 <= y < r.len() && 0 <= x < r@[y]@.len() ==> #[trigger] r@[y]@[x] <= 100,
{
    let (width, height) = image.dimensions();
    let rows: u32 = if height / 5 >= 1 { height / 5 - 1 } else { 0 };
    let columns: u32 = if width / 5 >= 1 { width / 5 - 1 } else { 0 };
    let ghost img = image.view_rows();
    let mut heat_map: Vec<Vec<u32>> = Vec::new();
    let mut offset_y: u32 = 0;
    while offset_y < rows
        invariant
            offset_y <= rows,
            rows == brick_count(height),
            columns == brick_count(width),
            width == image.width,
            height == image.height,
            image.wf(),
            img == image.view_rows(),
            width % 10 == 0,
            height % 10 == 0,
            heat_map.len() == offset_y,
            forall|j: int| 0 <= j < offset_y ==> #[trigger] heat_map@[j]@ == bricked_heat(image)[j],
            forall|j: int, i: int|
                0 <= j < offset_y && 0 <= i < heat_map@[j]@.len() ==> #[trigger] heat_map@[j]@[i] <= 100,
        decreases rows - offset_y,
    {
        let mut row: Vec<u32> = Vec::new();
        let mut offset_x: u32 = 0;
        while offset_x < columns
            invariant
                offset_y < rows,
                offset_x <= columns,
                rows == brick_count(height),
                columns == brick_count(width),
                width == image.width,
                height == image.height,
                image.wf(),
                img == image.view_rows(),
                width % 10 == 0,
                height % 10 == 0,
                row.len() == offset_x,
                forall|i: int| 0 <= i < offset_x ==> #[trigger] row@[i] == bricked_heat(image)[offset_y as int][i],
                forall|i: int| 0 <= i < offset_x ==> #[trigger] row@[i] <= 100,
            decreases columns - offset_x,
        {
            let x0: u32 = offset_x * 5;
            let y0: u32 = offset_y * 5;
            let mut heat: u32 = 0;
            let mut cell_y: u32 = 0;
            while cell_y < CELL_SIZE
                invariant
                    offset_y < rows,
                    offset_x < columns,
                    x0 == offset_x * 5,
                    y0 == offset_y * 5,
                    rows == brick_count(height),
                    columns == brick_count(width),
                    width == image.width,
                    height == image.height,
                    image.wf(),
                    img == image.view_rows(),
                    width % 10 == 0,
                    height % 10 == 0,
                    cell_y <= 10,
                    heat == zeros_in_rect(img, x0 as int, y0 as int, 10, cell_y as nat),
                    heat <= 10 * cell_y,
                decreases 10 - cell_y,
            {
                let mut cell_x: u32 = 0;
                while cell_x < CELL_SIZE
                    invariant
                        offset_y < rows,
                        offset_x < columns,
                        x0 == offset_x * 5,
                        y0 == offset_y * 5,
                        rows == brick_count(height),
                        columns == brick_count(width),
                        width == image.width,
                        height == image.height,
                        image.wf(),
                        img == image.view_rows(),
                        width % 10 == 0,
                        height % 10 == 0,
                        cell_y < 10,
                        cell_x <= 10,
                        heat == zeros_in_rect(img, x0 as int, y0 as int, 10, cell_y as nat) + zeros_in_row(
                            img[y0 + cell_y],
                            x0 as int,
                            cell_x as nat,
                        ),
                        heat <= 10 * cell_y + cell_x,
                    decreases 10 - cell_x,
                {
                    let pixel = image.get_pixel(x0 + cell_x, y0 + cell_y);
                    if pixel == 0 {
                        heat += 1;
                    }
                    cell_x += 1;
                }
                cell_y += 1;
            }
            row.push(heat);
            offset_x += 1;
        }
        assert(row@ =~= bricked_heat(image)[offset_y as int]);
        heat_map.push(row);
        offset_y += 1;
    }
    assert(grid_view(&heat_map) =~= bricked_heat(image));
    heat_map
}

/// Builds the overlap heat map from the bricked one, with its largest heat (at
/// least 1) and its mean heat (the total over one more than the number of hot
/// cells).
pub fn heat_map(image: &GrayImage) -> (r: (Vec<Vec<u32>>, u32, u32))
    requires
        image.wf(),
        image.width % CELL_SIZE == 0,
        image.height % CELL_SIZE == 0,
    ensures
        grid_view(&r.0) == overlap_map(image),
        r.0.len() == 2 * image.height / (CELL_SIZE as int),
        forall|y: int| 0 <= y < r.0.len() ==> (#[trigger] r.0@[y])@.len() == 2 * image.width / (CELL_SIZE as int),
        forall|y: int, x: int| 0 <= y < r.0.len() && 0 <= x < r.0@[y]@.len() ==> #[trigger] r.0@[y]@[x] <= 100,
        r.1 == heat_max_of(overlap_map(image)),
        r.2 == heat_mean_of(overlap_map(image)),
{
    let (width, height) = image.dimensions();
    let bricked: Vec<Vec<u32>> = bricked_heat_map(image);
    let ghost b = grid_view(&bricked);
    let ghost hm = overlap_map(image);
    let rows: u32 = height / 5;
    let columns: u32 = width / 5;
    let mut heat_max: u32 = 1;
    let mut heat_total: u128 = 0;
    let mut heat_counter: u128 = 1;
    let mut heat_map: Vec<Vec<u32>> = Vec::new();
    let mut offset_y: u32 = 0;
    while offset_y < rows
        invariant
            offset_y <= rows,
            rows == image.height / 5,
            columns == image.width / 5,
            b == bricked_heat(image),
            b == grid_view(&bricked),
            hm == overlap_map(image),
            forall|y: int, x: int| 0 <= y < b.len() && 0 <= x < b[y].len() ==> #[trigger] b[y][x] <= 100,
            heat_map.len() == offset_y,
            forall|j: int| 0 <= j < offset_y ==> #[trigger] heat_map@[j]@ == hm[j],
            heat_max == heat_max_of(grid_view(&heat_map)),
            heat_total == grid_sum(grid_view(&heat_map)),
            heat_counter == 1 + grid_positive(grid_view(&heat_map)),
            heat_total <= 100 * (heat_counter - 1),
            heat_counter <= 1 + offset_y * columns,
        decreases rows - offset_y,
    {
        let mut row: Vec<u32> = Vec::new();
        let mut offset_x: u32 = 0;
        let ghost done = grid_view(&heat_map);
        proof {
            assert(done.push(row@).drop_last() =~= done);
        }
        while offset_x < columns
            invariant
                offset_y < rows,
                offset_x <= columns,
                rows == image.height / 5,
                columns == image.width / 5,
                b == bricked_heat(image),
                b == grid_view(&bricked),
                hm == overlap_map(image),
                forall|y: int, x: int| 0 <= y < b.len() && 0 <= x < b[y].len() ==> #[trigger] b[y][x] <= 100,
                done == grid_view(&heat_map),
                row.len() == offset_x,
                forall|i: int| 0 <= i < offset_x ==> #[trigger] row@[i] == hm[offset_y as int][i],
                forall|i: int| 0 <= i < offset_x ==> #[trigger] row@[i] <= 100,
                heat_max == heat_max_of(done.push(row@)),
                heat_total == grid_sum(done) + row_sum(row@),
                heat_counter == 1 + grid_positive(done) + row_positive(row@),
                heat_total <= 100 * (heat_counter - 1),
                heat_counter <= 1 + offset_y * columns + offset_x,
            decreases columns - offset_x,
        {
            let x: usize = offset_x as usize;
            let y: usize = offset_y as usize;
            let h0: u32 = neighbour_value(&bricked, x, y, 0, 0, 0u32);
            let h1: u32 = neighbour_value(&bricked, x, y, 0, -1, 0u32);
            let h2: u32 = neighbour_value(&bricked, x, y, -1, 0, 0u32);
            let h3: u32 = neighbour_value(&bricked, x, y, -1, -1, 0u32);
            proof {
                assert(h0 <= 100 && h1 <= 100 && h2 <= 100 && h3 <= 100);
            }
            let heat: u32 = (h0 + h1 + h2 + h3) / 4;
            assert(heat == hm[offset_y as int][offset_x as int]);
            let ghost prev_row = row@;
            proof {
                assert(offset_y * columns + offset_x + 1 <= rows * columns) by (nonlinear_arith)
                    requires
                        offset_y < rows,
                        offset_x < columns,
                ;
                assert(rows * columns <= 0x1_0000_0000 * 0x1_0000_0000) by (nonlinear_arith)
                    requires
                        rows < 0x1_0000_0000,
                        columns < 0x1_0000_0000,
                ;
            }
            if heat > heat_max {
                heat_max = heat;
            }
            if heat > 0 {
                heat_total = heat_total + heat as u128;
                heat_counter = heat_counter + 1;
            }
            row.push(heat);
            proof {
                assert(row@.drop_last() =~= prev_row);
                assert(done.push(row@).drop_last() =~= done);
                assert(done.push(prev_row).drop_last() =~= done);
            }
            offset_x += 1;
        }
        proof {
            assert(row@ =~= hm[offset_y as int]);
            assert(offset_y * columns + columns == (offset_y + 1) * columns) by (nonlinear_arith);
        }
        heat_map.push(row);
        proof {
            assert(grid_view(&heat_map) =~= done.push(row@));
            assert(grid_view(&heat_map).drop_last() =~= done);
        }
        offset_y += 1;
    }
    assert(grid_view(&heat_map) =~= hm);
    let mean: u128 = heat_total / heat_counter;
    assert(mean <= 100) by (nonlinear_arith)
        requires
            heat_total <= 100 * (heat_counter - 1),
            heat_counter >= 1,
            mean == heat_total / heat_counter,
    ;
    (heat_map, heat_max, mean as u32)
}

} // verus!
