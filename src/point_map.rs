use vstd::prelude::*;

use crate::helpers::cell_at;
use crate::point::Point;

verus! {

/// The cell of `p` exists in `g` and is highlighted.
pub open spec fn lit(g: Seq<Seq<bool>>, p: Point) -> bool {
    cell_at(g, p.x as int, p.y as int, false)
}

/// Number of highlighted cells in a row.
pub open spec fn count_row(r: Seq<bool>) -> nat
    decreases r.len(),
{
    if r.len() == 0 {
        0
    } else {
        count_row(r.drop_last()) + (if r.last() { 1nat } else { 0nat })
    }
}

/// Number of highlighted cells in a grid.
pub open spec fn count_true(g: Seq<Seq<bool>>) -> nat
    decreases g.len(),
{
    if g.len() == 0 {
        0
    } else {
        count_true(g.drop_last()) + count_row(g.last())
    }
}

/// Both grids have the same rows, of the same lengths.
pub open spec fn same_shape(a: Seq<Seq<bool>>, b: Seq<Seq<bool>>) -> bool {
    &&& a.len() == b.len()
    &&& forall|y: int| 0 <= y < a.len() ==> (#[trigger] a[y]).len() == b[y].len()
}

/// Every cell index fits in the coordinates of a `Point`.
pub open spec fn fits_points(g: Seq<Seq<bool>>) -> bool {
    &&& g.len() <= u32::MAX
    &&& forall|y: int| 0 <= y < g.len() ==> (#[trigger] g[y]).len() <= u32::MAX
}

/// Two distinct points that touch, sideways or diagonally.
pub open spec fn adjacent(p: Point, q: Point) -> bool {
    &&& p != q
    &&& -1 <= q.x - p.x <= 1
    &&& -1 <= q.y - p.y <= 1
}

/// Every highlighted cell of `g` that touches a point of `pts` is in `pts`:
/// `pts` is a union of connected groups of highlighted cells.
pub open spec fn closed_in(g: Seq<Seq<bool>>, pts: Seq<Point>) -> bool {
    forall|p: Point, q: Point|
        #![trigger pts.contains(p), lit(g, q)]
        pts.contains(p) && adjacent(p, q) && lit(g, q) ==> pts.contains(q)
}

/// Each point after the first touches an earlier one: the points form one
/// connected group.
pub open spec fn linked(pts: Seq<Point>) -> bool {
    forall|k: int| 0 < k < pts.len() ==> exists|j: int| 0 <= j < k && adjacent(pts[j], #[trigger] pts[k])
}

proof fn lemma_clear_row(r: Seq<bool>, x: int)
    requires
        0 <= x < r.len(),
        r[x],
    ensures
        count_row(r.update(x, false)) + 1 == count_row(r),
    decreases r.len(),
{
    let u = r.update(x, false);
    if x == r.len() - 1 {
        assert(u.drop_last() =~= r.drop_last());
    } else {
        assert(u.drop_last() =~= r.drop_last().update(x, false));
        lemma_clear_row(r.drop_last(), x);
    }
}

pub proof fn lemma_clear_grid(g: Seq<Seq<bool>>, x: int, y: int)
    requires
        0 <= y < g.len(),
        0 <= x < g[y].len(),
        g[y][x],
    ensures
        count_true(g.update(y, g[y].update(x, false))) + 1 == count_true(g),
    decreases g.len(),
{
    let u = g.update(y, g[y].update(x, false));
    if y == g.len() - 1 {
        assert(u.drop_last() =~= g.drop_last());
        lemma_clear_row(g[y], x);
    } else {
        assert(u.drop_last() =~= g.drop_last().update(y, g[y].update(x, false)));
        lemma_clear_grid(g.drop_last(), x, y);
    }
}

proof fn lemma_count_row_zero(r: Seq<bool>)
    requires
        forall|x: int| 0 <= x < r.len() ==> !r[x],
    ensures
        count_row(r) == 0,
    decreases r.len(),
{
    if r.len() > 0 {
        lemma_count_row_zero(r.drop_last());
    }
}

pub proof fn lemma_count_zero(g: Seq<Seq<bool>>)
    requires
        forall|y: int, x: int| 0 <= y < g.len() && 0 <= x < g[y].len() ==> !#[trigger] g[y][x],
    ensures
        count_true(g) == 0,
    decreases g.len(),
{
    if g.len() > 0 {
        assert forall|x: int| 0 <= x < g.last().len() implies !g.last()[x] by {
            assert(!g[g.len() - 1][x]);
        }
        lemma_count_row_zero(g.last());
        let d = g.drop_last();
        assert forall|y: int, x: int| 0 <= y < d.len() && 0 <= x < d[y].len() implies !#[trigger] d[y][x] by {
            assert(!g[y][x]);
        }
        lemma_count_zero(d);
    }
}

/// `pts` is a connected group of highlighted cells of `g` that no highlighted
/// cell touches from outside.
pub open spec fn is_group(g: Seq<Seq<bool>>, pts: Seq<Point>) -> bool {
    &&& pts.len() > 0
    &&& linked(pts)
    &&& closed_in(g, pts)
    &&& forall|i: int| 0 <= i < pts.len() ==> lit(g, #[trigger] pts[i])
}

/// `p` comes before `q` in a row-by-row scan.
pub open spec fn scan_before(p: Point, q: Point) -> bool {
    p.y < q.y || (p.y == q.y && p.x < q.x)
}

/// The first listed point is the first of the points in a row-by-row scan.
pub open spec fn first_in_scan(pts: Seq<Point>) -> bool {
    forall|k: int| 0 < k < pts.len() ==> scan_before(pts[0], #[trigger] pts[k])
}

} // verus!
