use vstd::prelude::*;

use crate::helpers::{grid_view, neighbour_value};
use crate::point::Point;
use crate::point_map::{
    adjacent, closed_in, count_true, fits_points, is_group, lemma_clear_grid, lemma_count_zero,
    linked, lit, same_shape, scan_before, first_in_scan,
};
use crate::visual_object::{bbox_of, lemma_bbox_bounds, object_map, peel, VisualObject};

verus! {

/// Objects whose bounding box spans this many cells or more in either direction
/// are split by peeling.
pub const MAX_CELLS: u32 = 40;

/// The points of all objects, object after object.
pub open spec fn all_points(objs: Seq<VisualObject>) -> Seq<Point>
    decreases objs.len(),
{
    if objs.len() == 0 {
        Seq::empty()
    } else {
        all_points(objs.drop_last()) + objs.last().points@
    }
}

/// `g` is `g0` with exactly the cells listed in `pts` cleared, each listed once.
pub open spec fn cleared_exactly(g0: Seq<Seq<bool>>, g: Seq<Seq<bool>>, pts: Seq<Point>) -> bool {
    &&& same_shape(g0, g)
    &&& forall|p: Point| #[trigger] lit(g, p) ==> lit(g0, p)
    &&& forall|p: Point| (lit(g0, p) && !lit(g, p)) <==> #[trigger] pts.contains(p)
    &&& pts.no_duplicates()
    &&& count_true(g) + pts.len() == count_true(g0)
}

/// Claims the neighbour of `p` at offset `(dx, dy)`: when it is highlighted it is
/// cleared and added to the object.
fn claim(image: &mut Vec<Vec<bool>>, object: &mut VisualObject, p: Point, dx: i8, dy: i8, Ghost(g0): Ghost<Seq<Seq<bool>>>)
    requires
        -1 <= dx <= 1,
        -1 <= dy <= 1,
        old(object).wf(),
        fits_points(g0),
        cleared_exactly(g0, grid_view(old(image)), old(object).points@),
        old(object).points@.contains(p),
        linked(old(object).points@),
    ensures
        final(object).wf(),
        final(object).reference == old(object).reference,
        cleared_exactly(g0, grid_view(final(image)), final(object).points@),
        final(object).points@.len() >= old(object).points@.len(),
        final(object).points@.take(old(object).points@.len() as int) == old(object).points@,
        2 * count_true(grid_view(final(image))) + final(object).points@.len() <= 2 * count_true(
            grid_view(old(image)),
        ) + old(object).points@.len(),
        linked(final(object).points@),
        final(object).points@.contains(p),
        forall|r: Point| #[trigger] lit(grid_view(final(image)), r) ==> lit(grid_view(old(image)), r),
        0 <= p.x + dx <= u32::MAX && 0 <= p.y + dy <= u32::MAX ==> !lit(
            grid_view(final(image)),
            Point { x: (p.x + dx) as u32, y: (p.y + dy) as u32 },
        ),
{
    let x: usize = p.x as usize;
    let y: usize = p.y as usize;
    let ghost g = grid_view(image);
    if !neighbour_value(image, x, y, dx, dy, false) {
        assert(object.points@.take(object.points@.len() as int) =~= object.points@);
        return;
    }
    let ny: usize = if dy < 0 {
        y - 1
    } else if dy == 0 {
        y
    } else {
        y + 1
    };
    let row_len: usize = image[ny].len();
    proof {
        assert(g[ny as int] == image@[ny as int]@);
    }
    let nx: usize = if dx < 0 {
        x - 1
    } else if dx == 0 {
        x
    } else {
        x + 1
    };
    proof {
        assert(g0[ny as int].len() == g[ny as int].len());
        assert(nx < g[ny as int].len());
    }
    let q = Point::new(nx as u32, ny as u32);
    let ghost pts = object.points@;
    image[ny][nx] = false;
    object.push(q);
    proof {
        let g2 = grid_view(image);
        assert(g2 =~= g.update(ny as int, g[ny as int].update(nx as int, false)));
        lemma_clear_grid(g, nx as int, ny as int);
        assert(lit(g, q));
        assert(!pts.contains(q));
        let pts2 = object.points@;
        assert(pts2 == pts.push(q));
        assert forall|r: Point| #[trigger] lit(g2, r) implies lit(g0, r) by {
            assert(lit(g, r));
        }
        assert forall|r: Point| (lit(g0, r) && !lit(g2, r)) <==> #[trigger] pts2.contains(r) by {
            if r == q {
                assert(pts2[pts.len() as int] == q);
            } else {
                assert(lit(g2, r) == lit(g, r));
                if pts.contains(r) {
                    let i = choose|i: int| 0 <= i < pts.len() && pts[i] == r;
                    assert(pts2[i] == r);
                }
                if pts2.contains(r) {
                    let i = choose|i: int| 0 <= i < pts2.len() && pts2[i] == r;
                    assert(pts[i] == r);
                }
            }
        }
        assert forall|i: int, j: int| 0 <= i < pts2.len() && 0 <= j < pts2.len() && i != j implies pts2[i]
            != pts2[j] by {
            if i == pts.len() as int {
                assert(pts.contains(pts2[j]) || j == i);
            } else if j == pts.len() as int {
                assert(pts.contains(pts2[i]));
            }
        }
        assert(same_shape(g0, g2));
        assert(pts2.take(pts.len() as int) =~= pts);
        let jp = choose|j: int| 0 <= j < pts.len() && pts[j] == p;
        assert(pts2[jp] == p);
        assert(!lit(g, p));
        assert(adjacent(p, q));
        assert forall|k: int| 0 < k < pts2.len() implies exists|j: int| 0 <= j < k && adjacent(pts2[j], #[trigger] pts2[k]) by {
            if k < pts.len() {
                let j = choose|j: int| 0 <= j < k && adjacent(pts[j], #[trigger] pts[k]);
                assert(pts2[j] == pts[j] && pts2[k] == pts[k]);
            } else {
                assert(pts2[k] == q);
                assert(adjacent(pts2[jp], pts2[k]));
            }
        }
    }
}

/// Claims all eight neighbours of `p`; afterwards none of them is highlighted.
fn claim_neighbours(image: &mut Vec<Vec<bool>>, object: &mut VisualObject, p: Point, Ghost(g0): Ghost<Seq<Seq<bool>>>)
    requires
        old(object).wf(),
        fits_points(g0),
        cleared_exactly(g0, grid_view(old(image)), old(object).points@),
        old(object).points@.contains(p),
        linked(old(object).points@),
    ensures
        final(object).wf(),
        final(object).reference == old(object).reference,
        cleared_exactly(g0, grid_view(final(image)), final(object).points@),
        final(object).points@.len() >= old(object).points@.len(),
        final(object).points@.take(old(object).points@.len() as int) == old(object).points@,
        2 * count_true(grid_view(final(image))) + final(object).points@.len() <= 2 * count_true(
            grid_view(old(image)),
        ) + old(object).points@.len(),
        linked(final(object).points@),
        forall|q: Point| adjacent(p, q) ==> !#[trigger] lit(grid_view(final(image)), q),
{
    let ghost pts0 = object.points@;
    let ghost count0 = count_true(grid_view(image));
    let mut idx: u8 = 0;
    while idx < 9
        invariant
            idx <= 9,
            object.wf(),
            object.reference == old(object).reference,
            fits_points(g0),
            cleared_exactly(g0, grid_view(image), object.points@),
            object.points@.contains(p),
            linked(object.points@),
            pts0 == old(object).points@,
            count0 == count_true(grid_view(old(image))),
            object.points@.len() >= pts0.len(),
            forall|i: int| 0 <= i < pts0.len() ==> object.points@[i] == pts0[i],
            2 * count_true(grid_view(image)) + object.points@.len() <= 2 * count0 + pts0.len(),
            forall|q: Point|
                adjacent(p, q) && (q.y - p.y + 1) * 3 + (q.x - p.x + 1) < idx ==> !#[trigger] lit(
                    grid_view(image),
                    q,
                ),
        decreases 9 - idx,
    {
        let dx: i8 = (idx % 3) as i8 - 1;
        let dy: i8 = (idx / 3) as i8 - 1;
        let ghost before = object.points@;
        let ghost g = grid_view(image);
        claim(image, object, p, dx, dy, Ghost(g0));
        proof {
            let after = object.points@;
            assert forall|i: int| 0 <= i < pts0.len() implies after[i] == pts0[i] by {
                assert(after.take(before.len() as int)[i] == before[i]);
            }
            assert forall|q: Point|
                adjacent(p, q) && (q.y - p.y + 1) * 3 + (q.x - p.x + 1) < idx + 1 implies !#[trigger] lit(
                grid_view(image),
                q,
            ) by {
                if (q.y - p.y + 1) * 3 + (q.x - p.x + 1) < idx {
                    if lit(grid_view(image), q) {
                        assert(lit(g, q));
                    }
                } else {
                    assert(q.x == p.x + dx && q.y == p.y + dy);
                }
            }
        }
        idx += 1;
    }
    assert(object.points@.take(pts0.len() as int) =~= pts0);
}

/// Appends the whole connected group of highlighted cells around `point` to
/// `object`, starting with `point` and listing each cell once, and clears those
/// cells and no others.
fn flood_fill(point: Point, object: &mut VisualObject, image: &mut Vec<Vec<bool>>)
    requires
        lit(grid_view(old(image)), point),
        fits_points(grid_view(old(image))),
        old(object).wf(),
    ensures
        final(object).wf(),
        final(object).reference == old(object).reference,
        final(object).points@.len() > old(object).points@.len(),
        final(object).points@.take(old(object).points@.len() as int) == old(object).points@,
        final(object).points@[old(object).points@.len() as int] == point,
        cleared_exactly(
            grid_view(old(image)),
            grid_view(final(image)),
            final(object).points@.skip(old(object).points@.len() as int),
        ),
        closed_in(grid_view(old(image)), final(object).points@.skip(old(object).points@.len() as int)),
        linked(final(object).points@.skip(old(object).points@.len() as int)),
{
    let ghost n0 = object.points@.len();
    let ghost pts0 = object.points@;
    let mut group = VisualObject::new(object.reference);
    fill_group(point, &mut group, image);
    let mut i: usize = 0;
    while i < group.points.len()
        invariant
            i <= group.points@.len(),
            object.wf(),
            object.reference == old(object).reference,
            pts0 == old(object).points@,
            n0 == pts0.len(),
            object.points@ == pts0 + group.points@.take(i as int),
        decreases group.points@.len() - i,
    {
        let ghost before = object.points@;
        object.push(group.points[i]);
        proof {
            assert(group.points@.take(i + 1) =~= group.points@.take(i as int).push(group.points@[i as int]));
            assert(object.points@ =~= pts0 + group.points@.take(i + 1));
        }
        i += 1;
    }
    proof {
        assert(group.points@.take(i as int) =~= group.points@);
        assert(object.points@.skip(n0 as int) =~= group.points@);
        assert(object.points@.take(n0 as int) =~= pts0);
        assert(object.points@[n0 as int] == group.points@[0]);
    }
}

/// Collects the whole connected group of highlighted cells around `point` into
/// the empty `object`, clearing each collected cell.
fn fill_group(point: Point, object: &mut VisualObject, image: &mut Vec<Vec<bool>>)
    requires
        lit(grid_view(old(image)), point),
        fits_points(grid_view(old(image))),
        old(object).wf(),
        old(object).points@.len() == 0,
    ensures
        final(object).wf(),
        final(object).reference == old(object).reference,
        final(object).points@.len() > 0,
        final(object).points@[0] == point,
        cleared_exactly(grid_view(old(image)), grid_view(final(image)), final(object).points@),
        closed_in(grid_view(old(image)), final(object).points@),
        linked(final(object).points@),
{
    let ghost g0 = grid_view(image);
    proof {
        assert(g0[point.y as int] == image@[point.y as int]@);
    }
    image[point.y as usize][point.x as usize] = false;
    object.push(point);
    proof {
        let g = grid_view(image);
        let pts = object.points@;
        assert(g =~= g0.update(point.y as int, g0[point.y as int].update(point.x as int, false)));
        lemma_clear_grid(g0, point.x as int, point.y as int);
        assert(pts[0] == point);
        assert forall|r: Point| (lit(g0, r) && !lit(g, r)) <==> #[trigger] pts.contains(r) by {
            if pts.contains(r) {
                let i = choose|i: int| 0 <= i < pts.len() && pts[i] == r;
                assert(i == 0);
            }
        }
        assert(same_shape(g0, g));
    }
    let mut next: usize = 0;
    while next < object.points.len()
        invariant
            object.wf(),
            object.reference == old(object).reference,
            object.points@.len() > 0,
            object.points@[0] == point,
            next <= object.points@.len(),
            fits_points(g0),
            g0 == grid_view(old(image)),
            cleared_exactly(g0, grid_view(image), object.points@),
            linked(object.points@),
            forall|k: int, q: Point|
                #![trigger object.points@[k], lit(g0, q)]
                0 <= k < next && adjacent(object.points@[k], q) && lit(g0, q) ==> object.points@.contains(q),
        decreases 2 * count_true(grid_view(image)) + object.points@.len() - next,
    {
        let p = object.points[next];
        let ghost before = object.points@;
        let ghost img_before = grid_view(image);
        proof {
            assert(object.points@[next as int] == p);
            assert(object.points@.contains(p));
        }
        claim_neighbours(image, object, p, Ghost(g0));
        proof {
            assert(before[next as int] == p);
        }
        proof {
            let pts = object.points@;
            let g = grid_view(image);
            assert(pts.take(before.len() as int)[0] == before[0]);
            assert forall|k: int| 0 <= k < before.len() implies pts[k] == before[k] by {
                assert(pts.take(before.len() as int)[k] == before[k]);
            }
            assert forall|r: Point| before.contains(r) implies pts.contains(r) by {
                let i = choose|i: int| 0 <= i < before.len() && before[i] == r;
                assert(pts[i] == r);
            }
            assert forall|k: int, q: Point|
                0 <= k < next + 1 && adjacent(pts[k], q) && lit(g0, q) implies pts.contains(q) by {
                if k < next {
                    assert(pts[k] == before[k]);
                    assert(before.contains(q));
                } else {
                    assert(pts[k] == p);
                    assert(!lit(g, q));
                }
            }
        }
        next += 1;
    }
}

proof fn lemma_cleared_chain(g0: Seq<Seq<bool>>, g1: Seq<Seq<bool>>, g2: Seq<Seq<bool>>, a: Seq<Point>, b: Seq<Point>)
    requires
        cleared_exactly(g0, g1, a),
        cleared_exactly(g1, g2, b),
    ensures
        cleared_exactly(g0, g2, a + b),
{
    let ab = a + b;
    assert forall|p: Point| #[trigger] ab.contains(p) <==> a.contains(p) || b.contains(p) by {
        if ab.contains(p) {
            let i = choose|i: int| 0 <= i < ab.len() && ab[i] == p;
            if i >= a.len() {
                assert(b[i - a.len()] == p);
            }
        }
        if a.contains(p) {
            let i = choose|i: int| 0 <= i < a.len() && a[i] == p;
            assert(ab[i] == p);
        }
        if b.contains(p) {
            let i = choose|i: int| 0 <= i < b.len() && b[i] == p;
            assert(ab[a.len() + i] == p);
        }
    }
    assert forall|p: Point| (lit(g0, p) && !lit(g2, p)) <==> #[trigger] ab.contains(p) by {
        assert(a.contains(p) ==> !lit(g1, p));
        assert(b.contains(p) ==> lit(g1, p));
    }
    assert forall|i: int, j: int| 0 <= i < ab.len() && 0 <= j < ab.len() && i != j implies ab[i] != ab[j] by {
        if i < a.len() && j >= a.len() {
            assert(a.contains(ab[i]));
            assert(b.contains(ab[j]));
        } else if i >= a.len() && j < a.len() {
            assert(b.contains(ab[i]));
            assert(a.contains(ab[j]));
        } else if i >= a.len() && j >= a.len() {
            assert(b[i - a.len()] != b[j - a.len()]);
        }
    }
    assert forall|p: Point| #[trigger] lit(g2, p) implies lit(g0, p) by {
        assert(lit(g1, p));
    }
    assert forall|y: int| 0 <= y < g0.len() implies (#[trigger] g0[y]).len() == g2[y].len() by {
        assert(g1[y].len() == g2[y].len());
    }
}

proof fn lemma_all_points_member(objs: Seq<VisualObject>, q: Point)
    ensures
        all_points(objs).contains(q) <==> exists|i: int|
            0 <= i < objs.len() && (#[trigger] objs[i]).points@.contains(q),
    decreases objs.len(),
{
    if objs.len() > 0 {
        let rest = objs.drop_last();
        let a = all_points(rest);
        let b = objs.last().points@;
        lemma_all_points_member(rest, q);
        assert(all_points(objs) == a + b);
        if all_points(objs).contains(q) {
            let k = choose|k: int| 0 <= k < (a + b).len() && (a + b)[k] == q;
            if k < a.len() {
                assert(a[k] == q);
                let i = choose|i: int| 0 <= i < rest.len() && (#[trigger] rest[i]).points@.contains(q);
                assert(objs[i] == rest[i]);
            } else {
                assert(b[k - a.len()] == q);
                assert(objs[objs.len() - 1].points@.contains(q));
            }
        }
        if exists|i: int| 0 <= i < objs.len() && (#[trigger] objs[i]).points@.contains(q) {
            let i = choose|i: int| 0 <= i < objs.len() && (#[trigger] objs[i]).points@.contains(q);
            if i < objs.len() - 1 {
                assert(objs[i] == rest[i]);
                assert(a.contains(q));
                let k = choose|k: int| 0 <= k < a.len() && a[k] == q;
                assert((a + b)[k] == q);
            } else {
                let k = choose|k: int| 0 <= k < b.len() && b[k] == q;
                assert((a + b)[a.len() + k] == q);
            }
        }
    }
}

/// Every point of an object is highlighted in `g`.
pub open spec fn points_lit(g: Seq<Seq<bool>>, o: VisualObject) -> bool {
    forall|i: int| 0 <= i < o.points@.len() ==> lit(g, #[trigger] o.points@[i])
}

/// Finds the connected groups of highlighted cells, scanning the map row by row.
/// Every highlighted cell lands in exactly one object, and the number of points
/// of all objects is the number of highlighted cells. Each object starts with its
/// first cell in the scan, and objects come in the scan order of those cells.
pub fn find_highlights_in_map(image: Vec<Vec<bool>>, reference: Point) -> (r: Vec<VisualObject>)
    requires
        fits_points(grid_view(&image)),
    ensures
        forall|i: int|
            0 <= i < r@.len() ==> (#[trigger] r@[i]).wf() && r@[i].reference == reference && r@[i].points@.len()
                > 0 && points_lit(grid_view(&image), r@[i]),
        forall|i: int| 0 <= i < r@.len() ==> closed_in(grid_view(&image), (#[trigger] r@[i]).points@),
        forall|i: int| 0 <= i < r@.len() ==> linked((#[trigger] r@[i]).points@),
        forall|p: Point| #[trigger] all_points(r@).contains(p) <==> lit(grid_view(&image), p),
        all_points(r@).no_duplicates(),
        all_points(r@).len() == count_true(grid_view(&image)),
        forall|i: int| 0 <= i < r@.len() ==> first_in_scan((#[trigger] r@[i]).points@),
        forall|i: int, j: int|
            0 <= i < j < r@.len() ==> scan_before((#[trigger] r@[i]).points@[0], (#[trigger] r@[j]).points@[0]),
{
    let ghost g0 = grid_view(&image);
    let mut map = image;
    let mut objects: Vec<VisualObject> = Vec::new();
    proof {
        assert(all_points(objects@) =~= Seq::<Point>::empty());
        assert(same_shape(g0, grid_view(&map)));
    }
    let mut y: usize = 0;
    while y < map.len()
        invariant
            g0 == grid_view(&image),
            fits_points(g0),
            y <= map.len(),
            cleared_exactly(g0, grid_view(&map), all_points(objects@)),
            forall|i: int|
                0 <= i < objects@.len() ==> (#[trigger] objects@[i]).wf() && objects@[i].reference == reference
                    && objects@[i].points@.len() > 0 && points_lit(g0, objects@[i]),
            forall|i: int| 0 <= i < objects@.len() ==> closed_in(g0, (#[trigger] objects@[i]).points@),
            forall|i: int| 0 <= i < objects@.len() ==> linked((#[trigger] objects@[i]).points@),
            forall|i: int| 0 <= i < objects@.len() ==> first_in_scan((#[trigger] objects@[i]).points@),
            forall|i: int, j: int|
                0 <= i < j < objects@.len() ==> scan_before(
                    (#[trigger] objects@[i]).points@[0],
                    (#[trigger] objects@[j]).points@[0],
                ),
            forall|i: int| 0 <= i < objects@.len() ==> (#[trigger] objects@[i]).points@[0].y < y,
            forall|j: int, i: int| 0 <= j < y && 0 <= i < map@[j]@.len() ==> !#[trigger] map@[j]@[i],
        decreases map.len() - y,
    {
        let mut x: usize = 0;
        while x < map[y].len()
            invariant
                g0 == grid_view(&image),
                fits_points(g0),
                y < map.len(),
                x <= map@[y as int]@.len(),
                cleared_exactly(g0, grid_view(&map), all_points(objects@)),
                forall|i: int|
                    0 <= i < objects@.len() ==> (#[trigger] objects@[i]).wf() && objects@[i].reference == reference
                        && objects@[i].points@.len() > 0 && points_lit(g0, objects@[i]),
                forall|i: int| 0 <= i < objects@.len() ==> closed_in(g0, (#[trigger] objects@[i]).points@),
                forall|i: int| 0 <= i < objects@.len() ==> linked((#[trigger] objects@[i]).points@),
                forall|i: int| 0 <= i < objects@.len() ==> first_in_scan((#[trigger] objects@[i]).points@),
                forall|i: int, j: int|
                    0 <= i < j < objects@.len() ==> scan_before(
                        (#[trigger] objects@[i]).points@[0],
                        (#[trigger] objects@[j]).points@[0],
                    ),
                forall|i: int|
                    0 <= i < objects@.len() ==> (#[trigger] objects@[i]).points@[0].y < y || (
                    objects@[i].points@[0].y == y && objects@[i].points@[0].x < x),
                forall|j: int, i: int| 0 <= j < y && 0 <= i < map@[j]@.len() ==> !#[trigger] map@[j]@[i],
                forall|i: int| 0 <= i < x ==> !#[trigger] map@[y as int]@[i],
            decreases map@[y as int]@.len() - x,
        {
            if map[y][x] {
                let ghost g1 = grid_view(&map);
                let ghost old_map_rows = map@;
                let ghost objs = objects@;
                let point = Point::new(x as u32, y as u32);
                proof {
                    assert(g1[y as int] == map@[y as int]@);
                    assert(lit(g1, point));
                    assert(g0[y as int].len() == g1[y as int].len());
                    assert forall|j: int| 0 <= j < g1.len() implies (#[trigger] g1[j]).len() <= u32::MAX by {
                        assert(g0[j].len() == g1[j].len());
                    }
                }
                let mut object = VisualObject::new(reference);
                flood_fill(point, &mut object, &mut map);
                proof {
                    assert(object.points@.skip(0) =~= object.points@);
                    let g2 = grid_view(&map);
                    lemma_cleared_chain(g0, g1, g2, all_points(objs), object.points@);
                    objects@.push(object);
                }
                objects.push(object);
                proof {
                    let g2 = grid_view(&map);
                    assert(objects@.drop_last() =~= objs);
                    assert(all_points(objects@) == all_points(objs) + object.points@);
                    assert forall|i: int| 0 <= i < object.points@.len() implies lit(g0, #[trigger] object.points@[i]) by {
                        assert(object.points@.contains(object.points@[i]));
                        assert(lit(g1, object.points@[i]));
                    }
                    assert forall|i: int|
                        0 <= i < objects@.len() implies (#[trigger] objects@[i]).wf() && objects@[i].reference
                            == reference && objects@[i].points@.len() > 0 && points_lit(g0, objects@[i]) by {
                        if i < objs.len() {
                            assert(objects@[i] == objs[i]);
                        }
                    }
                    let o = object.points@;
                    assert forall|p: Point, q: Point|
                        o.contains(p) && adjacent(p, q) && lit(g0, q) implies o.contains(q) by {
                        assert(lit(g1, p));
                        if !lit(g1, q) {
                            assert(all_points(objs).contains(q));
                            lemma_all_points_member(objs, q);
                            let i = choose|i: int| 0 <= i < objs.len() && (#[trigger] objs[i]).points@.contains(q);
                            assert(closed_in(g0, objs[i].points@));
                            assert(adjacent(q, p));
                            assert(objs[i].points@.contains(p));
                            lemma_all_points_member(objs, p);
                            assert(all_points(objs).contains(p));
                            assert(false);
                        }
                    }
                    assert(closed_in(g0, o));
                    assert forall|i: int| 0 <= i < objects@.len() implies closed_in(g0, (#[trigger] objects@[i]).points@)
                        && linked(objects@[i].points@) by {
                        if i < objs.len() {
                            assert(objects@[i] == objs[i]);
                        } else {
                            assert(objects@[i] == object);
                        }
                    }
                    assert forall|k: int| 0 < k < o.len() implies scan_before(o[0], #[trigger] o[k]) by {
                        assert(o.contains(o[k]));
                        assert(lit(g1, o[k]));
                        let q = o[k];
                        assert(g1[q.y as int] == old_map_rows[q.y as int]@);
                        if !scan_before(point, q) {
                            assert(q != point) by {
                                assert(o.no_duplicates());
                            }
                        }
                    }
                    assert forall|i: int|
                        0 <= i < objects@.len() implies first_in_scan((#[trigger] objects@[i]).points@) && (
                        objects@[i].points@[0].y < y || (objects@[i].points@[0].y == y && objects@[i].points@[0].x
                            <= x)) by {
                        if i < objs.len() {
                            assert(objects@[i] == objs[i]);
                        } else {
                            assert(objects@[i] == object);
                        }
                    }
                    assert forall|i: int, j: int|
                        0 <= i < j < objects@.len() implies scan_before(
                        (#[trigger] objects@[i]).points@[0],
                        (#[trigger] objects@[j]).points@[0],
                    ) by {
                        assert(objects@[i] == objs[i]);
                        if j < objs.len() {
                            assert(objects@[j] == objs[j]);
                        } else {
                            assert(objects@[j] == object);
                        }
                    }
                    assert(object.points@.contains(point));
                    assert(!lit(g2, point));
                    assert forall|j: int, i: int| 0 <= j <= y && 0 <= i < map@[j]@.len() && (j < y || i <= x) implies !#[trigger] map@[j]@[i] by {
                        assert(g2[j] == map@[j]@);
                        assert(g0[j].len() == g2[j].len());
                        assert(g0[j].len() == g1[j].len());
                        let q = Point { x: i as u32, y: j as u32 };
                        if lit(g2, q) {
                            assert(lit(g1, q));
                            assert(g1[j][i]);
                        }
                    }
                }
            }
            x += 1;
        }
        y += 1;
    }
    proof {
        let g = grid_view(&map);
        assert forall|j: int, i: int| 0 <= j < g.len() && 0 <= i < g[j].len() implies !#[trigger] g[j][i] by {
            assert(g[j] == map@[j]@);
        }
        lemma_count_zero(g);
        assert forall|p: Point| #[trigger] all_points(objects@).contains(p) <==> lit(g0, p) by {
            assert(!lit(g, p));
        }
    }
    objects
}

/// The map, placed at `reference` in the parent frame, keeps every coordinate
/// within `u32`.
pub open spec fn fits_frame(g: Seq<Seq<bool>>, reference: Point) -> bool {
    &&& fits_points(g)
    &&& reference.y + g.len() <= u32::MAX
    &&& forall|y: int| 0 <= y < g.len() ==> reference.x + (#[trigger] g[y]).len() <= u32::MAX
}

/// The objects of `g` at `reference`: its connected groups, each listed from its
/// first cell in the scan, in the scan order of those cells.
#[verifier::opaque]
pub open spec fn groups_in_scan_order(g: Seq<Seq<bool>>, reference: Point, found: Seq<VisualObject>) -> bool {
    &&& forall|i: int|
        0 <= i < found.len() ==> (#[trigger] found[i]).reference == reference && is_group(g, found[i].points@)
            && first_in_scan(found[i].points@)
    &&& forall|i: int, j: int|
        0 <= i < j < found.len() ==> scan_before((#[trigger] found[i]).points@[0], (#[trigger] found[j]).points@[0])
    &&& forall|p: Point| #[trigger] all_points(found).contains(p) <==> lit(g, p)
    &&& all_points(found).no_duplicates()
}

/// The parts, one after another.
pub open spec fn concat_parts(parts: Seq<Seq<VisualObject>>) -> Seq<VisualObject>
    decreases parts.len(),
{
    if parts.len() == 0 {
        Seq::empty()
    } else {
        concat_parts(parts.drop_last()) + parts.last()
    }
}

/// Where the peeled map of an object with bounding box low corner `lo` sits.
pub open spec fn peel_offset(o: VisualObject, lo: Point) -> Point {
    Point { x: (o.reference.x + lo.x) as u32, y: (o.reference.y + lo.y) as u32 }
}

/// What the extractor emits for one object `o`: nothing when its bounding box
/// is a point or a line, the object itself when it is narrower than `MAX_CELLS`
/// both ways, else what it extracts from the peeled map, within `depth` levels.
pub open spec fn part_of(o: VisualObject, part: Seq<VisualObject>, depth: nat) -> bool
    decreases depth, 0nat,
{
    match bbox_of(o.points@) {
        None => part.len() == 0,
        Some((lo, hi)) => if lo.x == hi.x || lo.y == hi.y {
            part.len() == 0
        } else if hi.x - lo.x < MAX_CELLS && hi.y - lo.y < MAX_CELLS {
            part.len() == 1 && part[0].reference == o.reference && part[0].points@ == o.points@
        } else {
            depth > 0 && extracted(peel(object_map(o.points@)), peel_offset(o, lo), part, (depth - 1) as nat)
        },
    }
}

/// `out` is what extraction from `g` at `reference` emits, within `depth`
/// levels of peeling: the parts of its connected groups, in scan order.
pub open spec fn extracted(g: Seq<Seq<bool>>, reference: Point, out: Seq<VisualObject>, depth: nat) -> bool
    decreases depth, 1nat,
{
    exists|found: Seq<VisualObject>, parts: Seq<Seq<VisualObject>>|
        {
            &&& #[trigger] groups_in_scan_order(g, reference, found)
            &&& parts.len() == found.len()
            &&& out == #[trigger] concat_parts(parts)
            &&& forall|i: int| 0 <= i < found.len() ==> part_of(#[trigger] found[i], parts[i], depth)
        }
}

proof fn lemma_add_part(
    found: Seq<VisualObject>,
    parts: Seq<Seq<VisualObject>>,
    part: Seq<VisualObject>,
    bound: nat,
    prefix: Seq<VisualObject>,
    before: Seq<VisualObject>,
    after: Seq<VisualObject>,
)
    requires
        parts.len() < found.len(),
        forall|i: int, d: nat| 0 <= i < parts.len() && d > bound ==> #[trigger] part_of(found[i], parts[i], d),
        forall|d: nat| d > bound ==> #[trigger] part_of(found[parts.len() as int], part, d),
        before == prefix + concat_parts(parts),
        after == before + part,
    ensures
        forall|i: int, d: nat|
            0 <= i < parts.len() + 1 && d > bound ==> #[trigger] part_of(found[i], parts.push(part)[i], d),
        after == prefix + concat_parts(parts.push(part)),
{
    assert(parts.push(part).drop_last() =~= parts);
    assert(after =~= prefix + concat_parts(parts.push(part)));
    assert forall|i: int, d: nat| 0 <= i < parts.len() + 1 && d > bound implies #[trigger] part_of(
        found[i],
        parts.push(part)[i],
        d,
    ) by {
        if i < parts.len() {
            assert(parts.push(part)[i] == parts[i]);
        } else {
            assert(parts.push(part)[i] == part);
        }
    }
}

/// An object that the extractor keeps: its bounding box is neither a point nor a
/// line and spans fewer than `MAX_CELLS` cells in each direction.
pub open spec fn is_kept(o: VisualObject) -> bool {
    &&& o.wf()
    &&& bbox_of(o.points@) is Some
    &&& {
        let (lo, hi) = bbox_of(o.points@).unwrap();
        &&& lo.x < hi.x
        &&& lo.y < hi.y
        &&& hi.x - lo.x < MAX_CELLS
        &&& hi.y - lo.y < MAX_CELLS
        &&& o.reference.x + hi.x <= u32::MAX
        &&& o.reference.y + hi.y <= u32::MAX
    }
}

/// Handles one object found in a map `g`: drops it when its bounding box is a
/// point or a line, keeps it when it is narrower than `MAX_CELLS` both ways, and
/// else extracts the highlights of its peeled map, appending them to `objects`.
fn extract_object(highlight: VisualObject, objects: &mut Vec<VisualObject>, Ghost(g): Ghost<Seq<Seq<bool>>>)
    requires
        highlight.wf(),
        highlight.points@.len() > 0,
        points_lit(g, highlight),
        fits_frame(g, highlight.reference),
    ensures
        final(objects)@.len() >= old(objects)@.len(),
        final(objects)@.take(old(objects)@.len() as int) == old(objects)@,
        forall|i: int| old(objects)@.len() <= i < final(objects)@.len() ==> is_kept(#[trigger] final(objects)@[i]),
        forall|d: nat| d > g.len() ==> #[trigger] part_of(highlight, final(objects)@.skip(old(objects)@.len() as int), d),
    decreases g.len(), 0nat,
{
    let ghost orig = highlight;
    let ghost before = objects@;
    let mut highlight = highlight;
    let size = highlight.size();
    let (lower, higher) = match size {
        None => {
            return;
        },
        Some(s) => s,
    };
    let ghost pts = highlight.points@;
    proof {
        lemma_bbox_bounds(pts);
        let iy = choose|i: int| 0 <= i < pts.len() && (#[trigger] pts[i]).y == higher.y;
        let ix = choose|i: int| 0 <= i < pts.len() && (#[trigger] pts[i]).x == higher.x;
        assert(lit(g, pts[iy]));
        assert(lit(g, pts[ix]));
        assert(lower.x <= pts[0].x <= higher.x);
        assert(lower.y <= pts[0].y <= higher.y);
        assert(higher.y < g.len());
        assert(higher.x < g[pts[ix].y as int].len());
        assert(bbox_of(orig.points@) == Some((lower, higher)));
    }
    if lower.x == higher.x || lower.y == higher.y {
        proof {
            assert(objects@.skip(before.len() as int) =~= Seq::<VisualObject>::empty());
            assert(objects@.take(before.len() as int) =~= before);
        }
        return;
    }
    if higher.x - lower.x < MAX_CELLS && higher.y - lower.y < MAX_CELLS {
        objects.push(highlight);
        proof {
            assert(is_kept(highlight));
            assert(objects@.skip(before.len() as int) =~= seq![highlight]);
            assert(objects@.take(before.len() as int) =~= before);
        }
        return;
    }
    match highlight.peeled_map() {
        None => {},
        Some(map) => {
            proof {
                let m = object_map(pts);
                assert(grid_view(&map) == peel(m));
                assert(m.len() == higher.y - lower.y + 1);
                assert(m[0].len() == higher.x - lower.x + 1);
                let pm = grid_view(&map);
                assert(pm.len() == higher.y - lower.y);
                assert forall|y: int| 0 <= y < pm.len() implies (#[trigger] pm[y]).len() == higher.x - lower.x by {}
                assert(map@.len() == pm.len());
            }
            let offset = highlight.reference.add(lower);
            extract_highlights(map, offset, objects);
            proof {
                let sub = objects@.skip(before.len() as int);
                assert(orig.points@ == pts);
                assert(peel_offset(orig, lower) == offset);
                assert forall|d: nat| d > g.len() implies #[trigger] part_of(orig, sub, d) by {
                    assert(extracted(grid_view(&map), offset, sub, (d - 1) as nat));
                }
            }
        },
    }
}

/// Extracts the highlights of `image` and appends the kept ones to `objects`:
/// what `extracted` describes, one part for each connected group in scan order.
/// Objects whose bounding box is a point or a line are dropped; objects that
/// span `MAX_CELLS` cells or more are peeled and extracted again, at their own
/// offset, in place of themselves.
pub fn extract_highlights(image: Vec<Vec<bool>>, reference: Point, objects: &mut Vec<VisualObject>)
    requires
        fits_frame(grid_view(&image), reference),
    ensures
        final(objects)@.len() >= old(objects)@.len(),
        final(objects)@.take(old(objects)@.len() as int) == old(objects)@,
        forall|i: int| old(objects)@.len() <= i < final(objects)@.len() ==> is_kept(#[trigger] final(objects)@[i]),
        forall|d: nat|
            d > image@.len() ==> #[trigger] extracted(
                grid_view(&image),
                reference,
                final(objects)@.skip(old(objects)@.len() as int),
                d,
            ),
    decreases image@.len(), 1nat,
{
    let ghost g = grid_view(&image);
    let ghost objs0 = objects@;
    let mut found = find_highlights_in_map(image, reference);
    let ghost found0 = found@;
    let ghost mut k: int = 0;
    let ghost mut parts: Seq<Seq<VisualObject>> = Seq::empty();
    proof {
        assert forall|i: int| 0 <= i < found0.len() implies is_group(g, #[trigger] found0[i].points@) by {
            assert(points_lit(g, found0[i]));
            assert(closed_in(g, found0[i].points@));
            assert(linked(found0[i].points@));
        }
        reveal(groups_in_scan_order);
        assert(groups_in_scan_order(g, reference, found0));
        assert(objects@ =~= objs0 + concat_parts(parts));
    }
    while found.len() > 0
        invariant
            fits_frame(g, reference),
            g.len() == image@.len(),
            0 <= k <= found0.len(),
            found@ == found0.skip(k),
            forall|i: int|
                0 <= i < found0.len() ==> (#[trigger] found0[i]).wf() && found0[i].reference == reference
                    && found0[i].points@.len() > 0 && points_lit(g, found0[i]),
            objects@.len() >= objs0.len(),
            objects@.take(objs0.len() as int) == objs0,
            forall|i: int| objs0.len() <= i < objects@.len() ==> is_kept(#[trigger] objects@[i]),
            groups_in_scan_order(g, reference, found0),
            parts.len() == k,
            objects@ == objs0 + concat_parts(parts),
            forall|i: int, d: nat| 0 <= i < k && d > g.len() ==> #[trigger] part_of(found0[i], parts[i], d),
        decreases found@.len(),
    {
        let highlight = found.remove(0);
        proof {
            assert(highlight == found0[k]);
            assert(found@ =~= found0.skip(k + 1));
        }
        let ghost before = objects@;
        extract_object(highlight, objects, Ghost(g));
        proof {
            let part = objects@.skip(before.len() as int);
            assert(objects@ =~= before + part) by {
                assert(objects@.take(before.len() as int) == before);
            }
            lemma_add_part(found0, parts, part, g.len(), objs0, before, objects@);
            parts = parts.push(part);
            k = k + 1;
            assert(objects@.take(objs0.len() as int) =~= before.take(objs0.len() as int));
            assert forall|i: int| objs0.len() <= i < objects@.len() implies is_kept(#[trigger] objects@[i]) by {
                if i < before.len() {
                    assert(objects@.take(before.len() as int)[i] == before[i]);
                }
            }
        }
    }
    proof {
        assert(k == found0.len()) by {
            assert(found0.skip(k).len() == 0);
        }
        let out = objects@.skip(objs0.len() as int);
        assert(out =~= concat_parts(parts));
        assert(parts.len() == found0.len());
        assert(groups_in_scan_order(g, reference, found0));
        assert forall|d: nat| d > g.len() implies #[trigger] extracted(g, reference, out, d) by {
            assert(forall|i: int| 0 <= i < found0.len() ==> part_of(#[trigger] found0[i], parts[i], d));
        }
    }
}

} // verus!
