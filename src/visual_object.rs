use vstd::prelude::*;

use crate::helpers::{cell_at, grid_view, neighbour_value};
use crate::point::Point;

verus! {

/// The smallest inclusive rectangle `(low, high)` holding every point, or `None`
/// for no points.
pub open spec fn bbox_of(pts: Seq<Point>) -> Option<(Point, Point)>
    decreases pts.len(),
{
    if pts.len() == 0 {
        None
    } else {
        let p = pts.last();
        match bbox_of(pts.drop_last()) {
            None => Some((p, p)),
            Some((lo, hi)) => Some(
                (
                    Point { x: if p.x < lo.x { p.x } else { lo.x }, y: if p.y < lo.y { p.y } else { lo.y } },
                    Point { x: if p.x > hi.x { p.x } else { hi.x }, y: if p.y > hi.y { p.y } else { hi.y } },
                ),
            ),
        }
    }
}

/// The points of an object drawn on the grid spanned by their bounding box:
/// cell `(x, y)` stands for the point `low + (x, y)`.
pub open spec fn object_map(pts: Seq<Point>) -> Seq<Seq<bool>> {
    let (lo, hi) = bbox_of(pts).unwrap();
    Seq::new(
        (hi.y - lo.y + 1) as nat,
        |y: int|
            Seq::new(
                (hi.x - lo.x + 1) as nat,
                |x: int| pts.contains(Point { x: (lo.x + x) as u32, y: (lo.y + y) as u32 }),
            ),
    )
}

/// All eight Moore neighbours of `(x, y)` exist and are highlighted.
pub open spec fn neighbourhood_highlighted(g: Seq<Seq<bool>>, x: int, y: int) -> bool {
    &&& cell_at(g, x - 1, y - 1, false)
    &&& cell_at(g, x - 1, y + 1, false)
    &&& cell_at(g, x + 1, y - 1, false)
    &&& cell_at(g, x + 1, y + 1, false)
    &&& cell_at(g, x, y - 1, false)
    &&& cell_at(g, x - 1, y, false)
    &&& cell_at(g, x + 1, y, false)
    &&& cell_at(g, x, y + 1, false)
}

/// The erosion of a point map: one row and one column fewer, a cell being set
/// where all eight of its neighbours in `m` are set.
pub open spec fn peel(m: Seq<Seq<bool>>) -> Seq<Seq<bool>> {
    Seq::new(
        (m.len() - 1) as nat,
        |y: int| Seq::new((m[0].len() - 1) as nat, |x: int| neighbourhood_highlighted(m, x, y)),
    )
}

/// Every point lies within the bounding box, and each of its four bounds is
/// reached by some point.
pub proof fn lemma_bbox_bounds(pts: Seq<Point>)
    requires
        pts.len() > 0,
    ensures
        bbox_of(pts) is Some,
        forall|i: int|
            0 <= i < pts.len() ==> {
                let (lo, hi) = bbox_of(pts).unwrap();
                lo.x <= (#[trigger] pts[i]).x <= hi.x && lo.y <= pts[i].y <= hi.y
            },
        exists|i: int| 0 <= i < pts.len() && (#[trigger] pts[i]).x == bbox_of(pts).unwrap().0.x,
        exists|i: int| 0 <= i < pts.len() && (#[trigger] pts[i]).y == bbox_of(pts).unwrap().0.y,
        exists|i: int| 0 <= i < pts.len() && (#[trigger] pts[i]).x == bbox_of(pts).unwrap().1.x,
        exists|i: int| 0 <= i < pts.len() && (#[trigger] pts[i]).y == bbox_of(pts).unwrap().1.y,
    decreases pts.len(),
{
    let n = pts.len() - 1;
    if pts.len() == 1 {
        assert(pts[0] == pts.last());
    } else {
        let rest = pts.drop_last();
        lemma_bbox_bounds(rest);
        assert forall|i: int| 0 <= i < n implies #[trigger] pts[i] == rest[i] by {}
        let i0 = choose|i: int| 0 <= i < rest.len() && (#[trigger] rest[i]).x == bbox_of(rest).unwrap().0.x;
        let i1 = choose|i: int| 0 <= i < rest.len() && (#[trigger] rest[i]).y == bbox_of(rest).unwrap().0.y;
        let i2 = choose|i: int| 0 <= i < rest.len() && (#[trigger] rest[i]).x == bbox_of(rest).unwrap().1.x;
        let i3 = choose|i: int| 0 <= i < rest.len() && (#[trigger] rest[i]).y == bbox_of(rest).unwrap().1.y;
        assert(pts[i0] == rest[i0] && pts[i1] == rest[i1] && pts[i2] == rest[i2] && pts[i3] == rest[i3]);
        assert(pts[n] == pts.last());
    }
}

/// A connected group of highlighted cells.
pub struct VisualObject {
    /// Offset of the object's coordinate frame inside the parent frame.
    pub reference: Point,
    /// The cells of the object, in local coordinates.
    pub points: Vec<Point>,
    /// Cached bounding box; `None` until computed after the last push.
    pub size: Option<(Point, Point)>,
}

impl VisualObject {
    /// The cached bounding box is absent or up to date.
    pub open spec fn wf(&self) -> bool {
        self.size is None || self.size == bbox_of(self.points@)
    }

    /// A new object without points.
    pub fn new(reference: Point) -> (r: VisualObject)
        ensures
            r.wf(),
            r.reference == reference,
            r.points@ == Seq::<Point>::empty(),
    {
        VisualObject { points: Vec::new(), size: None, reference }
    }

    /// Adds a point and drops the cached bounding box.
    pub fn push(&mut self, point: Point)
        ensures
            final(self).wf(),
            final(self).reference == old(self).reference,
            final(self).points@ == old(self).points@.push(point),
    {
        self.points.push(point);
        self.size = None;
    }

    /// The smallest rectangle holding all points, `None` for an empty object.
    pub fn size(&mut self) -> (r: Option<(Point, Point)>)
        requires
            old(self).wf(),
        ensures
            final(self).wf(),
            final(self).reference == old(self).reference,
            final(self).points@ == old(self).points@,
            r == bbox_of(old(self).points@),
    {
        if self.points.len() == 0 {
            return None;
        }
        if self.size.is_some() {
            return self.size;
        }
        let mut lowest: Option<Point> = None;
        let mut highest: Option<Point> = None;
        let mut i: usize = 0;
        while i < self.points.len()
            invariant
                i <= self.points.len(),
                i == 0 ==> lowest is None && highest is None,
                i > 0 ==> bbox_of(self.points@.take(i as int)) == Some((lowest.unwrap(), highest.unwrap())),
                i > 0 ==> lowest is Some && highest is Some,
            decreases self.points.len() - i,
        {
            let point = self.points[i];
            proof {
                assert(self.points@.take(i + 1).drop_last() =~= self.points@.take(i as int));
            }
            lowest = match lowest {
                None => Some(point),
                Some(low) => Some(
                    Point::new(
                        if point.x < low.x { point.x } else { low.x },
                        if point.y < low.y { point.y } else { low.y },
                    ),
                ),
            };
            highest = match highest {
                None => Some(point),
                Some(high) => Some(
                    Point::new(
                        if point.x > high.x { point.x } else { high.x },
                        if point.y > high.y { point.y } else { high.y },
                    ),
                ),
            };
            i += 1;
        }
        assert(self.points@.take(i as int) =~= self.points@);
        let (Some(low), Some(high)) = (lowest, highest) else {
            return None;
        };
        self.size = Some((low, high));
        self.size
    }

    /// The object's points drawn on the grid spanned by its bounding box, `None`
    /// for an empty object.
    pub fn point_map(&mut self) -> (r: Option<Vec<Vec<bool>>>)
        requires
            old(self).wf(),
        ensures
            final(self).wf(),
            final(self).reference == old(self).reference,
            final(self).points@ == old(self).points@,
            r is None <==> old(self).points@.len() == 0,
            r is Some ==> grid_view(&r.unwrap()) == object_map(old(self).points@),
    {
        let size = self.size();
        let (lower, higher) = match size {
            None => {
                return None;
            },
            Some(s) => s,
        };
        let ghost pts = self.points@;
        proof {
            lemma_bbox_bounds(pts);
        }
        let span_x: u64 = (higher.x - lower.x) as u64;
        let span_y: u64 = (higher.y - lower.y) as u64;
        let mut map: Vec<Vec<bool>> = Vec::new();
        let mut y: u64 = 0;
        while y <= span_y
            invariant
                span_x <= u32::MAX,
                span_y <= u32::MAX,
                y <= span_y + 1,
                map.len() == y,
                forall|j: int| 0 <= j < y ==> (#[trigger] map@[j])@.len() == span_x + 1,
                forall|j: int, i: int| 0 <= j < y && 0 <= i <= span_x ==> !(#[trigger] map@[j]@[i]),
            decreases span_y + 1 - y,
        {
            let mut row: Vec<bool> = Vec::new();
            let mut x: u64 = 0;
            while x <= span_x
                invariant
                    span_x <= u32::MAX,
                    x <= span_x + 1,
                    row.len() == x,
                    forall|i: int| 0 <= i < x ==> !(#[trigger] row@[i]),
                decreases span_x + 1 - x,
            {
                row.push(false);
                x += 1;
            }
            map.push(row);
            y += 1;
        }
        let mut k: usize = 0;
        while k < self.points.len()
            invariant
                pts == self.points@,
                bbox_of(pts) == Some((lower, higher)),
                forall|i: int|
                    0 <= i < pts.len() ==> lower.x <= (#[trigger] pts[i]).x <= higher.x && lower.y <= pts[i].y
                        <= higher.y,
                span_x == higher.x - lower.x,
                span_y == higher.y - lower.y,
                k <= pts.len(),
                map.len() == span_y + 1,
                forall|j: int| 0 <= j <= span_y ==> (#[trigger] map@[j])@.len() == span_x + 1,
                forall|j: int, i: int|
                    0 <= j <= span_y && 0 <= i <= span_x ==> (#[trigger] map@[j]@[i] <==> exists|m: int|
                        0 <= m < k && pts[m] == Point { x: (lower.x + i) as u32, y: (lower.y + j) as u32 }),
            decreases pts.len() - k,
        {
            let point = self.points[k];
            let yy: usize = (point.y - lower.y) as usize;
            let xx: usize = (point.x - lower.x) as usize;
            let ghost before = map@;
            map[yy][xx] = true;
            proof {
                assert forall|j: int, i: int| 0 <= j <= span_y && 0 <= i <= span_x implies (#[trigger] map@[j]@[i]
                    <==> exists|m: int|
                    0 <= m < k + 1 && pts[m] == Point { x: (lower.x + i) as u32, y: (lower.y + j) as u32 }) by {
                    let q = Point { x: (lower.x + i) as u32, y: (lower.y + j) as u32 };
                    if j == yy && i == xx {
                        assert(pts[k as int] == q);
                    } else {
                        assert(map@[j]@[i] == before[j]@[i]);
                        if map@[j]@[i] {
                            let m = choose|m: int| 0 <= m < k && pts[m] == q;
                            assert(0 <= m < k + 1 && pts[m] == q);
                        }
                        if exists|m: int| 0 <= m < k + 1 && pts[m] == q {
                            let m = choose|m: int| 0 <= m < k + 1 && pts[m] == q;
                            assert(m != k);
                        }
                    }
                }
            }
            k += 1;
        }
        proof {
            let om = object_map(pts);
            assert forall|j: int| 0 <= j < om.len() implies #[trigger] grid_view(&map)[j] == om[j] by {
                assert(grid_view(&map)[j] =~= om[j]);
            }
            assert(grid_view(&map) =~= om);
        }
        Some(map)
    }

    /// The eroded point map: one row and one column fewer than the point map, a
    /// cell being set where all eight of its neighbours are set. `None` for an
    /// empty object.
    pub fn peeled_map(&mut self) -> (r: Option<Vec<Vec<bool>>>)
        requires
            old(self).wf(),
        ensures
            final(self).wf(),
            final(self).reference == old(self).reference,
            final(self).points@ == old(self).points@,
            r is None <==> old(self).points@.len() == 0,
            r is Some ==> grid_view(&r.unwrap()) == peel(object_map(old(self).points@)),
            r is Some ==> r.unwrap()@.len() + 1 == object_map(old(self).points@).len(),
            r is Some ==> forall|y: int|
                0 <= y < r.unwrap()@.len() ==> (#[trigger] r.unwrap()@[y])@.len() + 1 == object_map(
                    old(self).points@,
                )[0].len(),
    {
        let map = match self.point_map() {
            None => {
                return None;
            },
            Some(m) => m,
        };
        let (lower, higher) = match self.size() {
            None => {
                return None;
            },
            Some(s) => s,
        };
        proof {
            lemma_bbox_bounds(self.points@);
            assert(lower.x <= self.points@[0].x <= higher.x);
            assert(lower.y <= self.points@[0].y <= higher.y);
        }
        let ghost m = grid_view(&map);
        let mut peeled_map: Vec<Vec<bool>> = Vec::new();
        let mut y: u32 = 0;
        while y < higher.y - lower.y
            invariant
                m == grid_view(&map),
                m == object_map(self.points@),
                bbox_of(self.points@) == Some((lower, higher)),
                lower.x <= higher.x,
                lower.y <= higher.y,
                y <= higher.y - lower.y,
                peeled_map.len() == y,
                forall|j: int| 0 <= j < y ==> #[trigger] peeled_map@[j]@ == peel(m)[j],
            decreases higher.y - lower.y - y,
        {
            let mut row: Vec<bool> = Vec::new();
            let mut x: u32 = 0;
            while x < higher.x - lower.x
                invariant
                    m == grid_view(&map),
                    m == object_map(self.points@),
                    bbox_of(self.points@) == Some((lower, higher)),
                    lower.x <= higher.x,
                    lower.y <= higher.y,
                    y < higher.y - lower.y,
                    x <= higher.x - lower.x,
                    row.len() == x,
                    forall|i: int| 0 <= i < x ==> #[trigger] row@[i] == neighbourhood_highlighted(m, i, y as int),
                decreases higher.x - lower.x - x,
            {
                row.push(is_neighbourhood_highlighted(&map, x, y));
                x += 1;
            }
            assert(row@ =~= peel(m)[y as int]);
            peeled_map.push(row);
            y += 1;
        }
        assert(grid_view(&peeled_map) =~= peel(m));
        assert forall|j: int| 0 <= j < peeled_map@.len() implies (#[trigger] peeled_map@[j])@.len() + 1 == m[0].len() by {
            assert(peeled_map@[j]@ == peel(m)[j]);
        }
        Some(peeled_map)
    }
}

/// Tells whether all eight Moore neighbours of `(x, y)` are highlighted.
fn is_neighbourhood_highlighted(map: &Vec<Vec<bool>>, x: u32, y: u32) -> (r: bool)
    ensures
        r == neighbourhood_highlighted(grid_view(map), x as int, y as int),
{
    let x: usize = x as usize;
    let y: usize = y as usize;
    neighbour_value(map, x, y, -1, -1, false) && neighbour_value(map, x, y, -1, 1, false) && neighbour_value(
        map,
        x,
        y,
        1,
        -1,
        false,
    ) && neighbour_value(map, x, y, 1, 1, false) && neighbour_value(map, x, y, 0, -1, false)
        && neighbour_value(map, x, y, -1, 0, false) && neighbour_value(map, x, y, 1, 0, false) && neighbour_value(
        map,
        x,
        y,
        0,
        1,
        false,
    )
}

} // verus!
