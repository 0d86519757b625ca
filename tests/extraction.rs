use image::GenericImageView;
use harriet::cut_highlights_from_image::{crop_rects, cut_highlights_from_image, CropRect};
use harriet::extract_highlights::{extract_highlights, find_highlights_in_map};
use harriet::point::Point;
use harriet::visual_object::VisualObject;

fn map_from(width: usize, height: usize, f: impl Fn(usize, usize) -> bool) -> Vec<Vec<bool>> {
    (0..height).map(|y| (0..width).map(|x| f(x, y)).collect()).collect()
}

fn object_with(reference: Point, points: &[(u32, u32)]) -> VisualObject {
    let mut o = VisualObject::new(reference);
    for (x, y) in points {
        o.push(Point::new(*x, *y));
    }
    o
}

#[test]
fn size_is_bounding_box() {
    let mut o = object_with(Point::new(0, 0), &[(3, 4), (1, 7), (5, 2)]);
    assert_eq!(o.size(), Some((Point::new(1, 2), Point::new(5, 7))));
    o.push(Point::new(0, 9));
    assert_eq!(o.size(), Some((Point::new(0, 2), Point::new(5, 9))));
}

#[test]
fn empty_object_has_no_size() {
    let mut o = VisualObject::new(Point::new(1, 1));
    assert_eq!(o.size(), None);
    assert!(o.point_map().is_none());
    assert!(o.peeled_map().is_none());
}

#[test]
fn point_map_draws_points() {
    let mut o = object_with(Point::new(0, 0), &[(2, 2), (3, 3), (2, 4)]);
    let m = o.point_map().unwrap();
    assert_eq!(m, vec![vec![true, false], vec![false, true], vec![true, false]]);
}

#[test]
fn peeled_map_is_one_smaller() {
    let pts: Vec<(u32, u32)> = (0..3).flat_map(|y| (0..3).map(move |x| (x, y))).collect();
    let mut o = object_with(Point::new(0, 0), &pts);
    let p = o.peeled_map().unwrap();
    assert_eq!(p, vec![vec![false, false], vec![false, true]]);

    let mut l = object_with(Point::new(0, 0), &[(1, 1), (4, 3)]);
    let p = l.peeled_map().unwrap();
    assert_eq!(p.len(), 2);
    assert!(p.iter().all(|row| row.len() == 3));
}

#[test]
fn flood_fill_partitions_highlighted_cells() {
    let map = map_from(8, 6, |x, y| (x < 3 && y < 2) || (x >= 5 && y >= 3) || (x == 3 && y == 2));
    let total = map.iter().flatten().filter(|v| **v).count();
    let objects = find_highlights_in_map(map, Point::new(0, 0));
    assert_eq!(objects.len(), 2);
    assert_eq!(objects[0].points[0], Point::new(0, 0));
    assert_eq!(objects[1].points[0], Point::new(5, 3));
    let mut seen: Vec<Point> = Vec::new();
    for o in objects.iter() {
        for p in o.points.iter() {
            assert!(!seen.contains(p));
            seen.push(*p);
        }
    }
    assert_eq!(seen.len(), total);
}

#[test]
fn flood_fill_finds_last_cell() {
    let map = map_from(4, 4, |x, y| x == 3 && y == 3);
    let objects = find_highlights_in_map(map, Point::new(0, 0));
    assert_eq!(objects.len(), 1);
    assert_eq!(objects[0].points, vec![Point::new(3, 3)]);
}

#[test]
fn extract_drops_lines_and_keeps_blocks() {
    let map = map_from(20, 20, |x, y| (x >= 2 && x < 7 && y >= 2 && y < 7) || (y == 15 && x >= 2 && x < 12));
    let mut objects = Vec::new();
    extract_highlights(map, Point::new(0, 0), &mut objects);
    assert_eq!(objects.len(), 1);
    assert_eq!(objects[0].size(), Some((Point::new(2, 2), Point::new(6, 6))));
}

#[test]
fn extract_splits_blocks_joined_by_corridor() {
    let map = map_from(80, 55, |x, y| {
        let a = (5..=49).contains(&x) && (5..=49).contains(&y);
        let corridor = y == 27 && (50..=59).contains(&x);
        let b = (60..=74).contains(&x) && (20..=34).contains(&y);
        a || corridor || b
    });
    let mut objects = Vec::new();
    extract_highlights(map, Point::new(0, 0), &mut objects);
    assert_eq!(objects.len(), 2);
    for o in objects.iter_mut() {
        let (lo, hi) = o.size().unwrap();
        assert!(hi.x - lo.x < 40 && hi.y - lo.y < 40);
    }
}

#[test]
fn extract_finds_two_separate_squares() {
    let map = map_from(40, 20, |x, y| ((3..9).contains(&x) || (25..31).contains(&x)) && (5..11).contains(&y));
    let mut objects = Vec::new();
    extract_highlights(map, Point::new(0, 0), &mut objects);
    assert_eq!(objects.len(), 2);
}

#[test]
fn crop_rect_adds_margin() {
    let o = object_with(Point::new(1, 1), &[(2, 3), (6, 8)]);
    let rects = crop_rects(vec![o]);
    assert_eq!(rects, vec![CropRect { x: 10, y: 15, width: 30, height: 35 }]);
}

#[test]
fn crop_rect_at_origin_has_no_top_left_margin() {
    let o = object_with(Point::new(0, 0), &[(0, 0), (3, 2)]);
    let empty = VisualObject::new(Point::new(0, 0));
    let rects = crop_rects(vec![empty, o]);
    assert_eq!(rects, vec![CropRect { x: 0, y: 0, width: 25, height: 20 }]);
}

#[test]
fn crop_rects_stay_inside_image_at_corners() {
    // A 100 by 100 image has a 20 by 20 overlap map; highlights near each corner.
    let corners = [(1u32, 1u32, 4u32, 4u32), (15, 1, 19, 4), (1, 15, 4, 19), (15, 15, 19, 19)];
    for (lx, ly, hx, hy) in corners {
        let o = object_with(Point::new(0, 0), &[(lx, ly), (hx, hy)]);
        let r = crop_rects(vec![o])[0];
        assert!(r.x + r.width <= 100 && r.y + r.height <= 100);
    }
}

#[test]
fn cut_crops_the_image() {
    let img = image::DynamicImage::new_luma8(100, 100);
    let o = object_with(Point::new(0, 0), &[(2, 3), (6, 8)]);
    let crops = cut_highlights_from_image(vec![o], img);
    assert_eq!(crops.len(), 1);
    assert_eq!((crops[0].width(), crops[0].height()), (30, 35));
}

#[test]
fn empty_maps_have_no_objects() {
    assert!(find_highlights_in_map(Vec::new(), Point::new(0, 0)).is_empty());
    assert!(find_highlights_in_map(vec![Vec::new(), Vec::new()], Point::new(0, 0)).is_empty());
    let mut objects = Vec::new();
    extract_highlights(map_from(5, 5, |_, _| false), Point::new(3, 3), &mut objects);
    assert!(objects.is_empty());
}

#[test]
fn extract_appends_after_existing_objects() {
    let mut objects = vec![object_with(Point::new(0, 0), &[(0, 0)])];
    let map = map_from(10, 10, |x, y| (2..5).contains(&x) && (2..5).contains(&y));
    extract_highlights(map, Point::new(7, 9), &mut objects);
    assert_eq!(objects.len(), 2);
    assert_eq!(objects[0].points, vec![Point::new(0, 0)]);
    assert_eq!(objects[1].reference, Point::new(7, 9));
    assert_eq!(objects[1].size(), Some((Point::new(2, 2), Point::new(4, 4))));
}

#[test]
fn corridor_vanishes_when_peeled() {
    // One group: two 5x5 blocks joined by a one-cell corridor, 49 cells wide.
    let map = map_from(60, 10, |x, y| {
        ((2..=6).contains(&x) || (47..=51).contains(&x)) && (3..=7).contains(&y) || (y == 5 && (7..=46).contains(&x))
    });
    let mut objects = Vec::new();
    extract_highlights(map, Point::new(0, 0), &mut objects);
    assert_eq!(objects.len(), 2);
    let expected = [(1u32, 3u32), (46, 48)];
    for (o, (x0, x1)) in objects.iter().zip(expected) {
        assert_eq!(o.reference, Point::new(2, 3));
        let mut pts = o.points.clone();
        pts.sort_by_key(|p| (p.y, p.x));
        let want: Vec<Point> = (1..=3).flat_map(|y| (x0..=x1).map(move |x| Point::new(x, y))).collect();
        assert_eq!(pts, want);
    }
}

#[test]
fn crop_rect_at_both_edges_runs_one_cell_past() {
    // Near corner on the first column, far corner on the last of a 100 pixel wide image.
    let o = object_with(Point::new(0, 0), &[(0, 2), (19, 6)]);
    let r = crop_rects(vec![o])[0];
    assert_eq!((r.x, r.width), (0, 105));
}
