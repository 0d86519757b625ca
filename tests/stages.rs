use harriet::cellular_automaton::{cellular_automaton, stabilize};
use harriet::find_edges::{clamp_pixels, find_edges};
use harriet::gray_image::GrayImage;
use harriet::heat_map::heat_map;
use harriet::helpers::{pixel_value, to_point_map};
use harriet::point::Point;

fn image_from(width: u32, height: u32, f: impl Fn(u32, u32) -> u8) -> GrayImage {
    let pixels = (0..height).map(|y| (0..width).map(|x| f(x, y)).collect()).collect();
    GrayImage { width, height, pixels }
}

#[test]
fn point_new_and_add() {
    let p = Point::new(3, 4).add(Point::new(10, 20));
    assert_eq!(p, Point::new(13, 24));
}

#[test]
fn pixel_value_reads_or_defaults() {
    let g = vec![vec![1u32, 2], vec![3, 4, 5]];
    assert_eq!(pixel_value(&g, 1, 0, 9), 2);
    assert_eq!(pixel_value(&g, 2, 1, 9), 5);
    assert_eq!(pixel_value(&g, 2, 0, 9), 9);
    assert_eq!(pixel_value(&g, -1, 0, 9), 9);
    assert_eq!(pixel_value(&g, 0, 2, 9), 9);
}

#[test]
fn to_point_map_marks_nonzero() {
    let m = to_point_map(vec![vec![0, 7], vec![3, 0]]);
    assert_eq!(m, vec![vec![false, true], vec![true, false]]);
}

#[test]
fn clamp_keeps_band_and_moves_extremes() {
    let values = [0u8, 4, 5, 6, 100, 249, 250, 251, 255];
    let img = image_from(9, 1, |x, _| values[x as usize]);
    let r = clamp_pixels(&img);
    assert_eq!(r.pixels[0], vec![5, 5, 5, 6, 100, 249, 250, 250, 250]);
    for v in r.pixels[0].iter() {
        assert!(*v >= 5 && *v <= 250);
    }
}

#[test]
fn clamp_lifts_black_image() {
    let img = image_from(100, 100, |_, _| 0);
    let r = clamp_pixels(&img);
    assert!(r.pixels.iter().all(|row| row.iter().all(|v| *v == 5)));
}

#[test]
fn edges_are_binary() {
    // Pixel 0 saturates high in one detector, pixel 1 low, pixel 2 stays inside.
    let a = image_from(3, 1, |x, _| [255u8, 40, 40][x as usize]);
    let b = image_from(3, 1, |x, _| [30u8, 0, 60][x as usize]);
    let c = image_from(3, 1, |x, _| [30u8, 20, 254][x as usize]);
    let e = find_edges(&vec![a, b, c]);
    assert_eq!(e.pixels[0], vec![0, 0, 255]);
}

#[test]
fn uniform_detectors_give_no_edges() {
    let ds: Vec<GrayImage> = (0..5).map(|_| image_from(10, 10, |_, _| 250)).collect();
    let e = find_edges(&ds);
    assert!(e.pixels.iter().all(|row| row.iter().all(|v| *v == 255)));
}

#[test]
fn heat_map_shape_and_range() {
    let img = image_from(40, 30, |x, y| if (x + y) % 3 == 0 { 0 } else { 255 });
    let (h, max, mean) = heat_map(&img);
    assert_eq!(h.len(), 6);
    assert!(h.iter().all(|row| row.len() == 8));
    assert!(h.iter().all(|row| row.iter().all(|v| *v <= 100)));
    assert!(max >= 1 && max <= 100);
    assert!(mean <= max);
}

#[test]
fn heat_map_of_black_image() {
    let img = image_from(20, 20, |_, _| 0);
    let (h, max, mean) = heat_map(&img);
    assert_eq!(
        h,
        vec![
            vec![25, 50, 50, 25],
            vec![50, 100, 100, 50],
            vec![50, 100, 100, 50],
            vec![25, 50, 50, 25],
        ]
    );
    assert_eq!(max, 100);
    assert_eq!(mean, 900 / 17);
}

#[test]
fn heat_map_of_white_image_is_cold() {
    let img = image_from(100, 100, |_, _| 255);
    let (h, max, mean) = heat_map(&img);
    assert_eq!(h.len(), 20);
    assert!(h.iter().all(|row| row.len() == 20 && row.iter().all(|v| *v == 0)));
    assert_eq!(max, 1);
    assert_eq!(mean, 0);
}

#[test]
fn automaton_grows_hot_block() {
    let grid = vec![vec![50u32; 3]; 3];
    let settled = stabilize(grid.clone(), 100, 10);
    assert!(settled.iter().all(|row| row.iter().all(|v| *v == 100)));
    let m = cellular_automaton(grid, 100, 10);
    assert_eq!(m, vec![vec![true; 3]; 3]);
}

#[test]
fn automaton_kills_isolated_cell() {
    let grid = vec![vec![0u32, 0, 0], vec![0, 50, 0], vec![0, 0, 0]];
    let m = cellular_automaton(grid, 100, 10);
    assert_eq!(m, vec![vec![false; 3]; 3]);
}

#[test]
fn automaton_settles_to_zero_or_max() {
    let grid: Vec<Vec<u32>> = (0..8).map(|y| (0..9).map(|x| (x * 7 + y * 13) % 60).collect()).collect();
    let settled = stabilize(grid, 59, 20);
    assert!(settled.iter().all(|row| row.iter().all(|v| *v == 0 || *v == 59)));
}

#[test]
fn automaton_keeps_stable_map() {
    let grid = vec![vec![0u32, 7], vec![7, 0]];
    assert_eq!(stabilize(grid.clone(), 7, 3), grid);
}

#[test]
fn automaton_decrease_rule_reaches_zero() {
    // The centre sees a neighbourhood mean of 2: above its own heat, below the map mean.
    let grid = vec![vec![2u32, 2, 2], vec![2, 1, 2], vec![2, 2, 2]];
    let settled = stabilize(grid, 10, 5);
    assert_eq!(settled[1][1], 0);
}

#[test]
fn heat_map_of_empty_image() {
    let img = GrayImage { width: 0, height: 0, pixels: Vec::new() };
    let (h, max, mean) = heat_map(&img);
    assert!(h.is_empty());
    assert_eq!((max, mean), (1, 0));
}
