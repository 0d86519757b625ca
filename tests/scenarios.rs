use harriet::cellular_automaton::stabilize;
use harriet::cut_highlights_from_image::{crop_rects, cut_highlights_from_image};
use harriet::find_edges::{find_edges, smooth_out_polarized_pixels};
use harriet::gray_image::GrayImage;
use harriet::heat_map::heat_map;
use harriet::identify::find_highlight_objects;

const K: f32 = 7.5;
const FILTERS: [[f32; 9]; 5] = [
    [K, K, K, 1.0, 1.0, 1.0, -K, -K, -K],
    [K, 1.0, -K, K, 1.0, -K, K, 1.0, -K],
    [-K, -K / 2.0, 1.0, -K / 2.0, 1.0, K / 2.0, 1.0, K / 2.0, K],
    [1.0, K, K, -K, 1.0, K, -K, -K, 1.0],
    [K, K, 1.0, K, 1.0, -K, 1.0, -K, -K],
];

fn to_buffer(g: &GrayImage) -> image::DynamicImage {
    let mut buf = image::GrayImage::new(g.width, g.height);
    for (y, row) in g.pixels.iter().enumerate() {
        for (x, v) in row.iter().enumerate() {
            buf.put_pixel(x as u32, y as u32, image::Luma([*v]));
        }
    }
    image::DynamicImage::ImageLuma8(buf)
}

fn from_buffer(img: &image::DynamicImage) -> GrayImage {
    let luma = img.to_luma8();
    let (width, height) = luma.dimensions();
    let pixels = (0..height).map(|y| (0..width).map(|x| luma.get_pixel(x, y).0[0]).collect()).collect();
    GrayImage { width, height, pixels }
}

fn edges_of(img: &image::DynamicImage) -> GrayImage {
    let clamped = to_buffer(&smooth_out_polarized_pixels(img));
    let detectors: Vec<GrayImage> = FILTERS.iter().map(|k| from_buffer(&clamped.filter3x3(k))).collect();
    find_edges(&detectors)
}

fn scene(w: u32, h: u32, value: u8, squares: &[(u32, u32, u32)]) -> image::DynamicImage {
    let mut buf = image::GrayImage::new(w, h);
    for y in 0..h {
        for x in 0..w {
            let black = squares.iter().any(|(sx, sy, s)| x >= *sx && x < sx + s && y >= *sy && y < sy + s);
            buf.put_pixel(x, y, image::Luma([if black { 0 } else { value }]));
        }
    }
    image::DynamicImage::ImageLuma8(buf)
}

fn interior_is_blank(e: &GrayImage) -> bool {
    // The filters leave their one-pixel frame at 0, so only the interior is judged.
    (1..e.height as usize - 1).all(|y| (1..e.width as usize - 1).all(|x| e.pixels[y][x] == 255))
}

#[test]
fn white_image_has_no_highlights() {
    let img = scene(100, 100, 255, &[]);
    let edges = edges_of(&img);
    assert!(interior_is_blank(&edges));
    let objects = find_highlight_objects(&edges);
    assert!(objects.is_empty());
    assert!(cut_highlights_from_image(objects, img).is_empty());
}

#[test]
fn black_image_has_no_highlights() {
    let img = scene(100, 100, 0, &[]);
    let clamped = smooth_out_polarized_pixels(&img);
    assert!(clamped.pixels.iter().all(|row| row.iter().all(|v| *v == 5)));
    let edges = edges_of(&img);
    assert!(interior_is_blank(&edges));
    assert!(find_highlight_objects(&edges).is_empty());
}

#[test]
fn blank_edge_map_is_cold_and_stable() {
    let blank = GrayImage { width: 100, height: 100, pixels: vec![vec![255; 100]; 100] };
    let (h, max, mean) = heat_map(&blank);
    assert!(h.iter().all(|row| row.iter().all(|v| *v == 0)));
    assert_eq!(stabilize(h.clone(), max, mean), h);
    assert!(find_highlight_objects(&blank).is_empty());
}

#[test]
fn single_square_gives_one_highlight() {
    let img = scene(100, 100, 255, &[(35, 35, 30)]);
    let edges = edges_of(&img);
    assert_eq!(edges.pixels[35][50], 0);
    assert_eq!(edges.pixels[50][50], 255);
    let objects = find_highlight_objects(&edges);
    assert_eq!(objects.len(), 1);
    assert_eq!(cut_highlights_from_image(objects, img).len(), 1);
}

#[test]
fn two_squares_give_two_highlights() {
    let img = scene(200, 100, 255, &[(20, 35, 30), (140, 35, 30)]);
    let objects = find_highlight_objects(&edges_of(&img));
    assert_eq!(objects.len(), 2);
    let rects = crop_rects(objects);
    assert_eq!(rects.len(), 2);
    assert!(rects[0].x + rects[0].width <= 100 && rects[1].x >= 100);
}
