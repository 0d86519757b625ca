use vstd::prelude::*;

use crate::gray_image::GrayImage;

verus! {

/// Pixels darker than this are raised to it.
pub const DARKEST_GREYSCALE_VALUE: u8 = 5;

/// Pixels brighter than this are lowered to it.
pub const BRIGHTEST_GREYSCALE_VALUE: u8 = 250;

/// A luminance value moved into `[DARKEST_GREYSCALE_VALUE, BRIGHTEST_GREYSCALE_VALUE]`.
pub open spec fn clamp_value(v: u8) -> u8 {
    if v < DARKEST_GREYSCALE_VALUE {
        DARKEST_GREYSCALE_VALUE
    } else if v > BRIGHTEST_GREYSCALE_VALUE {
        BRIGHTEST_GREYSCALE_VALUE
    } else {
        v
    }
}

/// Clamps each pixel into `[DARKEST_GREYSCALE_VALUE, BRIGHTEST_GREYSCALE_VALUE]`,
/// point by point, so that the edge filters do not see saturated regions.
pub fn clamp_pixels(image: &GrayImage) -> (r: GrayImage)
    requires
        image.wf(),
    ensures
        r.wf(),
        r.width == image.width,
        r.height == image.height,
        forall|y: int, x: int|
            0 <= y < r.height && 0 <= x < r.width ==> #[trigger] r.view_rows()[y][x] == clamp_value(
                image.view_rows()[y][x],
            ),
        forall|y: int, x: int|
            0 <= y < r.height && 0 <= x < r.width ==> DARKEST_GREYSCALE_VALUE <= #[trigger] r.view_rows()[y][x]
                <= BRIGHTEST_GREYSCALE_VALUE,
{
    let mut pixels: Vec<Vec<u8>> = Vec::new();
    let mut y: u32 = 0;
    while y < image.height
        invariant
            image.wf(),
            y <= image.height,
            pixels.len() == y,
            forall|j: int| 0 <= j < y ==> (#[trigger] pixels@[j])@.len() == image.width,
            forall|j: int, x: int|
                0 <= j < y && 0 <= x < image.width ==> #[trigger] pixels@[j]@[x] == clamp_value(
                    image.view_rows()[j][x],
                ),
        decreases image.height - y,
    {
        let mut row: Vec<u8> = Vec::new();
        let mut x: u32 = 0;
        while x < image.width
            invariant
                image.wf(),
                y < image.height,
                x <= image.width,
                row.len() == x,
                forall|i: int| 0 <= i < x ==> #[trigger] row@[i] == clamp_value(image.view_rows()[y as int][i]),
            decreases image.width - x,
        {
            let v = image.get_pixel(x, y);
            let c: u8 = if v < DARKEST_GREYSCALE_VALUE {
                DARKEST_GREYSCALE_VALUE
            } else if v > BRIGHTEST_GREYSCALE_VALUE {
                BRIGHTEST_GREYSCALE_VALUE
            } else {
                v
            };
            row.push(c);
            x += 1;
        }
        pixels.push(row);
        y += 1;
    }
    let r = GrayImage { width: image.width, height: image.height, pixels };
    assert forall|y: int, x: int| 0 <= y < r.height && 0 <= x < r.width implies #[trigger] r.view_rows()[y][x]
        == clamp_value(image.view_rows()[y][x]) by {
        assert(r.view_rows()[y] == r.pixels@[y]@);
    }
    r
}

/// The luminance rows that image's `grayscale` and `to_luma8` give for an image.
pub uninterp spec fn gray_of(image: image::DynamicImage) -> Seq<Seq<u8>>;

/// Relies on image's `DynamicImage::grayscale` and `to_luma8`: the luminance of
/// each pixel, read by index as `height` rows of `width` bytes.
#[verifier::external_body]
fn to_gray(image: &image::DynamicImage) -> (r: GrayImage)
    ensures
        r.wf(),
        r.view_rows() == gray_of(*image),
{
    let luma = image.grayscale().to_luma8();
    let (width, height) = luma.dimensions();
    let pixels: Vec<Vec<u8>> = (0..height).map(|y| (0..width).map(|x| luma.get_pixel(x, y).0[0]).collect()).collect();
    GrayImage { width, height, pixels }
}

/// Converts the image to grayscale and removes pixels that are too dark or too
/// bright: each pixel of the result is the clamped luminance of the image.
pub fn smooth_out_polarized_pixels(image: &image::DynamicImage) -> (r: GrayImage)
    ensures
        r.wf(),
        r.height == gray_of(*image).len(),
        r.height > 0 ==> r.width == gray_of(*image)[0].len(),
        r.view_rows() == gray_of(*image).map_values(|row: Seq<u8>| row.map_values(|v: u8| clamp_value(v))),
        forall|y: int, x: int|
            0 <= y < r.height && 0 <= x < r.width ==> DARKEST_GREYSCALE_VALUE <= #[trigger] r.view_rows()[y][x]
                <= BRIGHTEST_GREYSCALE_VALUE,
{
    let gray = to_gray(image);
    let r = clamp_pixels(&gray);
    proof {
        let g = gray_of(*image);
        let want = g.map_values(|row: Seq<u8>| row.map_values(|v: u8| clamp_value(v)));
        assert forall|y: int| 0 <= y < r.height implies #[trigger] r.view_rows()[y] == want[y] by {
            assert(r.view_rows()[y] == r.pixels@[y]@);
            assert(gray.view_rows()[y] == gray.pixels@[y]@);
            assert(r.view_rows()[y] =~= want[y]);
        }
        assert(r.view_rows() =~= want);
    }
    r
}

/// Largest of the first `n` detectors' values at `(x, y)`, starting from 1.
pub open spec fn detectors_max(ds: Seq<GrayImage>, x: int, y: int, n: nat) -> u8
    decreases n,
{
    if n == 0 {
        1
    } else {
        let m = detectors_max(ds, x, y, (n - 1) as nat);
        let v = ds[n - 1].view_rows()[y][x];
        if v > m {
            v
        } else {
            m
        }
    }
}

/// Smallest of the first `n` detectors' values at `(x, y)`, starting from 1.
pub open spec fn detectors_min(ds: Seq<GrayImage>, x: int, y: int, n: nat) -> u8
    decreases n,
{
    if n == 0 {
        1
    } else {
        let m = detectors_min(ds, x, y, (n - 1) as nat);
        let v = ds[n - 1].view_rows()[y][x];
        if v < m {
            v
        } else {
            m
        }
    }
}

/// A pixel is an edge (0) where some detector saturates at 255 or at 0, else 255.
pub open spec fn edge_value(ds: Seq<GrayImage>, x: int, y: int) -> u8 {
    if detectors_max(ds, x, y, ds.len()) == 255 || detectors_min(ds, x, y, ds.len()) == 0 {
        0
    } else {
        255
    }
}

/// All detector images are well formed and share the first one's dimensions.
pub open spec fn same_shape(ds: Seq<GrayImage>) -> bool {
    &&& ds.len() >= 1
    &&& forall|k: int|
        0 <= k < ds.len() ==> (#[trigger] ds[k]).wf() && ds[k].width == ds[0].width && ds[k].height
            == ds[0].height
}

/// Merges the responses of the oriented edge filters into a binary edge image:
/// 0 marks an edge pixel, 255 anything else.
pub fn find_edges(detectors: &Vec<GrayImage>) -> (r: GrayImage)
    requires
        same_shape(detectors@),
    ensures
        r.wf(),
        r.width == detectors@[0].width,
        r.height == detectors@[0].height,
        forall|y: int, x: int|
            0 <= y < r.height && 0 <= x < r.width ==> #[trigger] r.view_rows()[y][x] == edge_value(
                detectors@,
                x,
                y,
            ),
        forall|y: int, x: int|
            0 <= y < r.height && 0 <= x < r.width ==> (#[trigger] r.view_rows()[y][x] == 0 || r.view_rows()[y][x]
                == 255),
{
    let (width, height) = detectors[0].dimensions();
    let ghost ds = detectors@;
    let mut pixels: Vec<Vec<u8>> = Vec::new();
    let mut y: u32 = 0;
    while y < height
        invariant
            ds == detectors@,
            same_shape(ds),
            width == ds[0].width,
            height == ds[0].height,
            y <= height,
            pixels.len() == y,
            forall|j: int| 0 <= j < y ==> (#[trigger] pixels@[j])@.len() == width,
            forall|j: int, x: int| 0 <= j < y && 0 <= x < width ==> #[trigger] pixels@[j]@[x] == edge_value(ds, x, j),
        decreases height - y,
    {
        let mut row: Vec<u8> = Vec::new();
        let mut x: u32 = 0;
        while x < width
            invariant
                ds == detectors@,
                same_shape(ds),
                width == ds[0].width,
                height == ds[0].height,
                y < height,
                x <= width,
                row.len() == x,
                forall|i: int| 0 <= i < x ==> #[trigger] row@[i] == edge_value(ds, i, y as int),
            decreases width - x,
        {
            let mut max: u8 = 1;
            let mut min: u8 = 1;
            let mut k: usize = 0;
            while k < detectors.len()
                invariant
                    ds == detectors@,
                    same_shape(ds),
                    width == ds[0].width,
                    height == ds[0].height,
                    y < height,
                    x < width,
                    k <= ds.len(),
                    max == detectors_max(ds, x as int, y as int, k as nat),
                    min == detectors_min(ds, x as int, y as int, k as nat),
                decreases ds.len() - k,
            {
                assert(ds[k as int].wf());
                let v = detectors[k].get_pixel(x, y);
                if v > max {
                    max = v;
                }
                if v < min {
                    min = v;
                }
                k += 1;
            }
            let e: u8 = if max == 255 || min == 0 {
                0
            } else {
                255
            };
            row.push(e);
            x += 1;
        }
        pixels.push(row);
        y += 1;
    }
    let r = GrayImage { width, height, pixels };
    assert forall|y: int, x: int| 0 <= y < r.height && 0 <= x < r.width implies #[trigger] r.view_rows()[y][x]
        == edge_value(ds, x, y) by {
        assert(r.view_rows()[y] == r.pixels@[y]@);
    }
    r
}

} // verus!
