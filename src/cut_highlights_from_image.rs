use vstd::prelude::*;

use crate::point::Point;
use crate::visual_object::{bbox_of, VisualObject};

verus! {

#[verifier::external_type_specification]
#[verifier::external_body]
pub struct ExDynamicImage(image::DynamicImage);

/// Half a heat-map cell, in pixels: the step between overlap-map cells.
pub const STEP: u64 = 5;

/// A rectangle of pixels: top left corner and size.
#[derive(Clone, Copy, Debug, PartialEq, Eq, Structural)]
pub struct CropRect {
    pub x: u32,
    pub y: u32,
    pub width: u32,
    pub height: u32,
}

/// A pixel quantity, capped at `u32::MAX` (no image reaches past it).
pub open spec fn capped(v: int) -> u32 {
    if v > u32::MAX {
        u32::MAX
    } else {
        v as u32
    }
}

/// The pixel rectangle around an object whose bounding box, shifted by the
/// object's reference, runs from `lo` to `hi` in heat-map cells: one cell of
/// margin to the top left (none at the image's edge), and one beyond the far corner.
pub open spec fn crop_rect_of(lo: Point, hi: Point) -> CropRect {
    CropRect {
        x: capped((if lo.x >= 1 { lo.x - 1 } else { 0 }) * STEP),
        y: capped((if lo.y >= 1 { lo.y - 1 } else { 0 }) * STEP),
        width: capped((hi.x - lo.x + 2) * STEP),
        height: capped((hi.y - lo.y + 2) * STEP),
    }
}

/// The bounding box of an object shifted into the parent frame.
pub open spec fn placed_bbox(o: VisualObject) -> (Point, Point) {
    let (lo, hi) = bbox_of(o.points@).unwrap();
    (
        Point { x: (lo.x + o.reference.x) as u32, y: (lo.y + o.reference.y) as u32 },
        Point { x: (hi.x + o.reference.x) as u32, y: (hi.y + o.reference.y) as u32 },
    )
}

/// The object has a reference that keeps its bounding box within `u32`.
pub open spec fn placeable(o: VisualObject) -> bool {
    &&& o.wf()
    &&& bbox_of(o.points@) is Some ==> {
        let (lo, hi) = bbox_of(o.points@).unwrap();
        hi.x + o.reference.x <= u32::MAX && hi.y + o.reference.y <= u32::MAX && lo.x <= hi.x && lo.y <= hi.y
    }
}

/// The crop rectangles of the objects that have points, in order.
pub open spec fn crop_rects_of(objs: Seq<VisualObject>) -> Seq<CropRect>
    decreases objs.len(),
{
    if objs.len() == 0 {
        Seq::empty()
    } else {
        let rest = crop_rects_of(objs.drop_last());
        let o = objs.last();
        if o.points@.len() == 0 {
            rest
        } else {
            let (lo, hi) = placed_bbox(o);
            rest.push(crop_rect_of(lo, hi))
        }
    }
}

/// When the far corner of an object lies inside the overlap map of a
/// `width` by `height` image, its crop rectangle lies within the image, unless
/// the object touches the first column (or row) and the far corner is on the
/// last: then the rectangle keeps a full cell of margin past the image's edge.
pub proof fn lemma_crop_within(lo: Point, hi: Point, width: u32, height: u32)
    requires
        lo.x <= hi.x,
        lo.y <= hi.y,
        hi.x < width / 5,
        hi.y < height / 5,
        lo.x >= 1 || hi.x + 1 < width / 5,
        lo.y >= 1 || hi.y + 1 < height / 5,
    ensures
        crop_rect_of(lo, hi).x + crop_rect_of(lo, hi).width <= width,
        crop_rect_of(lo, hi).y + crop_rect_of(lo, hi).height <= height,
{
}

fn saturate(v: u64) -> (r: u32)
    ensures
        r == capped(v as int),
{
    if v > u32::MAX as u64 {
        u32::MAX
    } else {
        v as u32
    }
}

/// The crop rectangle, in pixels, of every object that has points, in order.
pub fn crop_rects(highlights: Vec<VisualObject>) -> (r: Vec<CropRect>)
    requires
        forall|i: int| 0 <= i < highlights@.len() ==> placeable(#[trigger] highlights@[i]),
    ensures
        r@ == crop_rects_of(highlights@),
{
    let ghost objs = highlights@;
    let mut rest = highlights;
    let mut rects: Vec<CropRect> = Vec::new();
    let ghost mut k: int = 0;
    while rest.len() > 0
        invariant
            0 <= k <= objs.len(),
            rest@ == objs.skip(k),
            forall|i: int| 0 <= i < objs.len() ==> placeable(#[trigger] objs[i]),
            rects@ == crop_rects_of(objs.take(k)),
        decreases rest@.len(),
    {
        let mut highlight = rest.remove(0);
        proof {
            assert(highlight == objs[k]);
            assert(rest@ =~= objs.skip(k + 1));
            assert(objs.take(k + 1).drop_last() =~= objs.take(k));
            k = k + 1;
        }
        match highlight.size() {
            None => {},
            Some((lower, higher)) => {
                let lower = lower.add(highlight.reference);
                let higher = higher.add(highlight.reference);
                let lx: u64 = if lower.x >= 1 { lower.x as u64 - 1 } else { 0 };
                let ly: u64 = if lower.y >= 1 { lower.y as u64 - 1 } else { 0 };
                let rect = CropRect {
                    x: saturate(lx * STEP),
                    y: saturate(ly * STEP),
                    width: saturate((higher.x as u64 - lower.x as u64 + 2) * STEP),
                    height: saturate((higher.y as u64 - lower.y as u64 + 2) * STEP),
                };
                rects.push(rect);
            },
        }
    }
    assert(objs.take(k) =~= objs);
    rects
}

/// The image that image's `crop_imm` cuts out of an image for a rectangle.
pub uninterp spec fn crop_of(image: image::DynamicImage, rect: CropRect) -> image::DynamicImage;

/// Relies on image's `DynamicImage::crop_imm`: the part of `image` inside the
/// rectangle, which the crate clamps to the image's bounds; it depends on the
/// image and the rectangle alone.
#[verifier::external_body]
fn crop_image(image: &image::DynamicImage, rect: CropRect) -> (r: image::DynamicImage)
    ensures
        r == crop_of(*image, rect),
{
    image.crop_imm(rect.x, rect.y, rect.width, rect.height)
}

/// Cuts one image out of `image` for every highlight that has points, in order:
/// each crop is the part of `image` inside the rectangle that `crop_rects`
/// gives for its highlight.
pub fn cut_highlights_from_image(highlights: Vec<VisualObject>, image: image::DynamicImage) -> (r: Vec<
    image::DynamicImage,
>)
    requires
        forall|i: int| 0 <= i < highlights@.len() ==> placeable(#[trigger] highlights@[i]),
    ensures
        r@.len() == crop_rects_of(highlights@).len(),
        forall|i: int| 0 <= i < r@.len() ==> #[trigger] r@[i] == crop_of(image, crop_rects_of(highlights@)[i]),
{
    let rects = crop_rects(highlights);
    let mut crops: Vec<image::DynamicImage> = Vec::new();
    let mut i: usize = 0;
    while i < rects.len()
        invariant
            i <= rects.len(),
            crops.len() == i,
            rects@ == crop_rects_of(highlights@),
            forall|j: int| 0 <= j < i ==> #[trigger] crops@[j] == crop_of(image, rects@[j]),
        decreases rects.len() - i,
    {
        crops.push(crop_image(&image, rects[i]));
        i += 1;
    }
    crops
}

} // verus!
