use vstd::prelude::*;

verus! {

/// A grid of single-byte luminance values, held row by row.
pub struct GrayImage {
    pub width: u32,
    pub height: u32,
    /// `pixels[y][x]` is the luminance at column `x` of row `y`.
    pub pixels: Vec<Vec<u8>>,
}

impl GrayImage {
    /// The rows match the stated dimensions.
    pub open spec fn wf(&self) -> bool {
        &&& self.pixels@.len() == self.height
        &&& forall|y: int| 0 <= y < self.height ==> (#[trigger] self.pixels@[y])@.len() == self.width
    }

    /// The pixel rows as a sequence of sequences.
    pub open spec fn view_rows(&self) -> Seq<Seq<u8>> {
        self.pixels@.map_values(|row: Vec<u8>| row@)
    }

    /// An image of the given size with every pixel set to `value`.
    pub fn new(width: u32, height: u32, value: u8) -> (r: GrayImage)
        ensures
            r.wf(),
            r.width == width,
            r.height == height,
            forall|y: int, x: int| 0 <= y < height && 0 <= x < width ==> #[trigger] r.view_rows()[y][x] == value,
    {
        let mut pixels: Vec<Vec<u8>> = Vec::new();
        let mut y: u32 = 0;
        while y < height
            invariant
                y <= height,
                pixels.len() == y,
                forall|j: int| 0 <= j < y ==> (#[trigger] pixels@[j])@.len() == width,
                forall|j: int, x: int| 0 <= j < y && 0 <= x < width ==> #[trigger] pixels@[j]@[x] == value,
            decreases height - y,
        {
            let mut row: Vec<u8> = Vec::new();
            let mut x: u32 = 0;
            while x < width
                invariant
                    x <= width,
                    row.len() == x,
                    forall|i: int| 0 <= i < x ==> #[trigger] row@[i] == value,
                decreases width - x,
            {
                row.push(value);
                x += 1;
            }
            pixels.push(row);
            y += 1;
        }
        GrayImage { width, height, pixels }
    }

    /// Width and height.
    pub fn dimensions(&self) -> (r: (u32, u32))
        ensures
            r == (self.width, self.height),
    {
        (self.width, self.height)
    }

    /// The luminance at column `x` of row `y`.
    pub fn get_pixel(&self, x: u32, y: u32) -> (r: u8)
        requires
            self.wf(),
            x < self.width,
            y < self.height,
        ensures
            r == self.view_rows()[y as int][x as int],
    {
        self.pixels[y as usize][x as usize]
    }
}

} // verus!
