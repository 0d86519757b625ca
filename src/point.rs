use vstd::prelude::*;

verus! {

/// An unsigned two-dimensional coordinate.
#[derive(Clone, Copy, Debug, PartialEq, Eq, Structural)]
pub struct Point {
    pub x: u32,
    pub y: u32,
}

impl Point {
    pub fn new(x: u32, y: u32) -> (r: Point)
        ensures
            r.x == x,
            r.y == y,
    {
        Point { x, y }
    }

    /// Component-wise sum of two points.
    pub fn add(self, other: Point) -> (r: Point)
        requires
            self.x + other.x <= u32::MAX,
            self.y + other.y <= u32::MAX,
        ensures
            r.x == self.x + other.x,
            r.y == self.y + other.y,
    {
        Point { x: self.x + other.x, y: self.y + other.y }
    }
}

} // verus!
