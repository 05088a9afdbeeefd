//! Axis-aligned rectangles, used as rooms during generation.
use vstd::prelude::*;

verus! {

/// A rectangle with corners `(x1, y1)` and `(x2, y2)`, where
/// `x2 = x1 + width` and `y2 = y1 + height`.
#[derive(Clone, Copy, Debug)]
pub struct Rect {
    pub x1: i32,
    pub x2: i32,
    pub y1: i32,
    pub y2: i32,
}

impl Rect {
    /// The overlap test used to accept or reject candidate rooms. Bounds are
    /// inclusive, so rectangles that merely touch at an edge count as
    /// intersecting.
    pub open spec fn intersects(self, other: Rect) -> bool {
        self.x1 <= other.x2 && self.x2 >= other.x1 && self.y1 <= other.y2 && self.y2 >= other.y1
    }

    /// Mathematical center of the rectangle, rounded down.
    pub open spec fn center_spec(self) -> (int, int) {
        ((self.x1 + self.x2) / 2, (self.y1 + self.y2) / 2)
    }

    pub fn new(x: i32, y: i32, w: i32, h: i32) -> (r: Rect)
        requires
            i32::MIN <= x + w <= i32::MAX,
            i32::MIN <= y + h <= i32::MAX,
        ensures
            r.x1 == x,
            r.y1 == y,
            r.x2 == x + w,
            r.y2 == y + h,
    {
        Rect { x1: x, x2: x + w, y1: y, y2: y + h }
    }

    pub fn center(&self) -> (c: (i32, i32))
        requires
            0 <= self.x1 <= self.x2 <= 0x3fffffff,
            0 <= self.y1 <= self.y2 <= 0x3fffffff,
        ensures
            (c.0 as int, c.1 as int) == self.center_spec(),
    {
        let center_x = (self.x1 + self.x2) / 2;
        let center_y = (self.y1 + self.y2) / 2;
        (center_x, center_y)
    }

    pub fn intersects_with(&self, other: &Rect) -> (r: bool)
        ensures
            r == self.intersects(*other),
    {
        (self.x1 <= other.x2) && (self.x2 >= other.x1) && (self.y1 <= other.y2) && (self.y2
            >= other.y1)
    }
}

} // verus!
