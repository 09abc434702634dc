use vstd::prelude::*;

verus! {

/// A point on screen, in whole layout units.
#[derive(Clone, Copy, Debug, PartialEq, Eq, Structural)]
pub struct Pos2 {
    pub x: i32,
    pub y: i32,
}

/// An axis-aligned rectangle given by its top-left corner and its extent.
/// Both edges are part of the rectangle.
#[derive(Clone, Copy, Debug, PartialEq, Eq, Structural)]
pub struct Rect {
    pub min: Pos2,
    pub width: u32,
    pub height: u32,
}

impl Pos2 {
    pub fn new(x: i32, y: i32) -> (r: Pos2)
        ensures
            r.x == x,
            r.y == y,
    {
        Pos2 { x, y }
    }
}

impl Rect {
    pub open spec fn spec_contains(self, p: Pos2) -> bool {
        &&& self.min.x <= p.x <= self.min.x + self.width
        &&& self.min.y <= p.y <= self.min.y + self.height
    }

    pub fn from_min_size(min: Pos2, width: u32, height: u32) -> (r: Rect)
        ensures
            r.min == min,
            r.width == width,
            r.height == height,
    {
        Rect { min, width, height }
    }

    /// Whether `p` lies inside the rectangle or on its border.
    pub fn contains(&self, p: Pos2) -> (r: bool)
        ensures
            r == self.spec_contains(p),
    {
        let px = p.x as i64;
        let py = p.y as i64;
        let x0 = self.min.x as i64;
        let y0 = self.min.y as i64;
        x0 <= px && px <= x0 + self.width as i64 && y0 <= py && py <= y0 + self.height as i64
    }

    /// The same extent with its top-left corner at `min`.
    pub fn moved_to(&self, min: Pos2) -> (r: Rect)
        ensures
            r.min == min,
            r.width == self.width,
            r.height == self.height,
    {
        Rect { min, width: self.width, height: self.height }
    }
}

} // verus!
