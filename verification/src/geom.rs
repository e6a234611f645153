//! Integer screen geometry: points and axis-aligned rectangles.
//!
//! All coordinates are whole pixels. A rectangle covers the half-open
//! ranges `[x, x + w)` horizontally and `[y, y + h)` vertically, so two
//! rectangles that share an edge do not overlap.

use vstd::prelude::*;

verus! {

/// A point in global or window-local screen coordinates.
#[derive(Clone, Copy, Debug, PartialEq, Eq, Structural)]
pub struct Point {
    pub x: i32,
    pub y: i32,
}

/// An axis-aligned rectangle with non-negative extent.
#[derive(Clone, Copy, Debug, PartialEq, Eq, Structural)]
pub struct Rect {
    pub x: i32,
    pub y: i32,
    pub w: i32,
    pub h: i32,
}

impl Rect {
    /// Well-formed: the extent is non-negative and the far corner still
    /// fits in coordinate range, so interior arithmetic cannot overflow.
    pub open spec fn wf(self) -> bool {
        &&& 0 <= self.w
        &&& 0 <= self.h
        &&& self.x + self.w <= i32::MAX
        &&& self.y + self.h <= i32::MAX
    }

    /// Membership in the half-open pixel ranges of the rectangle.
    pub open spec fn spec_contains(self, p: Point) -> bool {
        &&& self.x <= p.x < self.x + self.w
        &&& self.y <= p.y < self.y + self.h
    }

    pub open spec fn spec_center(self) -> Point {
        Point { x: (self.x + self.w / 2) as i32, y: (self.y + self.h / 2) as i32 }
    }

    /// This rectangle lies entirely inside `outer`.
    pub open spec fn spec_within(self, outer: Rect) -> bool {
        &&& outer.x <= self.x
        &&& self.x + self.w <= outer.x + outer.w
        &&& outer.y <= self.y
        &&& self.y + self.h <= outer.y + outer.h
    }

    /// The midpoint of the rectangle, rounded toward the low corner.
    pub fn center(&self) -> (p: Point)
        requires
            self.wf(),
        ensures
            p == self.spec_center(),
    {
        Point { x: self.x + self.w / 2, y: self.y + self.h / 2 }
    }
}

} // verus!
