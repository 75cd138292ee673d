//! Plain-value geometry for the drawable surface: points, pixels and
//! axis-aligned rectangles, with containment and intersection.
//!
//! Coordinates are signed so callers can name positions outside the panel;
//! the driver clips such requests rather than rejecting them.
use vstd::prelude::*;

verus! {

/// A point on the drawable plane.
#[derive(Clone, Copy, Debug, PartialEq, Eq, Structural)]
pub struct Point {
    pub x: i32,
    pub y: i32,
}

/// One draw request: a point and the raw RGB565 color to put there.
#[derive(Clone, Copy, Debug, PartialEq, Eq, Structural)]
pub struct Pixel {
    pub point: Point,
    pub color: u16,
}

/// An axis-aligned rectangle: its top-left corner and its size in pixels.
#[derive(Clone, Copy, Debug, PartialEq, Eq, Structural)]
pub struct Rectangle {
    pub x: i32,
    pub y: i32,
    pub width: u32,
    pub height: u32,
}

impl Rectangle {
    /// The first column to the right of the rectangle.
    pub open spec fn right(self) -> int {
        self.x + self.width
    }

    /// The first row below the rectangle.
    pub open spec fn bottom(self) -> int {
        self.y + self.height
    }

    /// A rectangle with no points.
    pub open spec fn is_empty(self) -> bool {
        self.width == 0 || self.height == 0
    }

    /// How many points the rectangle holds.
    pub open spec fn point_count(self) -> int {
        self.width * self.height
    }

    /// Whether the point at (px, py) lies inside the rectangle.
    pub open spec fn spec_contains(self, px: int, py: int) -> bool {
        self.x <= px < self.right() && self.y <= py < self.bottom()
    }

    /// Whether the point lies inside the rectangle.
    pub fn contains(&self, p: Point) -> (r: bool)
        ensures
            r == self.spec_contains(p.x as int, p.y as int),
    {
        (self.x as i64) <= (p.x as i64) && (p.x as i64) < (self.x as i64) + (self.width as i64)
            && (self.y as i64) <= (p.y as i64)
            && (p.y as i64) < (self.y as i64) + (self.height as i64)
    }

    /// The overlap of two rectangles, or the zero rectangle at the origin
    /// when they have none.
    pub open spec fn spec_intersection(self, other: Rectangle) -> Rectangle {
        let x0 = if self.x >= other.x {
            self.x
        } else {
            other.x
        };
        let y0 = if self.y >= other.y {
            self.y
        } else {
            other.y
        };
        let x1 = if self.right() <= other.right() {
            self.right()
        } else {
            other.right()
        };
        let y1 = if self.bottom() <= other.bottom() {
            self.bottom()
        } else {
            other.bottom()
        };
        if x0 < x1 && y0 < y1 {
            Rectangle { x: x0, y: y0, width: (x1 - x0) as u32, height: (y1 - y0) as u32 }
        } else {
            Rectangle { x: 0, y: 0, width: 0, height: 0 }
        }
    }

    /// The overlap of two rectangles, or the zero rectangle at the origin
    /// when they have none.
    pub fn intersection(&self, other: &Rectangle) -> (r: Rectangle)
        ensures
            r == self.spec_intersection(*other),
    {
        let ax1 = (self.x as i64) + (self.width as i64);
        let bx1 = (other.x as i64) + (other.width as i64);
        let ay1 = (self.y as i64) + (self.height as i64);
        let by1 = (other.y as i64) + (other.height as i64);
        let x0: i64 = if self.x >= other.x {
            self.x as i64
        } else {
            other.x as i64
        };
        let y0: i64 = if self.y >= other.y {
            self.y as i64
        } else {
            other.y as i64
        };
        let x1: i64 = if ax1 <= bx1 {
            ax1
        } else {
            bx1
        };
        let y1: i64 = if ay1 <= by1 {
            ay1
        } else {
            by1
        };
        if x0 < x1 && y0 < y1 {
            Rectangle {
                x: x0 as i32,
                y: y0 as i32,
                width: (x1 - x0) as u32,
                height: (y1 - y0) as u32,
            }
        } else {
            Rectangle { x: 0, y: 0, width: 0, height: 0 }
        }
    }
}

/// A nonempty `inner` lies wholly within `outer`.
pub open spec fn contained_in(inner: Rectangle, outer: Rectangle) -> bool {
    outer.x <= inner.x && inner.right() <= outer.right() && outer.y <= inner.y
        && inner.bottom() <= outer.bottom()
}

/// A nonempty intersection lies within both rectangles.
pub proof fn lemma_intersection_contained(a: Rectangle, b: Rectangle)
    ensures
        !a.spec_intersection(b).is_empty() ==> contained_in(a.spec_intersection(b), a)
            && contained_in(a.spec_intersection(b), b),
{
}

} // verus!
