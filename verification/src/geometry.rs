//! Points, directions and axis-aligned rectangles on the integer grid.

use vstd::prelude::*;
use crate::units::{sign, sign_i64};

verus! {

/// A pair of integers: a position in sub-pixel units, or a direction in
/// millionths.
#[derive(Clone, Copy, Debug, PartialEq, Eq, Structural)]
pub struct Vec2 {
    pub x: i32,
    pub y: i32,
}

/// An axis-aligned rectangle given by its top-left corner and its size, in
/// sub-pixel units. The y axis points down.
#[derive(Clone, Copy, Debug, PartialEq, Eq, Structural)]
pub struct Rect {
    /// The x coordinate of the left edge.
    pub x: i32,
    /// The y coordinate of the top edge.
    pub y: i32,
    /// The width.
    pub w: i32,
    /// The height.
    pub h: i32,
}

/// The smaller of two integers.
pub open spec fn lesser(a: int, b: int) -> int {
    if a <= b {
        a
    } else {
        b
    }
}

/// The larger of two integers.
pub open spec fn greater(a: int, b: int) -> int {
    if a >= b {
        a
    } else {
        b
    }
}

impl Vec2 {
    /// The vector with the given components.
    pub fn new(x: i32, y: i32) -> (v: Vec2)
        ensures
            v == (Vec2 { x, y }),
    {
        Vec2 { x, y }
    }
}

impl Rect {
    /// The x coordinate of the right edge.
    pub open spec fn right(self) -> int {
        self.x + self.w
    }

    /// The y coordinate of the bottom edge.
    pub open spec fn bottom(self) -> int {
        self.y + self.h
    }

    /// The left edge of the region common to `self` and `other`.
    pub open spec fn common_left(self, other: Rect) -> int {
        greater(self.x as int, other.x as int)
    }

    /// The top edge of the region common to `self` and `other`.
    pub open spec fn common_top(self, other: Rect) -> int {
        greater(self.y as int, other.y as int)
    }

    /// The right edge of the region common to `self` and `other`.
    pub open spec fn common_right(self, other: Rect) -> int {
        lesser(self.right(), other.right())
    }

    /// The bottom edge of the region common to `self` and `other`.
    pub open spec fn common_bottom(self, other: Rect) -> int {
        lesser(self.bottom(), other.bottom())
    }

    /// Whether the two rectangles share at least a point. Rectangles that only
    /// touch along an edge or at a corner do overlap, in a region of zero
    /// width or height.
    pub open spec fn overlaps(self, other: Rect) -> bool {
        self.common_left(other) <= self.common_right(other) && self.common_top(other)
            <= self.common_bottom(other)
    }

    /// The region common to two overlapping rectangles.
    pub open spec fn overlap(self, other: Rect) -> Rect
        recommends
            self.overlaps(other),
    {
        Rect {
            x: self.common_left(other) as i32,
            y: self.common_top(other) as i32,
            w: (self.common_right(other) - self.common_left(other)) as i32,
            h: (self.common_bottom(other) - self.common_top(other)) as i32,
        }
    }

    /// Twice the x coordinate of the centre; doubling keeps it whole.
    pub open spec fn center_x2(self) -> int {
        2 * self.x + self.w
    }

    /// Twice the y coordinate of the centre; doubling keeps it whole.
    pub open spec fn center_y2(self) -> int {
        2 * self.y + self.h
    }

    /// On each axis, the sign of the step from the centre of `self` to the
    /// centre of `other`: zero where the centres are level.
    pub open spec fn facing(self, other: Rect) -> Vec2 {
        Vec2 {
            x: sign(other.center_x2() - self.center_x2()) as i32,
            y: sign(other.center_y2() - self.center_y2()) as i32,
        }
    }

    /// The rectangle with the given corner and size.
    pub fn new(x: i32, y: i32, w: i32, h: i32) -> (r: Rect)
        ensures
            r == (Rect { x, y, w, h }),
    {
        Rect { x, y, w, h }
    }

    /// The region common to the two rectangles, if they overlap.
    pub fn intersect(&self, other: &Rect) -> (r: Option<Rect>)
        ensures
            r == if self.overlaps(*other) {
                Some(self.overlap(*other))
            } else {
                None
            },
            r matches Some(o) ==> {
                &&& o.x == self.common_left(*other)
                &&& o.y == self.common_top(*other)
                &&& o.w == self.common_right(*other) - self.common_left(*other)
                &&& o.h == self.common_bottom(*other) - self.common_top(*other)
                &&& 0 <= o.w <= self.w
                &&& 0 <= o.h <= self.h
            },
    {
        let left: i64 = if self.x >= other.x {
            self.x as i64
        } else {
            other.x as i64
        };
        let top: i64 = if self.y >= other.y {
            self.y as i64
        } else {
            other.y as i64
        };
        let self_right: i64 = self.x as i64 + self.w as i64;
        let other_right: i64 = other.x as i64 + other.w as i64;
        let right: i64 = if self_right <= other_right {
            self_right
        } else {
            other_right
        };
        let self_bottom: i64 = self.y as i64 + self.h as i64;
        let other_bottom: i64 = other.y as i64 + other.h as i64;
        let bottom: i64 = if self_bottom <= other_bottom {
            self_bottom
        } else {
            other_bottom
        };
        if right < left || bottom < top {
            None
        } else {
            Some(Rect { x: left as i32, y: top as i32, w: (right - left) as i32, h: (bottom - top) as i32 })
        }
    }

    /// Computes [`Rect::facing`].
    pub fn direction_to(&self, other: &Rect) -> (s: Vec2)
        ensures
            s == self.facing(*other),
    {
        let dx: i64 = (2 * (other.x as i64) + other.w as i64) - (2 * (self.x as i64) + self.w as i64);
        let dy: i64 = (2 * (other.y as i64) + other.h as i64) - (2 * (self.y as i64) + self.h as i64);
        Vec2 { x: sign_i64(dx), y: sign_i64(dy) }
    }
}

} // verus!
