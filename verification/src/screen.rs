//! Screen-space vectors and triangles.
//!
//! A `VecScreen` is a pixel location: integer `x`, `y` (positive `y` is
//! down) and a fixed-point `depth`, the camera-space distance carried
//! through projection for the depth test (smaller is nearer).

use vstd::prelude::*;
use crate::fixed::{clamp, clamp_s, isqrt};

verus! {

/// A projected point: pixel column, pixel row, and carried depth.
#[derive(Copy, Clone, Debug, Default, PartialEq, Eq, Structural)]
pub struct VecScreen {
    pub x: i64,
    pub y: i64,
    pub depth: i64,
}

/// A screen-space triangle.
#[derive(Copy, Clone, Debug, Default, PartialEq, Eq, Structural)]
pub struct TriangleScreen {
    pub a: VecScreen,
    pub b: VecScreen,
    pub c: VecScreen,
}

impl VecScreen {
    /// Both pixel coordinates lie within `[-sm, sm]` and the depth within
    /// `[-dm, dm]`.
    pub open spec fn bounded(self, sm: int, dm: int) -> bool {
        -sm <= self.x <= sm && -sm <= self.y <= sm && -dm <= self.depth <= dm
    }

    pub fn add(&self, v: &VecScreen) -> (r: VecScreen)
        requires
            i64::MIN <= self.x + v.x <= i64::MAX,
            i64::MIN <= self.y + v.y <= i64::MAX,
            i64::MIN <= self.depth + v.depth <= i64::MAX,
        ensures
            r.x == self.x + v.x,
            r.y == self.y + v.y,
            r.depth == self.depth + v.depth,
    {
        VecScreen { x: self.x + v.x, y: self.y + v.y, depth: self.depth + v.depth }
    }

    pub fn sub(&self, v: &VecScreen) -> (r: VecScreen)
        requires
            i64::MIN <= self.x - v.x <= i64::MAX,
            i64::MIN <= self.y - v.y <= i64::MAX,
            i64::MIN <= self.depth - v.depth <= i64::MAX,
        ensures
            r.x == self.x - v.x,
            r.y == self.y - v.y,
            r.depth == self.depth - v.depth,
    {
        VecScreen { x: self.x - v.x, y: self.y - v.y, depth: self.depth - v.depth }
    }

    /// The planar dot product over `x` and `y`; the depth takes no part.
    pub fn dot(&self, v: &VecScreen) -> (r: i64)
        requires
            i64::MIN <= self.x * v.x <= i64::MAX,
            i64::MIN <= self.y * v.y <= i64::MAX,
            i64::MIN <= self.x * v.x + self.y * v.y <= i64::MAX,
        ensures
            r == self.x * v.x + self.y * v.y,
    {
        self.x * v.x + self.y * v.y
    }

    /// The planar length: the floored square root of `x*x + y*y`.
    pub fn length(&self) -> (r: i64)
        requires
            -0x7ffffffffffffff <= self.x <= 0x7ffffffffffffff,
            -0x7ffffffffffffff <= self.y <= 0x7ffffffffffffff,
        ensures
            0 <= r,
            r * r <= self.x * self.x + self.y * self.y < (r + 1) * (r + 1),
    {
        proof {
            assert(0 <= self.x * self.x <= 0x400000000000000000000000000000 && 0 <= self.y * self.y
                <= 0x400000000000000000000000000000) by (nonlinear_arith)
                requires
                    -0x7ffffffffffffff <= self.x <= 0x7ffffffffffffff,
                    -0x7ffffffffffffff <= self.y <= 0x7ffffffffffffff,
            ;
        }
        let n: i128 = (self.x as i128) * (self.x as i128) + (self.y as i128) * (self.y as i128);
        let r: i128 = isqrt(n);
        proof {
            assert(r < 0x1000000000000000) by (nonlinear_arith)
                requires
                    0 <= r,
                    r * r <= n,
                    n < 0x1000000000000000000000000000000,
            ;
        }
        r as i64
    }

    /// Clamps the pixel coordinates into `[0, width] x [0, height]`,
    /// leaving the depth untouched.
    pub fn clamp_screen(&self, width: i64, height: i64) -> (r: VecScreen)
        requires
            0 <= width,
            0 <= height,
        ensures
            r.x == clamp_s(0, self.x as int, width as int),
            r.y == clamp_s(0, self.y as int, height as int),
            r.depth == self.depth,
    {
        VecScreen {
            x: clamp(0, self.x, width),
            y: clamp(0, self.y, height),
            depth: self.depth,
        }
    }
}

impl TriangleScreen {
    /// All three corners bounded as in `VecScreen::bounded`.
    pub open spec fn bounded(self, sm: int, dm: int) -> bool {
        self.a.bounded(sm, dm) && self.b.bounded(sm, dm) && self.c.bounded(sm, dm)
    }
}

} // verus!
