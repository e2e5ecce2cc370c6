//! The camera and rotation data.
//!
//! Angles are carried as fixed-point sine/cosine pairs, so the whole view
//! transform stays inside exact integer arithmetic; whoever drives the
//! camera supplies the pair for each angle.  The camera's field of view
//! enters the pipeline only through the fixed-point tangent of half the
//! field-of-view angle.

use vstd::prelude::*;
use crate::fixed::{fx_mul_s, COORD_MAX, FX_ONE};
use crate::vec3::Vec3;

verus! {

/// An angle, represented by its fixed-point sine and cosine.
#[derive(Copy, Clone, Debug, PartialEq, Eq, Structural)]
pub struct Angle {
    pub sin: i64,
    pub cos: i64,
}

impl Angle {
    /// Sine and cosine of a real angle never exceed one.
    pub open spec fn wf(self) -> bool {
        -FX_ONE <= self.sin <= FX_ONE && -FX_ONE <= self.cos <= FX_ONE
    }

    /// The zero angle, exactly.
    pub fn zero() -> (r: Angle)
        ensures
            r.sin == 0,
            r.cos == FX_ONE,
            r.wf(),
    {
        Angle { sin: 0, cos: FX_ONE }
    }

    /// The opposite angle: the sine flips, the cosine stays.
    pub fn neg(&self) -> (r: Angle)
        requires
            self.wf(),
        ensures
            r.sin == -self.sin,
            r.cos == self.cos,
            r.wf(),
    {
        Angle { sin: -self.sin, cos: self.cos }
    }
}

impl Default for Angle {
    /// The zero angle.
    fn default() -> (r: Angle)
        ensures
            r.sin == 0,
            r.cos == FX_ONE,
            r.wf(),
    {
        Angle { sin: 0, cos: FX_ONE }
    }
}

/// A rotation about the origin: one angle per axis, applied X then Y
/// then Z.
#[derive(Copy, Clone, Debug, PartialEq, Eq, Structural)]
pub struct Rotation {
    pub x: Angle,
    pub y: Angle,
    pub z: Angle,
}

impl Rotation {
    pub open spec fn wf(self) -> bool {
        self.x.wf() && self.y.wf() && self.z.wf()
    }
}

/// The first component of a planar rotation of `(u, v)` by the angle with
/// sine `s` and cosine `c`: `c*u + s*v`, each product floored.
pub open spec fn rot_fst(u: int, v: int, s: int, c: int) -> int {
    fx_mul_s(c, u) + fx_mul_s(s, v)
}

/// The second component of the same planar rotation: `c*v - s*u`.
pub open spec fn rot_snd(u: int, v: int, s: int, c: int) -> int {
    fx_mul_s(c, v) - fx_mul_s(s, u)
}

/// The x coordinate of `(x, y, z)` rotated by `r` (X axis, then Y, then
/// Z).
pub open spec fn rotated_x(x: int, y: int, z: int, r: Rotation) -> int {
    let y1 = rot_fst(y, z, r.x.sin as int, r.x.cos as int);
    let z1 = rot_snd(y, z, r.x.sin as int, r.x.cos as int);
    let x2 = rot_snd(z1, x, r.y.sin as int, r.y.cos as int);
    rot_fst(x2, y1, r.z.sin as int, r.z.cos as int)
}

/// The y coordinate of `(x, y, z)` rotated by `r`.
pub open spec fn rotated_y(x: int, y: int, z: int, r: Rotation) -> int {
    let y1 = rot_fst(y, z, r.x.sin as int, r.x.cos as int);
    let z1 = rot_snd(y, z, r.x.sin as int, r.x.cos as int);
    let x2 = rot_snd(z1, x, r.y.sin as int, r.y.cos as int);
    rot_snd(x2, y1, r.z.sin as int, r.z.cos as int)
}

/// The z coordinate of `(x, y, z)` rotated by `r`.
pub open spec fn rotated_z(x: int, y: int, z: int, r: Rotation) -> int {
    let y1 = rot_fst(y, z, r.x.sin as int, r.x.cos as int);
    let z1 = rot_snd(y, z, r.x.sin as int, r.x.cos as int);
    rot_fst(z1, x, r.y.sin as int, r.y.cos as int)
}

/// The zero rotation moves nothing: with every sine zero and every
/// cosine one, rotating returns each coordinate unchanged.  This is the
/// zero-angle instance of the mesh-spin round trip; a spin by an angle
/// and back drifts by the fixed-point flooring, which only a numeric
/// tolerance can bound.
pub proof fn lemma_rotated_identity(x: int, y: int, z: int, r: Rotation)
    requires
        r.x.sin == 0 && r.x.cos == FX_ONE,
        r.y.sin == 0 && r.y.cos == FX_ONE,
        r.z.sin == 0 && r.z.cos == FX_ONE,
    ensures
        rotated_x(x, y, z, r) == x,
        rotated_y(x, y, z, r) == y,
        rotated_z(x, y, z, r) == z,
{
    crate::fixed::lemma_fx_identity(x);
    crate::fixed::lemma_fx_identity(y);
    crate::fixed::lemma_fx_identity(z);
}

/// A rotation never grows coordinate magnitudes past five times their
/// shared bound.
pub proof fn lemma_rotated_bounded(x: int, y: int, z: int, r: Rotation, m: int)
    requires
        r.wf(),
        0 <= m,
        -m <= x <= m,
        -m <= y <= m,
        -m <= z <= m,
    ensures
        -5 * m <= rotated_x(x, y, z, r) <= 5 * m,
        -5 * m <= rotated_y(x, y, z, r) <= 5 * m,
        -5 * m <= rotated_z(x, y, z, r) <= 5 * m,
{
    crate::fixed::lemma_fx_mul_bound(r.x.cos as int, y, m);
    crate::fixed::lemma_fx_mul_bound(r.x.sin as int, z, m);
    crate::fixed::lemma_fx_mul_bound(r.x.cos as int, z, m);
    crate::fixed::lemma_fx_mul_bound(r.x.sin as int, y, m);
    let y1 = rot_fst(y, z, r.x.sin as int, r.x.cos as int);
    let z1 = rot_snd(y, z, r.x.sin as int, r.x.cos as int);
    crate::fixed::lemma_fx_mul_bound(r.y.cos as int, z1, 2 * m);
    crate::fixed::lemma_fx_mul_bound(r.y.sin as int, x, m);
    crate::fixed::lemma_fx_mul_bound(r.y.cos as int, x, m);
    crate::fixed::lemma_fx_mul_bound(r.y.sin as int, z1, 2 * m);
    let z2 = rot_fst(z1, x, r.y.sin as int, r.y.cos as int);
    let x2 = rot_snd(z1, x, r.y.sin as int, r.y.cos as int);
    crate::fixed::lemma_fx_mul_bound(r.z.cos as int, x2, 3 * m);
    crate::fixed::lemma_fx_mul_bound(r.z.sin as int, y1, 2 * m);
    crate::fixed::lemma_fx_mul_bound(r.z.cos as int, y1, 2 * m);
    crate::fixed::lemma_fx_mul_bound(r.z.sin as int, x2, 3 * m);
}

/// The camera pose: its world position, the fixed-point tangent of half
/// the field-of-view angle, and the pitch and yaw angles.
#[derive(Copy, Clone, Debug, PartialEq, Eq, Structural)]
pub struct Camera {
    pub location: Vec3,
    pub tan_half_fov: i64,
    pub pitch: Angle,
    pub yaw: Angle,
}

impl Camera {
    /// A usable pose: position within the world bound, a positive and
    /// moderate field-of-view tangent, and genuine angles.
    pub open spec fn wf(self) -> bool {
        &&& self.location.bounded(COORD_MAX as int)
        &&& 1 <= self.tan_half_fov <= 0x40000000
        &&& self.pitch.wf()
        &&& self.yaw.wf()
    }
}

impl Default for Camera {
    /// A camera at the origin, looking along positive z, with a ninety
    /// degree field of view (half-angle tangent exactly one).
    fn default() -> (r: Camera)
        ensures
            r.location == (Vec3 { x: 0, y: 0, z: 0 }),
            r.tan_half_fov == FX_ONE,
            r.pitch.sin == 0 && r.pitch.cos == FX_ONE,
            r.yaw.sin == 0 && r.yaw.cos == FX_ONE,
            r.wf(),
    {
        Camera {
            location: Vec3 { x: 0, y: 0, z: 0 },
            tan_half_fov: FX_ONE,
            pitch: Angle { sin: 0, cos: FX_ONE },
            yaw: Angle { sin: 0, cos: FX_ONE },
        }
    }
}

} // verus!
