//! Texture coordinates: fixed-point `u, v` pairs attached to a polygon's
//! corners by the asset format.  The pipeline carries them unchanged.

use vstd::prelude::*;

verus! {

/// A fixed-point texture coordinate.
#[derive(Copy, Clone, Debug, Default, PartialEq, Eq, Structural)]
pub struct VecTex {
    pub x: i64,
    pub y: i64,
}

/// The texture coordinates of a triangle's three corners.
#[derive(Copy, Clone, Debug, Default, PartialEq, Eq, Structural)]
pub struct TriangleTex {
    pub a: VecTex,
    pub b: VecTex,
    pub c: VecTex,
}

} // verus!
