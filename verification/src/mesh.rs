//! Meshes: lists of coloured polygons, each one triangle with optional
//! texture coordinates, plus an optional texture image.

use vstd::prelude::*;
use crate::tex::TriangleTex;
use crate::vec3::Triangle;

verus! {

/// One face of a mesh: a triangle, its packed 0RGB colour, whether it is
/// drawn filled or as wireframe, and its texture coordinates.
#[derive(Copy, Clone, Debug, Default, PartialEq, Eq, Structural)]
pub struct Polygon {
    pub triangle: Triangle,
    pub triangle_tex: TriangleTex,
    pub color: u32,
    pub fill: bool,
}

/// An ordered collection of polygons with an optional texture image.  An
/// empty mesh is legal and renders to nothing.
#[derive(Clone, Debug, Default)]
pub struct Mesh {
    pub polygon_list: Vec<Polygon>,
    pub texture: Option<Vec<u32>>,
}

impl Mesh {
    /// Every vertex coordinate of every polygon lies within `[-m, m]`.
    pub open spec fn bounded(self, m: int) -> bool {
        forall|i: int|
            0 <= i < self.polygon_list.len() ==> {
                &&& (#[trigger] self.polygon_list[i]).triangle.a.bounded(m)
                &&& self.polygon_list[i].triangle.b.bounded(m)
                &&& self.polygon_list[i].triangle.c.bounded(m)
            }
    }
}

} // verus!
