//! A software 3D rendering pipeline over fixed-point arithmetic: meshes of
//! triangles are culled, clipped against the camera's near plane, projected,
//! clipped against the screen borders, and scan-converted into a colour
//! buffer with a per-pixel depth test.

pub mod fixed;
pub mod vec3;
pub mod screen;
pub mod tex;
pub mod clip;
pub mod clip3;
pub mod raster;
pub mod camera;
pub mod mesh;
pub mod renderer;
pub mod obj;
