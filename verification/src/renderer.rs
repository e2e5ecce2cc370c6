//! The renderer: the camera pose, the view transform, perspective
//! projection, and the per-triangle draw pipeline (cull, light, clip
//! against the near plane, project, clip against the screen, rasterize).

use vstd::prelude::*;
use vstd::multiset::Multiset;
use crate::camera::{rotated_x, rotated_y, rotated_z, Angle, Camera, Rotation};
use crate::fixed::{
    clamp_s, div_trunc_i128, fx_mul, fx_mul_s, lemma_fx_mul_bound, trunc_div, COORD_MAX, DEPTH_MAX,
    FX_ONE, SCREEN_MAX,
};
use crate::screen::VecScreen;
use crate::vec3::{Triangle, Vec3};
use crate::mesh::{Mesh, Polygon};

verus! {

/// The fixed-point near-plane distance (one tenth of a world unit,
/// rounded to the nearest representable step).
pub const NEAR_DISTANCE: i64 = 6554;

/// Magnitude bound on points entering `rotate`.
pub const ROTATE_IN_MAX: i64 = 70368744177664;

/// Magnitude bound on camera-space points leaving the view transform
/// (twenty-five times the bound on points entering it).
pub const VIEW_MAX: i64 = 219902325555200;

/// The renderer owns the camera for its session; meshes and frames are
/// borrowed per call.
pub struct Renderer {
    pub camera: Camera,
}

/// The x coordinate of `p` in camera space: translated by the camera's
/// position, then rotated by the negated yaw and then the negated pitch,
/// exactly as `Renderer::rotate` computes.
pub open spec fn view_px(c: Camera, p: Vec3) -> int {
    rotated_x(
        rotated_x(p.x - c.location.x, p.y - c.location.y, p.z - c.location.z, yaw_rotation(c)),
        rotated_y(p.x - c.location.x, p.y - c.location.y, p.z - c.location.z, yaw_rotation(c)),
        rotated_z(p.x - c.location.x, p.y - c.location.y, p.z - c.location.z, yaw_rotation(c)),
        pitch_rotation(c),
    )
}

/// The y coordinate of `p` in camera space.
pub open spec fn view_py(c: Camera, p: Vec3) -> int {
    rotated_y(
        rotated_x(p.x - c.location.x, p.y - c.location.y, p.z - c.location.z, yaw_rotation(c)),
        rotated_y(p.x - c.location.x, p.y - c.location.y, p.z - c.location.z, yaw_rotation(c)),
        rotated_z(p.x - c.location.x, p.y - c.location.y, p.z - c.location.z, yaw_rotation(c)),
        pitch_rotation(c),
    )
}

/// The z coordinate of `p` in camera space: the depth used by projection.
pub open spec fn view_pz(c: Camera, p: Vec3) -> int {
    rotated_z(
        rotated_x(p.x - c.location.x, p.y - c.location.y, p.z - c.location.z, yaw_rotation(c)),
        rotated_y(p.x - c.location.x, p.y - c.location.y, p.z - c.location.z, yaw_rotation(c)),
        rotated_z(p.x - c.location.x, p.y - c.location.y, p.z - c.location.z, yaw_rotation(c)),
        pitch_rotation(c),
    )
}

/// The first view rotation: about Y by the negated yaw.
pub open spec fn yaw_rotation(c: Camera) -> Rotation {
    Rotation {
        x: Angle { sin: 0, cos: FX_ONE },
        y: Angle { sin: (-c.yaw.sin) as i64, cos: c.yaw.cos },
        z: Angle { sin: 0, cos: FX_ONE },
    }
}

/// The second view rotation: about X by the negated pitch.
pub open spec fn pitch_rotation(c: Camera) -> Rotation {
    Rotation {
        x: Angle { sin: (-c.pitch.sin) as i64, cos: c.pitch.cos },
        y: Angle { sin: 0, cos: FX_ONE },
        z: Angle { sin: 0, cos: FX_ONE },
    }
}

/// The projection denominator for `p`: the fixed-point product of the
/// camera-space depth with the half-field-of-view tangent.  Projection is
/// defined only where this is positive; the near-plane clip is what keeps
/// it so for drawn geometry.
pub open spec fn view_den(c: Camera, p: Vec3) -> int {
    fx_mul_s(view_pz(c, p), c.tan_half_fov as int)
}

/// The projected column of a camera-space x at denominator `den`:
/// `x/(z*tan)` scaled by half the height, offset to the middle column,
/// truncated toward zero, and saturated onto the addressable range.
pub open spec fn proj_sx(xv: int, den: int, w: int, h: int) -> int {
    clamp_s(-SCREEN_MAX as int, trunc_div(xv * h + w * den, 2 * den), SCREEN_MAX as int)
}

/// The projected row of a camera-space y: as `proj_sx` with the sign
/// flipped (screen rows grow downward) and offset to the middle row.
pub open spec fn proj_sy(yv: int, den: int, h: int) -> int {
    clamp_s(-SCREEN_MAX as int, trunc_div(-yv * h + h * den, 2 * den), SCREEN_MAX as int)
}

impl Renderer {
    /// A renderer with a camera at the origin looking along positive z,
    /// with the given half-field-of-view tangent.
    pub fn new(tan_half_fov: i64) -> (r: Renderer)
        requires
            1 <= tan_half_fov <= 0x40000000,
        ensures
            r.camera.location == (Vec3 { x: 0, y: 0, z: 0 }),
            r.camera.tan_half_fov == tan_half_fov,
            r.camera.pitch.sin == 0 && r.camera.pitch.cos == FX_ONE,
            r.camera.yaw.sin == 0 && r.camera.yaw.cos == FX_ONE,
            r.camera.wf(),
    {
        Renderer {
            camera: Camera {
                location: Vec3 { x: 0, y: 0, z: 0 },
                tan_half_fov,
                pitch: Angle { sin: 0, cos: FX_ONE },
                yaw: Angle { sin: 0, cos: FX_ONE },
            },
        }
    }

    /// Resets every pixel to `color` and every depth to the farthest
    /// representable value.
    pub fn clear_screen(&self, frame: &mut crate::raster::Frame, color: u32)
        requires
            old(frame).wf(),
        ensures
            final(frame).wf(),
            final(frame).width == old(frame).width,
            final(frame).height == old(frame).height,
            forall|i: int|
                0 <= i < final(frame).buffer@.len() ==> final(frame).buffer@[i] == color,
            forall|i: int|
                0 <= i < final(frame).depth_buffer@.len() ==> final(frame).depth_buffer@[i]
                    == i64::MAX,
    {
        let cleared = crate::raster::Frame::new(frame.width, frame.height, color);
        frame.buffer = cleared.buffer;
        frame.depth_buffer = cleared.depth_buffer;
    }

    /// Rotates a point about the origin: a planar rotation in the X
    /// plane, then the Y plane, then the Z plane, every product floored
    /// to the fixed-point grid.
    pub fn rotate(&self, point: &mut Vec3, rot: &Rotation)
        requires
            rot.wf(),
            old(point).bounded(ROTATE_IN_MAX as int),
        ensures
            final(point).x == rotated_x(
                old(point).x as int,
                old(point).y as int,
                old(point).z as int,
                *rot,
            ),
            final(point).y == rotated_y(
                old(point).x as int,
                old(point).y as int,
                old(point).z as int,
                *rot,
            ),
            final(point).z == rotated_z(
                old(point).x as int,
                old(point).y as int,
                old(point).z as int,
                *rot,
            ),
            final(point).bounded(5 * ROTATE_IN_MAX as int),
    {
        let b: i64 = ROTATE_IN_MAX;
        proof {
            lemma_fx_mul_bound(rot.x.cos as int, point.y as int, b as int);
            lemma_fx_mul_bound(rot.x.sin as int, point.z as int, b as int);
            lemma_fx_mul_bound(rot.x.cos as int, point.z as int, b as int);
            lemma_fx_mul_bound(rot.x.sin as int, point.y as int, b as int);
        }
        let tmp: i64 = fx_mul(rot.x.cos, point.y) + fx_mul(rot.x.sin, point.z);
        point.z = fx_mul(rot.x.cos, point.z) - fx_mul(rot.x.sin, point.y);
        point.y = tmp;
        proof {
            lemma_fx_mul_bound(rot.y.cos as int, point.z as int, 2 * b as int);
            lemma_fx_mul_bound(rot.y.sin as int, point.x as int, b as int);
            lemma_fx_mul_bound(rot.y.cos as int, point.x as int, b as int);
            lemma_fx_mul_bound(rot.y.sin as int, point.z as int, 2 * b as int);
        }
        let tmp: i64 = fx_mul(rot.y.cos, point.z) + fx_mul(rot.y.sin, point.x);
        point.x = fx_mul(rot.y.cos, point.x) - fx_mul(rot.y.sin, point.z);
        point.z = tmp;
        proof {
            lemma_fx_mul_bound(rot.z.cos as int, point.x as int, 3 * b as int);
            lemma_fx_mul_bound(rot.z.sin as int, point.y as int, 2 * b as int);
            lemma_fx_mul_bound(rot.z.cos as int, point.y as int, 2 * b as int);
            lemma_fx_mul_bound(rot.z.sin as int, point.x as int, 3 * b as int);
        }
        let tmp: i64 = fx_mul(rot.z.cos, point.x) + fx_mul(rot.z.sin, point.y);
        point.y = fx_mul(rot.z.cos, point.y) - fx_mul(rot.z.sin, point.x);
        point.x = tmp;
    }

    /// The camera-space image of `p`: translated against the camera's
    /// position, then rotated by the negated yaw and the negated pitch.
    fn view_point(&self, p: Vec3) -> (r: Vec3)
        requires
            self.camera.wf(),
            p.bounded(0x40000000000),
        ensures
            r.x == view_px(self.camera, p),
            r.y == view_py(self.camera, p),
            r.z == view_pz(self.camera, p),
            r.bounded(VIEW_MAX as int),
    {
        let mut q = Vec3 {
            x: p.x - self.camera.location.x,
            y: p.y - self.camera.location.y,
            z: p.z - self.camera.location.z,
        };
        let ghost t = q;
        let yaw_rot = Rotation {
            x: Angle::zero(),
            y: self.camera.yaw.neg(),
            z: Angle::zero(),
        };
        proof {
            crate::camera::lemma_rotated_bounded(
                t.x as int,
                t.y as int,
                t.z as int,
                yaw_rot,
                0x80000000000,
            );
        }
        self.rotate(&mut q, &yaw_rot);
        let pitch_rot = Rotation {
            x: self.camera.pitch.neg(),
            y: Angle::zero(),
            z: Angle::zero(),
        };
        proof {
            crate::camera::lemma_rotated_bounded(
                q.x as int,
                q.y as int,
                q.z as int,
                pitch_rot,
                5 * 0x80000000000int,
            );
        }
        self.rotate(&mut q, &pitch_rot);
        proof {
            assert(yaw_rot == yaw_rotation(self.camera));
            assert(pitch_rot == pitch_rotation(self.camera));
        }
        q
    }

    /// The projection denominator of `p`, used to test whether `p` can be
    /// projected at all.
    pub fn view_den_val(&self, p: Vec3) -> (r: i64)
        requires
            self.camera.wf(),
            p.bounded(0x40000000000),
        ensures
            r == view_den(self.camera, p),
    {
        let q = self.view_point(p);
        proof {
            assert(-0x4000000000000000 * (FX_ONE as int) <= (q.z as int)
                * (self.camera.tan_half_fov as int) <= 0x4000000000000000 * (FX_ONE as int))
                by (nonlinear_arith)
                requires
                    -219902325555200 <= q.z <= 219902325555200,
                    0 <= self.camera.tan_half_fov <= 0x40000000,
            ;
            crate::fixed::lemma_fx_range(
                q.z as int,
                self.camera.tan_half_fov as int,
                0x4000000000000000,
            );
        }
        fx_mul(q.z, self.camera.tan_half_fov)
    }

    /// Projects a camera-relative point onto the screen: perspective
    /// division by the field-of-view-scaled depth, scaled by half the
    /// frame height, offset to the frame's centre, truncated toward zero,
    /// saturated onto the addressable range.  The camera-space depth
    /// rides along for the depth test.
    pub fn project(&self, width: usize, height: usize, point: Vec3) -> (r: VecScreen)
        requires
            self.camera.wf(),
            point.bounded(0x40000000000),
            view_den(self.camera, point) >= 1,
            0 < width <= 32768,
            0 < height <= 32768,
        ensures
            r.x == proj_sx(
                view_px(self.camera, point),
                view_den(self.camera, point),
                width as int,
                height as int,
            ),
            r.y == proj_sy(view_py(self.camera, point), view_den(self.camera, point), height as int),
            r.depth == view_pz(self.camera, point),
            r.bounded(SCREEN_MAX as int, DEPTH_MAX as int),
    {
        let q = self.view_point(point);
        let den: i64 = self.view_den_val(point);
        let w128 = width as i128;
        let h128 = height as i128;
        proof {
            assert(-0x80000000000000000000 <= (q.x as i128) * h128 <= 0x80000000000000000000
                && -0x80000000000000000000 <= (q.y as i128) * h128 <= 0x80000000000000000000
                && -0x80000000000000000000 <= (-(q.y as i128)) * h128 <= 0x80000000000000000000
                && -0x200000000000000000000000 <= w128 * (den as i128)
                <= 0x200000000000000000000000 && -0x200000000000000000000000 <= h128 * (
            den as i128) <= 0x200000000000000000000000) by (nonlinear_arith)
                requires
                    -219902325555200 <= q.x <= 219902325555200,
                    -219902325555200 <= q.y <= 219902325555200,
                    0 < w128 <= 32768,
                    0 < h128 <= 32768,
                    -0x8000000000000000 <= den as i128 <= 0x8000000000000000,
            ;
        }
        let numx: i128 = (q.x as i128) * h128 + w128 * (den as i128);
        let numy: i128 = -(q.y as i128) * h128 + h128 * (den as i128);
        let sx: i128 = div_trunc_i128(numx, 2 * (den as i128));
        let sy: i128 = div_trunc_i128(numy, 2 * (den as i128));
        let rx: i64 = saturate_screen(sx);
        let ry: i64 = saturate_screen(sy);
        VecScreen { x: rx, y: ry, depth: q.z }
    }
}

/// `out` is `v` rotated by `r` about the pivot `c`: translated to the
/// origin, rotated, and translated back.
pub open spec fn rotated_about(out: Vec3, v: Vec3, c: Vec3, r: Rotation) -> bool {
    &&& out.x == rotated_x(v.x - c.x, v.y - c.y, v.z - c.z, r) + c.x
    &&& out.y == rotated_y(v.x - c.x, v.y - c.y, v.z - c.z, r) + c.y
    &&& out.z == rotated_z(v.x - c.x, v.y - c.y, v.z - c.z, r) + c.z
}

/// The sum of the x coordinates of all corners of all polygons.
pub open spec fn corner_sum_x(s: Seq<Polygon>) -> int
    decreases s.len(),
{
    if s.len() == 0 {
        0
    } else {
        corner_sum_x(s.drop_last()) + s.last().triangle.a.x + s.last().triangle.b.x
            + s.last().triangle.c.x
    }
}

/// The sum of the y coordinates of all corners of all polygons.
pub open spec fn corner_sum_y(s: Seq<Polygon>) -> int
    decreases s.len(),
{
    if s.len() == 0 {
        0
    } else {
        corner_sum_y(s.drop_last()) + s.last().triangle.a.y + s.last().triangle.b.y
            + s.last().triangle.c.y
    }
}

/// The sum of the z coordinates of all corners of all polygons.
pub open spec fn corner_sum_z(s: Seq<Polygon>) -> int
    decreases s.len(),
{
    if s.len() == 0 {
        0
    } else {
        corner_sum_z(s.drop_last()) + s.last().triangle.a.z + s.last().triangle.b.z
            + s.last().triangle.c.z
    }
}

/// The squared raw distance from the camera to three times the polygon's
/// centroid: the painter's-algorithm sort key.
pub open spec fn depth2(c: Camera, p: Polygon) -> int {
    let tx = p.triangle.a.x + p.triangle.b.x + p.triangle.c.x - 3 * c.location.x;
    let ty = p.triangle.a.y + p.triangle.b.y + p.triangle.c.y - 3 * c.location.y;
    let tz = p.triangle.a.z + p.triangle.b.z + p.triangle.c.z - 3 * c.location.z;
    tx * tx + ty * ty + tz * tz
}

impl Renderer {
    /// Rotates a triangle about the given pivot: each corner is moved to
    /// the origin, rotated, and moved back.
    pub fn rotate_triangle(&self, triangle: &mut Triangle, centroid: Vec3, rot: &Rotation)
        requires
            rot.wf(),
            old(triangle).a.bounded(COORD_MAX as int),
            old(triangle).b.bounded(COORD_MAX as int),
            old(triangle).c.bounded(COORD_MAX as int),
            centroid.bounded(COORD_MAX as int),
        ensures
            rotated_about(final(triangle).a, old(triangle).a, centroid, *rot),
            rotated_about(final(triangle).b, old(triangle).b, centroid, *rot),
            rotated_about(final(triangle).c, old(triangle).c, centroid, *rot),
    {
        triangle.a.x = triangle.a.x - centroid.x;
        triangle.a.y = triangle.a.y - centroid.y;
        triangle.a.z = triangle.a.z - centroid.z;
        triangle.b.x = triangle.b.x - centroid.x;
        triangle.b.y = triangle.b.y - centroid.y;
        triangle.b.z = triangle.b.z - centroid.z;
        triangle.c.x = triangle.c.x - centroid.x;
        triangle.c.y = triangle.c.y - centroid.y;
        triangle.c.z = triangle.c.z - centroid.z;
        self.rotate(&mut triangle.a, rot);
        self.rotate(&mut triangle.b, rot);
        self.rotate(&mut triangle.c, rot);
        triangle.a.x = triangle.a.x + centroid.x;
        triangle.a.y = triangle.a.y + centroid.y;
        triangle.a.z = triangle.a.z + centroid.z;
        triangle.b.x = triangle.b.x + centroid.x;
        triangle.b.y = triangle.b.y + centroid.y;
        triangle.b.z = triangle.b.z + centroid.z;
        triangle.c.x = triangle.c.x + centroid.x;
        triangle.c.y = triangle.c.y + centroid.y;
        triangle.c.z = triangle.c.z + centroid.z;
    }

    /// Rotates a whole mesh about its own centroid: the arithmetic mean
    /// of all triangle corners, recomputed on every call, its components
    /// truncated toward zero.  An empty mesh is left untouched.
    pub fn rotate_mesh(&self, mesh: &mut Mesh, rot: &Rotation)
        requires
            rot.wf(),
            old(mesh).bounded(COORD_MAX as int),
        ensures
            final(mesh).polygon_list.len() == old(mesh).polygon_list.len(),
            final(mesh).texture == old(mesh).texture,
            forall|i: int|
                0 <= i < old(mesh).polygon_list.len() ==> {
                    let centroid = Vec3 {
                        x: trunc_div(
                            corner_sum_x(old(mesh).polygon_list@),
                            3 * old(mesh).polygon_list.len() as int,
                        ) as i64,
                        y: trunc_div(
                            corner_sum_y(old(mesh).polygon_list@),
                            3 * old(mesh).polygon_list.len() as int,
                        ) as i64,
                        z: trunc_div(
                            corner_sum_z(old(mesh).polygon_list@),
                            3 * old(mesh).polygon_list.len() as int,
                        ) as i64,
                    };
                    &&& rotated_about(
                        (#[trigger] final(mesh).polygon_list[i]).triangle.a,
                        old(mesh).polygon_list[i].triangle.a,
                        centroid,
                        *rot,
                    )
                    &&& rotated_about(
                        final(mesh).polygon_list[i].triangle.b,
                        old(mesh).polygon_list[i].triangle.b,
                        centroid,
                        *rot,
                    )
                    &&& rotated_about(
                        final(mesh).polygon_list[i].triangle.c,
                        old(mesh).polygon_list[i].triangle.c,
                        centroid,
                        *rot,
                    )
                    &&& final(mesh).polygon_list[i].color == old(mesh).polygon_list[i].color
                    &&& final(mesh).polygon_list[i].fill == old(mesh).polygon_list[i].fill
                    &&& final(mesh).polygon_list[i].triangle_tex == old(
                        mesh,
                    ).polygon_list[i].triangle_tex
                },
    {
        let n: usize = mesh.polygon_list.len();
        if n == 0 {
            return ;
        }
        let mut sx: i128 = 0;
        let mut sy: i128 = 0;
        let mut sz: i128 = 0;
        let mut k: usize = 0;
        proof {
            assert(3 * 0 * (COORD_MAX as int) == 0) by (nonlinear_arith);
        }
        while k < n
            invariant
                k <= n,
                *mesh == *old(mesh),
                n == mesh.polygon_list.len(),
                mesh.bounded(COORD_MAX as int),
                sx == corner_sum_x(mesh.polygon_list@.take(k as int)),
                sy == corner_sum_y(mesh.polygon_list@.take(k as int)),
                sz == corner_sum_z(mesh.polygon_list@.take(k as int)),
                -3 * k * (COORD_MAX as int) <= sx <= 3 * k * (COORD_MAX as int),
                -3 * k * (COORD_MAX as int) <= sy <= 3 * k * (COORD_MAX as int),
                -3 * k * (COORD_MAX as int) <= sz <= 3 * k * (COORD_MAX as int),
            decreases n - k,
        {
            let p = mesh.polygon_list[k];
            proof {
                assert(mesh.polygon_list@.take(k as int + 1).drop_last() =~= mesh.polygon_list@
                    .take(k as int));
                assert(mesh.polygon_list@.take(k as int + 1).last() == mesh.polygon_list@[k as int]);
                assert(3 * (k + 1) * (COORD_MAX as int) == 3 * k * (COORD_MAX as int) + 3 * (
                COORD_MAX as int)) by (nonlinear_arith);
                assert(3 * k * (COORD_MAX as int) <= 0xc0000000000000000000000000)
                    by (nonlinear_arith)
                    requires
                        0 <= k <= 0xffffffffffffffff,
                ;
            }
            sx = sx + (p.triangle.a.x as i128) + (p.triangle.b.x as i128) + (p.triangle.c.x as i128);
            sy = sy + (p.triangle.a.y as i128) + (p.triangle.b.y as i128) + (p.triangle.c.y as i128);
            sz = sz + (p.triangle.a.z as i128) + (p.triangle.b.z as i128) + (p.triangle.c.z as i128);
            k = k + 1;
        }
        proof {
            assert(mesh.polygon_list@.take(n as int) =~= mesh.polygon_list@);
        }
        let den: i128 = 3 * (n as i128);
        proof {
            crate::fixed::lemma_div_bound(sx as int, den as int);
            crate::fixed::lemma_div_bound(-(sx as int), den as int);
            crate::fixed::lemma_div_bound(sy as int, den as int);
            crate::fixed::lemma_div_bound(-(sy as int), den as int);
            crate::fixed::lemma_div_bound(sz as int, den as int);
            crate::fixed::lemma_div_bound(-(sz as int), den as int);
            assert(3 * (n as int) * (COORD_MAX as int) == den * (COORD_MAX as int))
                by (nonlinear_arith)
                requires
                    den == 3 * (n as int),
            ;
            lemma_abs_div_bound(sx as int, den as int, COORD_MAX as int);
            lemma_abs_div_bound(sy as int, den as int, COORD_MAX as int);
            lemma_abs_div_bound(sz as int, den as int, COORD_MAX as int);
        }
        let cx: i128 = div_trunc_i128(sx, den);
        let cy: i128 = div_trunc_i128(sy, den);
        let cz: i128 = div_trunc_i128(sz, den);
        let centroid = Vec3 { x: cx as i64, y: cy as i64, z: cz as i64 };
        let ghost orig = old(mesh).polygon_list@;
        let mut k2: usize = 0;
        while k2 < n
            invariant
                k2 <= n,
                n == mesh.polygon_list.len(),
                n == orig.len(),
                rot.wf(),
                mesh.texture == old(mesh).texture,
                centroid.bounded(COORD_MAX as int),
                centroid.x == trunc_div(corner_sum_x(orig), 3 * n as int),
                centroid.y == trunc_div(corner_sum_y(orig), 3 * n as int),
                centroid.z == trunc_div(corner_sum_z(orig), 3 * n as int),
                forall|i: int| k2 <= i < n ==> #[trigger] mesh.polygon_list@[i] == orig[i],
                forall|i: int|
                    0 <= i < n ==> {
                        &&& (#[trigger] orig[i]).triangle.a.bounded(COORD_MAX as int)
                        &&& orig[i].triangle.b.bounded(COORD_MAX as int)
                        &&& orig[i].triangle.c.bounded(COORD_MAX as int)
                    },
                forall|i: int|
                    0 <= i < k2 ==> {
                        &&& rotated_about(
                            (#[trigger] mesh.polygon_list@[i]).triangle.a,
                            orig[i].triangle.a,
                            centroid,
                            *rot,
                        )
                        &&& rotated_about(
                            mesh.polygon_list@[i].triangle.b,
                            orig[i].triangle.b,
                            centroid,
                            *rot,
                        )
                        &&& rotated_about(
                            mesh.polygon_list@[i].triangle.c,
                            orig[i].triangle.c,
                            centroid,
                            *rot,
                        )
                        &&& mesh.polygon_list@[i].color == orig[i].color
                        &&& mesh.polygon_list@[i].fill == orig[i].fill
                        &&& mesh.polygon_list@[i].triangle_tex == orig[i].triangle_tex
                    },
            decreases n - k2,
        {
            let mut p = mesh.polygon_list[k2];
            self.rotate_triangle(&mut p.triangle, centroid, rot);
            mesh.polygon_list.set(k2, p);
            k2 = k2 + 1;
        }
    }

    /// Moves every vertex of the mesh by the given offset.
    pub fn translate_mesh(&self, mesh: &mut Mesh, translate: Vec3)
        requires
            old(mesh).bounded(COORD_MAX as int),
            translate.bounded(COORD_MAX as int),
        ensures
            final(mesh).polygon_list.len() == old(mesh).polygon_list.len(),
            final(mesh).texture == old(mesh).texture,
            forall|i: int|
                0 <= i < old(mesh).polygon_list.len() ==> {
                    let p0 = old(mesh).polygon_list[i];
                    let p1 = #[trigger] final(mesh).polygon_list[i];
                    &&& p1.triangle.a.x == p0.triangle.a.x + translate.x
                    &&& p1.triangle.a.y == p0.triangle.a.y + translate.y
                    &&& p1.triangle.a.z == p0.triangle.a.z + translate.z
                    &&& p1.triangle.b.x == p0.triangle.b.x + translate.x
                    &&& p1.triangle.b.y == p0.triangle.b.y + translate.y
                    &&& p1.triangle.b.z == p0.triangle.b.z + translate.z
                    &&& p1.triangle.c.x == p0.triangle.c.x + translate.x
                    &&& p1.triangle.c.y == p0.triangle.c.y + translate.y
                    &&& p1.triangle.c.z == p0.triangle.c.z + translate.z
                    &&& p1.color == p0.color && p1.fill == p0.fill && p1.triangle_tex
                        == p0.triangle_tex
                },
    {
        let ghost orig = old(mesh).polygon_list@;
        let n: usize = mesh.polygon_list.len();
        let mut k: usize = 0;
        while k < n
            invariant
                k <= n,
                n == mesh.polygon_list.len(),
                n == orig.len(),
                mesh.texture == old(mesh).texture,
                translate.bounded(COORD_MAX as int),
                forall|i: int| k <= i < n ==> #[trigger] mesh.polygon_list@[i] == orig[i],
                forall|i: int|
                    0 <= i < n ==> {
                        &&& (#[trigger] orig[i]).triangle.a.bounded(COORD_MAX as int)
                        &&& orig[i].triangle.b.bounded(COORD_MAX as int)
                        &&& orig[i].triangle.c.bounded(COORD_MAX as int)
                    },
                forall|i: int|
                    0 <= i < k ==> {
                        let p0 = orig[i];
                        let p1 = #[trigger] mesh.polygon_list@[i];
                        &&& p1.triangle.a.x == p0.triangle.a.x + translate.x
                        &&& p1.triangle.a.y == p0.triangle.a.y + translate.y
                        &&& p1.triangle.a.z == p0.triangle.a.z + translate.z
                        &&& p1.triangle.b.x == p0.triangle.b.x + translate.x
                        &&& p1.triangle.b.y == p0.triangle.b.y + translate.y
                        &&& p1.triangle.b.z == p0.triangle.b.z + translate.z
                        &&& p1.triangle.c.x == p0.triangle.c.x + translate.x
                        &&& p1.triangle.c.y == p0.triangle.c.y + translate.y
                        &&& p1.triangle.c.z == p0.triangle.c.z + translate.z
                        &&& p1.color == p0.color && p1.fill == p0.fill && p1.triangle_tex
                            == p0.triangle_tex
                    },
            decreases n - k,
        {
            let mut p = mesh.polygon_list[k];
            p.triangle.a = p.triangle.a.add(&translate);
            p.triangle.b = p.triangle.b.add(&translate);
            p.triangle.c = p.triangle.c.add(&translate);
            mesh.polygon_list.set(k, p);
            k = k + 1;
        }
    }

    /// The painter's-algorithm key: the squared raw distance from the
    /// camera to three times the polygon's centroid.
    fn calc_depth(&self, p: &Polygon) -> (r: i128)
        requires
            self.camera.wf(),
            p.triangle.a.bounded(COORD_MAX as int),
            p.triangle.b.bounded(COORD_MAX as int),
            p.triangle.c.bounded(COORD_MAX as int),
        ensures
            r == depth2(self.camera, *p),
    {
        let tx: i128 = (p.triangle.a.x as i128) + (p.triangle.b.x as i128)
            + (p.triangle.c.x as i128) - 3 * (self.camera.location.x as i128);
        let ty: i128 = (p.triangle.a.y as i128) + (p.triangle.b.y as i128)
            + (p.triangle.c.y as i128) - 3 * (self.camera.location.y as i128);
        let tz: i128 = (p.triangle.a.z as i128) + (p.triangle.b.z as i128)
            + (p.triangle.c.z as i128) - 3 * (self.camera.location.z as i128);
        proof {
            assert(0 <= tx * tx <= 0x40000000000000000000 && 0 <= ty * ty
                <= 0x40000000000000000000 && 0 <= tz * tz <= 0x40000000000000000000)
                by (nonlinear_arith)
                requires
                    -0x1800000000 <= tx <= 0x1800000000,
                    -0x1800000000 <= ty <= 0x1800000000,
                    -0x1800000000 <= tz <= 0x1800000000,
            ;
        }
        tx * tx + ty * ty + tz * tz
    }

    /// Orders the polygons by descending squared distance from the
    /// camera, so that drawing them first-to-last paints back-to-front.
    /// Which of two polygons at equal distance comes first is not
    /// specified.
    pub fn depth_sort_mesh(&self, mesh: &mut Mesh)
        requires
            self.camera.wf(),
            old(mesh).bounded(COORD_MAX as int),
        ensures
            final(mesh).polygon_list@.to_multiset() == old(mesh).polygon_list@.to_multiset(),
            final(mesh).polygon_list.len() == old(mesh).polygon_list.len(),
            final(mesh).texture == old(mesh).texture,
            final(mesh).bounded(COORD_MAX as int),
            forall|i: int, j: int|
                0 <= i <= j < final(mesh).polygon_list.len() ==> depth2(
                    self.camera,
                    #[trigger] final(mesh).polygon_list[i],
                ) >= depth2(self.camera, #[trigger] final(mesh).polygon_list[j]),
    {
        broadcast use vstd::seq_lib::group_to_multiset_ensures;
        broadcast use vstd::multiset::group_multiset_axioms;

        let ghost orig = mesh.polygon_list@;
        let mut rest: Vec<Polygon> = Vec::new();
        core::mem::swap(&mut rest, &mut mesh.polygon_list);
        let mut out: Vec<Polygon> = Vec::new();
        proof {
            assert(out@.to_multiset().add(rest@.to_multiset()) =~= orig.to_multiset());
        }
        while rest.len() > 0
            invariant
                self.camera.wf(),
                out@.to_multiset().add(rest@.to_multiset()) == orig.to_multiset(),
                out@.len() + rest@.len() == orig.len(),
                forall|i: int|
                    0 <= i < rest.len() ==> {
                        &&& (#[trigger] rest@[i]).triangle.a.bounded(COORD_MAX as int)
                        &&& rest@[i].triangle.b.bounded(COORD_MAX as int)
                        &&& rest@[i].triangle.c.bounded(COORD_MAX as int)
                    },
                forall|i: int|
                    0 <= i < out.len() ==> {
                        &&& (#[trigger] out@[i]).triangle.a.bounded(COORD_MAX as int)
                        &&& out@[i].triangle.b.bounded(COORD_MAX as int)
                        &&& out@[i].triangle.c.bounded(COORD_MAX as int)
                    },
                forall|i: int, j: int|
                    0 <= i <= j < out.len() ==> depth2(self.camera, #[trigger] out@[i]) >= depth2(
                        self.camera,
                        #[trigger] out@[j],
                    ),
                forall|i: int, j: int|
                    0 <= i < out.len() && 0 <= j < rest.len() ==> depth2(
                        self.camera,
                        #[trigger] out@[i],
                    ) >= depth2(self.camera, #[trigger] rest@[j]),
            decreases rest.len(),
        {
            let mut best: usize = 0;
            let mut best_key: i128 = self.calc_depth(&rest[0]);
            let mut k: usize = 1;
            while k < rest.len()
                invariant
                    self.camera.wf(),
                    rest.len() > 0,
                    best < k <= rest.len() || (best == 0 && k <= rest.len()),
                    best < rest.len(),
                    forall|i: int|
                        0 <= i < rest.len() ==> {
                            &&& (#[trigger] rest@[i]).triangle.a.bounded(COORD_MAX as int)
                            &&& rest@[i].triangle.b.bounded(COORD_MAX as int)
                            &&& rest@[i].triangle.c.bounded(COORD_MAX as int)
                        },
                    best_key == depth2(self.camera, rest@[best as int]),
                    forall|i: int|
                        0 <= i < k ==> best_key >= depth2(self.camera, #[trigger] rest@[i]),
                decreases rest.len() - k,
            {
                let key: i128 = self.calc_depth(&rest[k]);
                if key > best_key {
                    best = k;
                    best_key = key;
                }
                k = k + 1;
            }
            let ghost rest_before = rest@;
            let chosen: Polygon = rest.remove(best);
            out.push(chosen);
            proof {
                broadcast use vstd::seq_lib::group_to_multiset_ensures;
                broadcast use vstd::multiset::group_multiset_axioms;

                assert(rest_before.remove(best as int).to_multiset() =~= rest_before.to_multiset()
                    .remove(chosen));
                assert(out@.to_multiset().add(rest@.to_multiset()) =~= orig.to_multiset());
                assert(forall|j: int|
                    0 <= j < rest.len() ==> depth2(self.camera, #[trigger] rest@[j]) <= best_key);
            }
        }
        core::mem::swap(&mut out, &mut mesh.polygon_list);
        proof {
            broadcast use vstd::seq_lib::group_to_multiset_ensures;
            broadcast use vstd::multiset::group_multiset_axioms;

            assert(rest@.to_multiset() =~= Multiset::<Polygon>::empty());
            assert(mesh.polygon_list@.to_multiset() =~= orig.to_multiset());
        }
    }
}

/// The rotation that turns the camera's rest forward axis into its
/// actual forward axis: pitch about X, then yaw about Y.
pub open spec fn near_rotation(c: Camera) -> Rotation {
    Rotation { x: c.pitch, y: c.yaw, z: Angle { sin: 0, cos: FX_ONE } }
}

/// The x component of the near plane's normal: the camera's forward
/// axis.
pub open spec fn near_normal_x(c: Camera) -> int {
    rotated_x(0, 0, FX_ONE as int, near_rotation(c))
}

/// The y component of the near plane's normal.
pub open spec fn near_normal_y(c: Camera) -> int {
    rotated_y(0, 0, FX_ONE as int, near_rotation(c))
}

/// The z component of the near plane's normal.
pub open spec fn near_normal_z(c: Camera) -> int {
    rotated_z(0, 0, FX_ONE as int, near_rotation(c))
}

/// `v` lies strictly behind the camera's near plane, which sits the near
/// distance along the forward axis from the camera's position.
pub open spec fn behind_near_plane(c: Camera, v: Vec3) -> bool {
    let px = c.location.x + fx_mul_s(near_normal_x(c), NEAR_DISTANCE as int);
    let py = c.location.y + fx_mul_s(near_normal_y(c), NEAR_DISTANCE as int);
    let pz = c.location.z + fx_mul_s(near_normal_z(c), NEAR_DISTANCE as int);
    (v.x - px) * near_normal_x(c) + (v.y - py) * near_normal_y(c) + (v.z - pz) * near_normal_z(c)
        < 0
}

/// The x component of a triangle's face normal: the fixed-point cross
/// product of its first two edges.
pub open spec fn face_normal_x(t: Triangle) -> int {
    fx_mul_s(t.b.y - t.a.y, t.c.z - t.a.z) - fx_mul_s(t.b.z - t.a.z, t.c.y - t.a.y)
}

/// The y component of a triangle's face normal.
pub open spec fn face_normal_y(t: Triangle) -> int {
    fx_mul_s(t.b.z - t.a.z, t.c.x - t.a.x) - fx_mul_s(t.b.x - t.a.x, t.c.z - t.a.z)
}

/// The z component of a triangle's face normal.
pub open spec fn face_normal_z(t: Triangle) -> int {
    fx_mul_s(t.b.x - t.a.x, t.c.y - t.a.y) - fx_mul_s(t.b.y - t.a.y, t.c.x - t.a.x)
}

/// The face normal vanishes: degenerate geometry the pipeline skips.
pub open spec fn face_degenerate(t: Triangle) -> bool {
    face_normal_x(t) == 0 && face_normal_y(t) == 0 && face_normal_z(t) == 0
}

/// The backface test: a triangle is discarded when the dot product of
/// its normalised face normal with the ray from its first corner to the
/// camera is positive.
pub open spec fn face_culled(c: Camera, t: Triangle) -> bool {
    let n2 = face_normal_x(t) * face_normal_x(t) + face_normal_y(t) * face_normal_y(t)
        + face_normal_z(t) * face_normal_z(t);
    let l = crate::vec3::sqrt_val(n2);
    let ux = trunc_div(face_normal_x(t) * (FX_ONE as int), l);
    let uy = trunc_div(face_normal_y(t) * (FX_ONE as int), l);
    let uz = trunc_div(face_normal_z(t) * (FX_ONE as int), l);
    fx_mul_s(ux, c.location.x - t.a.x) + fx_mul_s(uy, c.location.y - t.a.y) + fx_mul_s(
        uz,
        c.location.z - t.a.z,
    ) > 0
}

/// The near plane's normal as a value: the camera's forward axis.
pub open spec fn near_normal(c: Camera) -> Vec3 {
    Vec3 {
        x: near_normal_x(c) as i64,
        y: near_normal_y(c) as i64,
        z: near_normal_z(c) as i64,
    }
}

/// The near plane's point as a value: the near distance along the
/// forward axis from the camera's position.
pub open spec fn near_point(c: Camera) -> Vec3 {
    Vec3 {
        x: (c.location.x + fx_mul_s(near_normal_x(c), NEAR_DISTANCE as int)) as i64,
        y: (c.location.y + fx_mul_s(near_normal_y(c), NEAR_DISTANCE as int)) as i64,
        z: (c.location.z + fx_mul_s(near_normal_z(c), NEAR_DISTANCE as int)) as i64,
    }
}

/// The projected image of a camera-space-visible corner: its screen
/// pixel and carried depth.
pub open spec fn proj_corner(c: Camera, v: Vec3, w: int, h: int) -> VecScreen {
    VecScreen {
        x: proj_sx(view_px(c, v), view_den(c, v), w, h) as i64,
        y: proj_sy(view_py(c, v), view_den(c, v), h) as i64,
        depth: view_pz(c, v) as i64,
    }
}

/// The flat lighting factor of a triangle: the clamped negated dot
/// product of the normalised light direction with the unit face normal,
/// at least the floor lighting value and at most one.
pub open spec fn tri_shade(t: Triangle) -> int {
    let n2 = face_normal_x(t) * face_normal_x(t) + face_normal_y(t) * face_normal_y(t)
        + face_normal_z(t) * face_normal_z(t);
    let l = crate::vec3::sqrt_val(n2);
    let ux = trunc_div(face_normal_x(t) * (FX_ONE as int), l);
    let uy = trunc_div(face_normal_y(t) * (FX_ONE as int), l);
    let uz = trunc_div(face_normal_z(t) * (FX_ONE as int), l);
    let ll = crate::vec3::sqrt_val(8589934592);
    let lx = trunc_div(0 * (FX_ONE as int), ll);
    let ly = trunc_div((-65536) * (FX_ONE as int), ll);
    let lz = trunc_div(65536 * (FX_ONE as int), ll);
    let lum = fx_mul_s(lx, ux) + fx_mul_s(ly, uy) + fx_mul_s(lz, uz);
    clamp_s(6554, -lum, FX_ONE as int)
}

/// Rasterizing one near-clipped piece: its corners are projected and the
/// result clipped against the four screen borders and rasterized, when
/// every corner's projection denominator is positive; otherwise the
/// piece is skipped.
pub open spec fn piece_fun(
    bufs: (Seq<u32>, Seq<i64>),
    c: Camera,
    w: int,
    h: int,
    t3: Triangle,
    color: u32,
    fill: bool,
) -> (Seq<u32>, Seq<i64>) {
    if view_den(c, t3.a) >= 1 && view_den(c, t3.b) >= 1 && view_den(c, t3.c) >= 1 {
        let t2 = crate::screen::TriangleScreen {
            a: proj_corner(c, t3.a, w, h),
            b: proj_corner(c, t3.b, w, h),
            c: proj_corner(c, t3.c, w, h),
        };
        let pieces = crate::clip::clip_pass(
            crate::clip::clip_pass(
                crate::clip::clip_pass(
                    crate::clip::clip_pass(
                        seq![t2],
                        VecScreen { x: 0, y: 0, depth: 0 },
                        VecScreen { x: 1, y: 0, depth: 0 },
                    ),
                    VecScreen { x: w as i64, y: 0, depth: 0 },
                    VecScreen { x: -1i64, y: 0, depth: 0 },
                ),
                VecScreen { x: 0, y: 0, depth: 0 },
                VecScreen { x: 0, y: 1, depth: 0 },
            ),
            VecScreen { x: 0, y: h as i64, depth: 0 },
            VecScreen { x: 0, y: -1i64, depth: 0 },
        );
        crate::raster::raster_list_fun(bufs, w, h, pieces, color, fill)
    } else {
        bufs
    }
}

/// Rasterizing the near-clip pieces in order.
pub open spec fn pieces_fun(
    bufs: (Seq<u32>, Seq<i64>),
    c: Camera,
    w: int,
    h: int,
    pieces: Seq<Triangle>,
    color: u32,
    fill: bool,
) -> (Seq<u32>, Seq<i64>)
    decreases pieces.len(),
{
    if pieces.len() == 0 {
        bufs
    } else {
        piece_fun(
            pieces_fun(bufs, c, w, h, pieces.drop_last(), color, fill),
            c,
            w,
            h,
            pieces.last(),
            color,
            fill,
        )
    }
}

/// The whole triangle draw as a function of the frame contents: nothing
/// for a degenerate or culled face, else the near-clip pieces of the
/// triangle rasterized in the lit colour.
pub open spec fn draw_tri_fun(
    bufs: (Seq<u32>, Seq<i64>),
    c: Camera,
    w: int,
    h: int,
    t: Triangle,
    color: u32,
    fill: bool,
) -> (Seq<u32>, Seq<i64>) {
    if face_degenerate(t) || face_culled(c, t) {
        bufs
    } else {
        pieces_fun(
            bufs,
            c,
            w,
            h,
            crate::clip3::clip_tri3_spec(t, near_point(c), near_normal(c)),
            scaled_color(color, tri_shade(t)) as u32,
            fill,
        )
    }
}

/// Drawing a mesh: the polygons' draw effects folded in list order.
pub open spec fn draw_mesh_fun(
    bufs: (Seq<u32>, Seq<i64>),
    c: Camera,
    w: int,
    h: int,
    ps: Seq<Polygon>,
) -> (Seq<u32>, Seq<i64>)
    decreases ps.len(),
{
    if ps.len() == 0 {
        bufs
    } else {
        let p = ps.last();
        draw_tri_fun(
            draw_mesh_fun(bufs, c, w, h, ps.drop_last()),
            c,
            w,
            h,
            p.triangle,
            p.color,
            p.fill,
        )
    }
}

/// A point straight ahead of a level camera at the origin projects to
/// the screen centre: with pitch and yaw zero and the point on the
/// forward axis, the projected pixel is the middle column and middle
/// row, whatever the field of view.
pub proof fn lemma_project_centre(c: Camera, p: Vec3, w: int, h: int)
    requires
        c.wf(),
        c.location == (Vec3 { x: 0, y: 0, z: 0 }),
        c.pitch.sin == 0 && c.pitch.cos == FX_ONE,
        c.yaw.sin == 0 && c.yaw.cos == FX_ONE,
        p.x == 0 && p.y == 0,
        view_den(c, p) >= 1,
        0 < w <= 65536,
        0 < h <= 65536,
    ensures
        proj_sx(view_px(c, p), view_den(c, p), w, h) == w / 2,
        proj_sy(view_py(c, p), view_den(c, p), h) == h / 2,
{
    crate::camera::lemma_rotated_identity(0, 0, p.z as int, yaw_rotation(c));
    crate::camera::lemma_rotated_identity(0, 0, p.z as int, pitch_rotation(c));
    assert(view_px(c, p) == 0 && view_py(c, p) == 0);
    let den = view_den(c, p);
    assert(0 * h == 0 && -0 * h == 0) by (nonlinear_arith);
    lemma_offset_div(w, den);
    lemma_offset_div(h, den);
}

/// `(w * den) / (2 * den) == w / 2` for positive `w` and `den`.
proof fn lemma_offset_div(w: int, den: int)
    requires
        0 < w,
        1 <= den,
    ensures
        trunc_div(w * den, 2 * den) == w / 2,
{
    assert(0 <= w * den && 2 * den == den * 2) by (nonlinear_arith)
        requires
            0 < w,
            1 <= den,
    ;
    vstd::arithmetic::div_mod::lemma_div_denominator(w * den, den, 2);
    vstd::arithmetic::div_mod::lemma_div_multiples_vanish(w, den);
    assert(w * den == den * w) by (nonlinear_arith);
}

/// Raising the field-of-view tangent never lowers the projection
/// denominator of a point in front of the camera.
pub proof fn lemma_den_monotone(z: int, t1: int, t2: int)
    requires
        0 <= z,
        0 <= t1 <= t2,
    ensures
        fx_mul_s(z, t1) <= fx_mul_s(z, t2),
{
    assert(z * t1 <= z * t2) by (nonlinear_arith)
        requires
            0 <= z,
            t1 <= t2,
    ;
    vstd::arithmetic::div_mod::lemma_div_is_ordered(z * t1, z * t2, FX_ONE as int);
}

/// Widening the field of view pulls projections toward the screen
/// centre: for one camera-space point and two projection denominators,
/// the projection at the larger denominator lies between the projection
/// at the smaller one and the centre of the screen, on either side of
/// the centre and on both axes.  Stated for even frame dimensions, where
/// the centre is an exact pixel.
pub proof fn lemma_projection_zoom(xv: int, yv: int, den1: int, den2: int, w: int, h: int)
    requires
        1 <= den1 <= den2,
        0 < w <= 65536 && w % 2 == 0,
        0 < h <= 65536 && h % 2 == 0,
        0 <= xv * h + w * den1,
        0 <= -yv * h + h * den1,
    ensures
        xv >= 0 ==> w / 2 <= proj_sx(xv, den2, w, h) <= proj_sx(xv, den1, w, h),
        xv <= 0 ==> proj_sx(xv, den1, w, h) <= proj_sx(xv, den2, w, h) <= w / 2,
        yv <= 0 ==> h / 2 <= proj_sy(yv, den2, h) <= proj_sy(yv, den1, h),
        yv >= 0 ==> proj_sy(yv, den1, h) <= proj_sy(yv, den2, h) <= h / 2,
{
    if xv >= 0 {
        assert(xv * h >= 0) by (nonlinear_arith)
            requires
                xv >= 0,
                h > 0,
        ;
    } else {
        assert(xv * h <= 0) by (nonlinear_arith)
            requires
                xv <= 0,
                h > 0,
        ;
    }
    if yv >= 0 {
        assert(-yv * h <= 0) by (nonlinear_arith)
            requires
                yv >= 0,
                h > 0,
        ;
    } else {
        assert(-yv * h >= 0) by (nonlinear_arith)
            requires
                yv <= 0,
                h > 0,
        ;
    }
    lemma_zoom_core(xv * h, w, den1, den2);
    lemma_zoom_core(-yv * h, h, den1, den2);
}

/// The zoom ordering on the shared projection formula
/// `clamp(trunc((num + w*den) / (2*den)))`.
proof fn lemma_zoom_core(num: int, w: int, den1: int, den2: int)
    requires
        1 <= den1 <= den2,
        0 < w <= 65536,
        w % 2 == 0,
        0 <= num + w * den1,
    ensures
        num >= 0 ==> w / 2 <= clamp_s(
            -SCREEN_MAX as int,
            trunc_div(num + w * den2, 2 * den2),
            SCREEN_MAX as int,
        ) <= clamp_s(-SCREEN_MAX as int, trunc_div(num + w * den1, 2 * den1), SCREEN_MAX as int),
        num <= 0 ==> clamp_s(
            -SCREEN_MAX as int,
            trunc_div(num + w * den1, 2 * den1),
            SCREEN_MAX as int,
        ) <= clamp_s(-SCREEN_MAX as int, trunc_div(num + w * den2, 2 * den2), SCREEN_MAX as int)
            <= w / 2,
{
    assert(0 <= w * den1 <= w * den2) by (nonlinear_arith)
        requires
            0 < w,
            1 <= den1 <= den2,
    ;
    let a1 = num + w * den1;
    let a2 = num + w * den2;
    assert(0 <= a1 <= a2);
    assert(trunc_div(a1, 2 * den1) == a1 / (2 * den1) && trunc_div(a2, 2 * den2) == a2 / (2
        * den2));
    assert((w / 2) * (2 * den1) == w * den1 && (w / 2) * (2 * den2) == w * den2)
        by (nonlinear_arith)
        requires
            w == 2 * (w / 2),
    ;
    vstd::arithmetic::div_mod::lemma_hoist_over_denominator(num, w / 2, (2 * den1) as nat);
    vstd::arithmetic::div_mod::lemma_hoist_over_denominator(num, w / 2, (2 * den2) as nat);
    assert(a1 / (2 * den1) == num / (2 * den1) + w / 2);
    assert(a2 / (2 * den2) == num / (2 * den2) + w / 2);
    if num >= 0 {
        vstd::arithmetic::div_mod::lemma_div_is_ordered_by_denominator(num, 2 * den1, 2 * den2);
        vstd::arithmetic::div_mod::lemma_div_pos_is_pos(num, 2 * den1);
        vstd::arithmetic::div_mod::lemma_div_pos_is_pos(num, 2 * den2);
    } else {
        crate::fixed::lemma_div_neg_ordered_by_denominator(num, 2 * den1, 2 * den2);
        vstd::arithmetic::div_mod::lemma_div_is_ordered(num, 0, 2 * den1);
        vstd::arithmetic::div_mod::lemma_div_is_ordered(num, 0, 2 * den2);
        vstd::arithmetic::div_mod::lemma_div_of0(2 * den1);
        vstd::arithmetic::div_mod::lemma_div_of0(2 * den2);
    }
}

/// The red channel of a packed 0RGB colour.
pub open spec fn channel_r(c: u32) -> int {
    (c as int / 0x10000) % 0x100
}

/// The green channel of a packed 0RGB colour.
pub open spec fn channel_g(c: u32) -> int {
    (c as int / 0x100) % 0x100
}

/// The blue channel of a packed 0RGB colour.
pub open spec fn channel_b(c: u32) -> int {
    c as int % 0x100
}

/// Three 8-bit channels packed back into a 0RGB word.
pub open spec fn pack_rgb(r: int, g: int, b: int) -> int {
    r * 0x10000 + g * 0x100 + b
}

/// The colour with every channel multiplied by the fixed-point `scale`
/// and truncated toward zero.
pub open spec fn scaled_color(c: u32, scale: int) -> int {
    pack_rgb(
        (channel_r(c) * scale) / (FX_ONE as int),
        (channel_g(c) * scale) / (FX_ONE as int),
        (channel_b(c) * scale) / (FX_ONE as int),
    )
}

/// Scales each 8-bit channel of a packed 0RGB colour by a fixed-point
/// factor of at most one, truncating toward zero.
pub fn scale_color(color: u32, scale: i64) -> (r: u32)
    requires
        0 <= scale <= FX_ONE,
    ensures
        r == scaled_color(color, scale as int),
{
    let cr: u64 = ((color / 0x10000) % 0x100) as u64;
    let cg: u64 = ((color / 0x100) % 0x100) as u64;
    let cb: u64 = (color % 0x100) as u64;
    proof {
        lemma_channel_scale(cr as int, scale as int);
        lemma_channel_scale(cg as int, scale as int);
        lemma_channel_scale(cb as int, scale as int);
    }
    let sr: u64 = cr * (scale as u64) / (FX_ONE as u64);
    let sg: u64 = cg * (scale as u64) / (FX_ONE as u64);
    let sb: u64 = cb * (scale as u64) / (FX_ONE as u64);
    (sr * 0x10000 + sg * 0x100 + sb) as u32
}

/// A channel scaled by a factor of at most one stays an 8-bit value.
proof fn lemma_channel_scale(ch: int, scale: int)
    requires
        0 <= ch < 0x100,
        0 <= scale <= FX_ONE,
    ensures
        0 <= ch * scale <= 0xff * (FX_ONE as int),
        0 <= (ch * scale) / (FX_ONE as int) <= 0xff,
{
    let one = FX_ONE as int;
    assert(0 <= ch * scale <= 0xff * one) by (nonlinear_arith)
        requires
            0 <= ch <= 0xff,
            0 <= scale <= one,
    ;
    vstd::arithmetic::div_mod::lemma_div_pos_is_pos(ch * scale, one);
    vstd::arithmetic::div_mod::lemma_div_is_ordered(ch * scale, 0xff * one, one);
    assert(0xff * one == one * 0xff) by (nonlinear_arith);
    vstd::arithmetic::div_mod::lemma_div_multiples_vanish(0xff, one);
}

impl Renderer {
    /// Draws one world-space triangle: cull it if it faces away from the
    /// camera, shade its colour by the fixed directional light, clip it
    /// against the near plane, project the pieces, clip them against the
    /// screen borders, and rasterize each piece filled or as wireframe.
    /// Degenerate triangles (with a zero face normal) and pieces whose
    /// projection denominator is not positive are skipped silently.
    #[verifier::rlimit(100)]
    pub fn draw_triangle(
        &self,
        frame: &mut crate::raster::Frame,
        triangle: &Triangle,
        color: u32,
        fill: bool,
    )
        requires
            old(frame).wf(),
            self.camera.wf(),
            triangle.a.bounded(COORD_MAX as int),
            triangle.b.bounded(COORD_MAX as int),
            triangle.c.bounded(COORD_MAX as int),
        ensures
            final(frame).wf(),
            final(frame).width == old(frame).width,
            final(frame).height == old(frame).height,
            crate::raster::depth_progress(*old(frame), *final(frame)),
            exists|sh: int|
                #![trigger scaled_color(color, sh)]
                6554 <= sh <= 65536 && crate::raster::depth_monotone(
                    *old(frame),
                    *final(frame),
                    scaled_color(color, sh) as u32,
                ),
            face_degenerate(*triangle) ==> *final(frame) == *old(frame),
            face_culled(self.camera, *triangle) ==> *final(frame) == *old(frame),
            behind_near_plane(self.camera, triangle.a) && behind_near_plane(
                self.camera,
                triangle.b,
            ) && behind_near_plane(self.camera, triangle.c) ==> *final(frame) == *old(frame),
            (final(frame).buffer@, final(frame).depth_buffer@) == draw_tri_fun(
                (old(frame).buffer@, old(frame).depth_buffer@),
                self.camera,
                old(frame).width as int,
                old(frame).height as int,
                *triangle,
                color,
                fill,
            ),
    {
        let c_ray = self.camera.location.sub(&triangle.a);
        let p1 = triangle.b.sub(&triangle.a);
        let p2 = triangle.c.sub(&triangle.a);
        proof {
            lemma_pair_products(
                p1.x as int,
                p1.y as int,
                p1.z as int,
                p2.x as int,
                p2.y as int,
                p2.z as int,
                0x1000000000,
            );
            crate::fixed::lemma_fx_range(p1.y as int, p2.z as int, 0x100000000000000);
            crate::fixed::lemma_fx_range(p1.z as int, p2.y as int, 0x100000000000000);
            crate::fixed::lemma_fx_range(p1.z as int, p2.x as int, 0x100000000000000);
            crate::fixed::lemma_fx_range(p1.x as int, p2.z as int, 0x100000000000000);
            crate::fixed::lemma_fx_range(p1.x as int, p2.y as int, 0x100000000000000);
            crate::fixed::lemma_fx_range(p1.y as int, p2.x as int, 0x100000000000000);
        }
        let n_raw = p1.cross(&p2);
        proof {
            assert(n_raw.x == face_normal_x(*triangle) && n_raw.y == face_normal_y(*triangle)
                && n_raw.z == face_normal_z(*triangle));
        }
        if n_raw.x == 0 && n_raw.y == 0 && n_raw.z == 0 {
            // A zero-length face normal: degenerate geometry, nothing drawn.
            proof {
                assert(6554 <= 6554int <= 65536 && crate::raster::depth_monotone(
                    *frame,
                    *frame,
                    scaled_color(color, 6554int) as u32,
                ));
            }
            return ;
        }
        proof {
            assert(n_raw.norm2() > 0) by (nonlinear_arith)
                requires
                    !(n_raw.x == 0 && n_raw.y == 0 && n_raw.z == 0),
                    n_raw.norm2() == n_raw.x * n_raw.x + n_raw.y * n_raw.y + n_raw.z * n_raw.z,
            ;
        }
        let n_hat = n_raw.normalise();
        proof {
            lemma_pair_products(
                n_hat.x as int,
                n_hat.y as int,
                n_hat.z as int,
                c_ray.x as int,
                c_ray.y as int,
                c_ray.z as int,
                0x1000000000,
            );
        }
        let cull_dot: i64 = n_hat.dot(&c_ray);
        proof {
            assert(face_culled(self.camera, *triangle) <==> cull_dot > 0);
        }
        if cull_dot > 0 {
            // The camera is behind the face relative to its winding.
            proof {
                assert(6554 <= 6554int <= 65536 && crate::raster::depth_monotone(
                    *frame,
                    *frame,
                    scaled_color(color, 6554int) as u32,
                ));
            }
            return ;
        }
        let light = Vec3 { x: 0, y: -FX_ONE, z: FX_ONE };
        proof {
            assert(light.norm2() > 0) by (nonlinear_arith)
                requires
                    light.x == 0 && light.y == -65536 && light.z == 65536,
                    light.norm2() == light.x * light.x + light.y * light.y + light.z * light.z,
            ;
        }
        let light_hat = light.normalise();
        proof {
            lemma_pair_products(
                light_hat.x as int,
                light_hat.y as int,
                light_hat.z as int,
                n_hat.x as int,
                n_hat.y as int,
                n_hat.z as int,
                0x10000,
            );
            lemma_fx_mul_bound(light_hat.x as int, n_hat.x as int, 0x10000);
            lemma_fx_mul_bound(light_hat.y as int, n_hat.y as int, 0x10000);
            lemma_fx_mul_bound(light_hat.z as int, n_hat.z as int, 0x10000);
        }
        let lum: i64 = light_hat.dot(&n_hat);
        let shade: i64 = crate::fixed::clamp(6554, -lum, FX_ONE);
        let shaded: u32 = scale_color(color, shade);
        proof {
            assert(shaded == scaled_color(color, shade as int) as u32);
            assert(light.norm2() == 8589934592) by (nonlinear_arith)
                requires
                    light.x == 0 && light.y == -65536 && light.z == 65536,
                    light.norm2() == light.x * light.x + light.y * light.y + light.z * light.z,
            ;
            assert(shade == tri_shade(*triangle));
            assert(shaded == scaled_color(color, tri_shade(*triangle)) as u32);
        }
        let mut plane_n = Vec3 { x: 0, y: 0, z: FX_ONE };
        let angles = Rotation { x: self.camera.pitch, y: self.camera.yaw, z: Angle::zero() };
        proof {
            crate::camera::lemma_rotated_bounded(0, 0, FX_ONE as int, angles, FX_ONE as int);
        }
        self.rotate(&mut plane_n, &angles);
        proof {
            assert(-0x50000 * (FX_ONE as int) <= plane_n.x * (NEAR_DISTANCE as int) <= 0x50000 * (
            FX_ONE as int) && -0x50000 * (FX_ONE as int) <= plane_n.y * (NEAR_DISTANCE as int)
                <= 0x50000 * (FX_ONE as int) && -0x50000 * (FX_ONE as int) <= plane_n.z * (
            NEAR_DISTANCE as int) <= 0x50000 * (FX_ONE as int)) by (nonlinear_arith)
                requires
                    -0x50000 <= plane_n.x <= 0x50000,
                    -0x50000 <= plane_n.y <= 0x50000,
                    -0x50000 <= plane_n.z <= 0x50000,
                    NEAR_DISTANCE == 6554,
            ;
            crate::fixed::lemma_fx_range(plane_n.x as int, NEAR_DISTANCE as int, 0x50000);
            crate::fixed::lemma_fx_range(plane_n.y as int, NEAR_DISTANCE as int, 0x50000);
            crate::fixed::lemma_fx_range(plane_n.z as int, NEAR_DISTANCE as int, 0x50000);
        }
        let offset = plane_n.scale(NEAR_DISTANCE);
        let plane_p = self.camera.location.add(&offset);
        proof {
            assert(angles == near_rotation(self.camera));
            assert(plane_n.x == near_normal_x(self.camera) && plane_n.y == near_normal_y(
                self.camera,
            ) && plane_n.z == near_normal_z(self.camera));
            assert(plane_n == near_normal(self.camera));
            assert(plane_p == near_point(self.camera));
        }
        let (cnt, clipped) = crate::clip3::clip_against_plane(*triangle, plane_p, plane_n);
        proof {
            if behind_near_plane(self.camera, triangle.a) && behind_near_plane(
                self.camera,
                triangle.b,
            ) && behind_near_plane(self.camera, triangle.c) {
                assert(crate::clip3::side3(triangle.a, plane_p, plane_n) < 0);
                assert(crate::clip3::side3(triangle.b, plane_p, plane_n) < 0);
                assert(crate::clip3::side3(triangle.c, plane_p, plane_n) < 0);
                assert(cnt == 0);
            }
        }
        let ghost f0 = *frame;
        let ghost cp = crate::clip3::clip_tri3_spec(
            *triangle,
            near_point(self.camera),
            near_normal(self.camera),
        );
        proof {
            assert(cp.take(0) =~= Seq::<Triangle>::empty());
        }
        let mut i: usize = 0;
        while i < cnt
            invariant
                frame.wf(),
                frame.width == f0.width,
                frame.height == f0.height,
                crate::raster::depth_progress(f0, *frame),
                crate::raster::depth_monotone(f0, *frame, shaded),
                shaded == scaled_color(color, shade as int) as u32,
                6554 <= shade <= 65536,
                cnt == 0 ==> *frame == f0,
                self.camera.wf(),
                cnt <= 2,
                i <= cnt,
                cnt == cp.len(),
                cnt >= 1 ==> clipped[0] == cp[0],
                cnt == 2 ==> clipped[1] == cp[1],
                (frame.buffer@, frame.depth_buffer@) == pieces_fun(
                    (f0.buffer@, f0.depth_buffer@),
                    self.camera,
                    f0.width as int,
                    f0.height as int,
                    cp.take(i as int),
                    shaded,
                    fill,
                ),
                cnt >= 1 ==> crate::clip3::tri_in_hull3(clipped[0], *triangle),
                cnt == 2 ==> crate::clip3::tri_in_hull3(clipped[1], *triangle),
                triangle.a.bounded(COORD_MAX as int),
                triangle.b.bounded(COORD_MAX as int),
                triangle.c.bounded(COORD_MAX as int),
            decreases cnt - i,
        {
            let t3: Triangle = clipped[i];
            let ghost piece_entry = (frame.buffer@, frame.depth_buffer@);
            proof {
                assert(cp.take(i as int + 1).drop_last() =~= cp.take(i as int));
                assert(cp.take(i as int + 1).last() == cp[i as int]);
                assert(t3 == cp[i as int]);
            }
            let den_a: i64 = self.view_den_val(t3.a);
            let den_b: i64 = self.view_den_val(t3.b);
            let den_c: i64 = self.view_den_val(t3.c);
            if den_a >= 1 && den_b >= 1 && den_c >= 1 {
                let pa = self.project(frame.width, frame.height, t3.a);
                let pb = self.project(frame.width, frame.height, t3.b);
                let pc = self.project(frame.width, frame.height, t3.c);
                let t2 = crate::screen::TriangleScreen { a: pa, b: pb, c: pc };
                proof {
                    assert(pa == proj_corner(
                        self.camera,
                        t3.a,
                        f0.width as int,
                        f0.height as int,
                    ));
                    assert(pb == proj_corner(
                        self.camera,
                        t3.b,
                        f0.width as int,
                        f0.height as int,
                    ));
                    assert(pc == proj_corner(
                        self.camera,
                        t3.c,
                        f0.width as int,
                        f0.height as int,
                    ));
                }
                let list = crate::clip::clip_against_screen(t2, frame.width, frame.height);
                let mut j: usize = 0;
                proof {
                    assert(list@.take(0) =~= Seq::<crate::screen::TriangleScreen>::empty());
                }
                while j < list.len()
                    invariant
                        frame.wf(),
                        frame.width == f0.width,
                        frame.height == f0.height,
                        crate::raster::depth_progress(f0, *frame),
                        crate::raster::depth_monotone(f0, *frame, shaded),
                        j <= list.len(),
                        (frame.buffer@, frame.depth_buffer@) == crate::raster::raster_list_fun(
                            piece_entry,
                            f0.width as int,
                            f0.height as int,
                            list@.take(j as int),
                            shaded,
                            fill,
                        ),
                        t2.bounded(SCREEN_MAX as int, DEPTH_MAX as int),
                        forall|k: int|
                            0 <= k < list.len() ==> crate::clip::tri_in_hull2(
                                #[trigger] list@[k],
                                t2,
                            ),
                    decreases list.len() - j,
                {
                    let t = list[j];
                    let ghost before = *frame;
                    proof {
                        assert(list@.take(j as int + 1).drop_last() =~= list@.take(j as int));
                        assert(list@.take(j as int + 1).last() == list@[j as int]);
                    }
                    if fill {
                        crate::raster::triangle_fill(frame, &t, shaded);
                        proof {
                            crate::raster::lemma_tri_fill_fun(before, *frame, t, shaded);
                        }
                    } else {
                        crate::raster::draw_line(frame, t.a, t.b, shaded);
                        crate::raster::draw_line(frame, t.a, t.c, shaded);
                        crate::raster::draw_line(frame, t.b, t.c, shaded);
                    }
                    proof {
                        crate::raster::lemma_progress_trans(f0, before, *frame);
                        crate::raster::lemma_monotone_trans(f0, before, *frame, shaded);
                    }
                    j = j + 1;
                }
                proof {
                    assert(list@.take(list.len() as int) =~= list@);
                    assert((frame.buffer@, frame.depth_buffer@) == piece_fun(
                        piece_entry,
                        self.camera,
                        f0.width as int,
                        f0.height as int,
                        t3,
                        shaded,
                        fill,
                    ));
                }
            } else {
                proof {
                    assert((frame.buffer@, frame.depth_buffer@) == piece_fun(
                        piece_entry,
                        self.camera,
                        f0.width as int,
                        f0.height as int,
                        t3,
                        shaded,
                        fill,
                    ));
                }
            }
            i = i + 1;
        }
        proof {
            assert(cp.take(cnt as int) =~= cp);
            assert(!face_degenerate(*triangle) && !face_culled(self.camera, *triangle));
        }
    }

    /// Draws every polygon of the mesh, filled or wireframe as each
    /// polygon asks.
    pub fn draw_mesh(&self, frame: &mut crate::raster::Frame, mesh: &Mesh)
        requires
            old(frame).wf(),
            self.camera.wf(),
            mesh.bounded(COORD_MAX as int),
        ensures
            final(frame).wf(),
            final(frame).width == old(frame).width,
            final(frame).height == old(frame).height,
            crate::raster::depth_progress(*old(frame), *final(frame)),
            mesh.polygon_list.len() == 0 ==> *final(frame) == *old(frame),
            (final(frame).buffer@, final(frame).depth_buffer@) == draw_mesh_fun(
                (old(frame).buffer@, old(frame).depth_buffer@),
                self.camera,
                old(frame).width as int,
                old(frame).height as int,
                mesh.polygon_list@,
            ),
    {
        let ghost f0 = *frame;
        proof {
            assert(mesh.polygon_list@.take(0) =~= Seq::<Polygon>::empty());
        }
        let mut i: usize = 0;
        while i < mesh.polygon_list.len()
            invariant
                frame.wf(),
                frame.width == f0.width,
                frame.height == f0.height,
                crate::raster::depth_progress(f0, *frame),
                mesh.polygon_list.len() == 0 ==> *frame == f0,
                i <= mesh.polygon_list.len(),
                (frame.buffer@, frame.depth_buffer@) == draw_mesh_fun(
                    (f0.buffer@, f0.depth_buffer@),
                    self.camera,
                    f0.width as int,
                    f0.height as int,
                    mesh.polygon_list@.take(i as int),
                ),
                self.camera.wf(),
                mesh.bounded(COORD_MAX as int),
            decreases mesh.polygon_list.len() - i,
        {
            let p = &mesh.polygon_list[i];
            proof {
                assert(mesh.polygon_list@.take(i as int + 1).drop_last() =~= mesh.polygon_list@
                    .take(i as int));
                assert(mesh.polygon_list@.take(i as int + 1).last() == mesh.polygon_list@[
                    i as int]);
            }
            let ghost before = *frame;
            self.draw_triangle(frame, &p.triangle, p.color, p.fill);
            proof {
                crate::raster::lemma_progress_trans(f0, before, *frame);
            }
            i = i + 1;
        }
        proof {
            assert(mesh.polygon_list@.take(mesh.polygon_list.len() as int) =~= mesh
                .polygon_list@);
        }
    }
}

/// All pairwise coordinate products of two vectors bounded by `m` fit the
/// `product_ok` budget of `dot` and `cross`.
proof fn lemma_pair_products(ax: int, ay: int, az: int, bx: int, by: int, bz: int, m: int)
    requires
        0 <= m <= 0x1000000000,
        -m <= ax <= m && -m <= ay <= m && -m <= az <= m,
        -m <= bx <= m && -m <= by <= m && -m <= bz <= m,
    ensures
        crate::vec3::product_ok(ax, bx),
        crate::vec3::product_ok(ay, by),
        crate::vec3::product_ok(az, bz),
        crate::vec3::product_ok(ay, bz),
        crate::vec3::product_ok(az, by),
        crate::vec3::product_ok(az, bx),
        crate::vec3::product_ok(ax, bz),
        crate::vec3::product_ok(ax, by),
        crate::vec3::product_ok(ay, bx),
{
    lemma_prod_ok(ax, bx, m);
    lemma_prod_ok(ay, by, m);
    lemma_prod_ok(az, bz, m);
    lemma_prod_ok(ay, bz, m);
    lemma_prod_ok(az, by, m);
    lemma_prod_ok(az, bx, m);
    lemma_prod_ok(ax, bz, m);
    lemma_prod_ok(ax, by, m);
    lemma_prod_ok(ay, bx, m);
}

/// One coordinate product within the `product_ok` budget.
proof fn lemma_prod_ok(u: int, v: int, m: int)
    requires
        0 <= m <= 0x1000000000,
        -m <= u <= m,
        -m <= v <= m,
    ensures
        crate::vec3::product_ok(u, v),
{
    assert(-0x1000000000 * 0x1000000000 <= u * v <= 0x1000000000 * 0x1000000000)
        by (nonlinear_arith)
        requires
            -m <= u <= m && -m <= v <= m,
            0 <= m <= 0x1000000000,
    ;
    assert(0x1000000000 * 0x1000000000 <= 0x100000000000000 * (FX_ONE as int)
        && -0x100000000000000 * (FX_ONE as int) <= -0x1000000000 * 0x1000000000)
        by (nonlinear_arith);
}

/// The quotient of a value bounded by `bound * den` is bounded by
/// `bound`, whichever way the division truncates.
pub proof fn lemma_abs_div_bound(a: int, den: int, bound: int)
    requires
        0 < den,
        0 <= bound,
        -bound * den <= a <= bound * den,
    ensures
        -bound <= trunc_div(a, den) <= bound,
{
    assert((-bound) * den == -(bound * den) && bound * den == den * bound) by (nonlinear_arith);
    if a >= 0 {
        vstd::arithmetic::div_mod::lemma_div_is_ordered(a, bound * den, den);
        vstd::arithmetic::div_mod::lemma_div_multiples_vanish(bound, den);
        vstd::arithmetic::div_mod::lemma_div_pos_is_pos(a, den);
    } else {
        vstd::arithmetic::div_mod::lemma_div_is_ordered(-a, bound * den, den);
        vstd::arithmetic::div_mod::lemma_div_multiples_vanish(bound, den);
        vstd::arithmetic::div_mod::lemma_div_pos_is_pos(-a, den);
    }
}

/// Saturates a projected coordinate onto the addressable screen range.
fn saturate_screen(v: i128) -> (r: i64)
    ensures
        r == clamp_s(-SCREEN_MAX as int, v as int, SCREEN_MAX as int),
{
    if v < -(SCREEN_MAX as i128) {
        -SCREEN_MAX
    } else if v > SCREEN_MAX as i128 {
        SCREEN_MAX
    } else {
        v as i64
    }
}

} // verus!
