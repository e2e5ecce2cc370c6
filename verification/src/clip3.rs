//! The near-plane clipping stage: the same generalized clip algorithm as
//! the screen clip, over world-space triangles against an arbitrary plane
//! given by a point and a normal.

use vstd::prelude::*;
use crate::fixed::{div_floor_i128, floor_div, lemma_interp_in_range};
use crate::vec3::{Triangle, Vec3};

verus! {

/// Greatest coordinate magnitude the plane clipper admits (2^46).
pub const CLIP3_MAX: i64 = 70368744177664;

/// Greatest plane-normal component magnitude the plane clipper admits (2^20).
pub const NORMAL3_MAX: i64 = 1048576;

/// Signed classification of `v` against the plane through `p` with normal
/// `n`: nonnegative means inside (on the kept half-space).
pub open spec fn side3(v: Vec3, p: Vec3, n: Vec3) -> int {
    (v.x - p.x) * n.x + (v.y - p.y) * n.y + (v.z - p.z) * n.z
}

pub open spec fn isect3_x(s: Vec3, e: Vec3, p: Vec3, n: Vec3) -> int {
    s.x + floor_div((e.x - s.x) * side3(s, p, n), side3(s, p, n) - side3(e, p, n))
}

pub open spec fn isect3_y(s: Vec3, e: Vec3, p: Vec3, n: Vec3) -> int {
    s.y + floor_div((e.y - s.y) * side3(s, p, n), side3(s, p, n) - side3(e, p, n))
}

pub open spec fn isect3_z(s: Vec3, e: Vec3, p: Vec3, n: Vec3) -> int {
    s.z + floor_div((e.z - s.z) * side3(s, p, n), side3(s, p, n) - side3(e, p, n))
}

/// `v` is exactly the interpolated crossing point of segment `s -> e`
/// with the plane.
pub open spec fn is_isect3(v: Vec3, s: Vec3, e: Vec3, p: Vec3, n: Vec3) -> bool {
    v.x == isect3_x(s, e, p, n) && v.y == isect3_y(s, e, p, n) && v.z == isect3_z(s, e, p, n)
}

pub open spec fn min3i(a: int, b: int, c: int) -> int {
    if a <= b && a <= c {
        a
    } else if b <= c {
        b
    } else {
        c
    }
}

pub open spec fn max3i(a: int, b: int, c: int) -> int {
    if a >= b && a >= c {
        a
    } else if b >= c {
        b
    } else {
        c
    }
}

/// Each coordinate of `v` lies between the least and greatest value that
/// coordinate takes at the corners of `t`.
pub open spec fn in_hull3(v: Vec3, t: Triangle) -> bool {
    &&& min3i(t.a.x as int, t.b.x as int, t.c.x as int) <= v.x <= max3i(
        t.a.x as int,
        t.b.x as int,
        t.c.x as int,
    )
    &&& min3i(t.a.y as int, t.b.y as int, t.c.y as int) <= v.y <= max3i(
        t.a.y as int,
        t.b.y as int,
        t.c.y as int,
    )
    &&& min3i(t.a.z as int, t.b.z as int, t.c.z as int) <= v.z <= max3i(
        t.a.z as int,
        t.b.z as int,
        t.c.z as int,
    )
}

pub open spec fn tri_in_hull3(u: Triangle, t: Triangle) -> bool {
    in_hull3(u.a, t) && in_hull3(u.b, t) && in_hull3(u.c, t)
}

/// Bounds under which the plane clipper's arithmetic cannot overflow.
pub open spec fn clip3_in_ok(t: Triangle, p: Vec3, n: Vec3) -> bool {
    &&& t.a.bounded(CLIP3_MAX as int) && t.b.bounded(CLIP3_MAX as int) && t.c.bounded(
        CLIP3_MAX as int,
    )
    &&& p.bounded(CLIP3_MAX as int)
    &&& n.bounded(NORMAL3_MAX as int)
}

/// The exact outcome of clipping `t` against the plane, by the same cases
/// as the screen clip.
pub open spec fn clip3_post(
    t: Triangle,
    p: Vec3,
    n: Vec3,
    cnt: int,
    o0: Triangle,
    o1: Triangle,
) -> bool {
    let ia = side3(t.a, p, n) >= 0;
    let ib = side3(t.b, p, n) >= 0;
    let ic = side3(t.c, p, n) >= 0;
    &&& (ia && ib && ic) ==> (cnt == 1 && o0 == t)
    &&& (!ia && !ib && !ic) ==> cnt == 0
    &&& (!ia && ib && ic) ==> {
        &&& cnt == 2
        &&& o0.a == t.b && o0.b == t.c && is_isect3(o0.c, t.b, t.a, p, n)
        &&& o1.a == t.c && o1.b == o0.c && is_isect3(o1.c, t.c, t.a, p, n)
    }
    &&& (ia && !ib && ic) ==> {
        &&& cnt == 2
        &&& o0.a == t.a && o0.b == t.c && is_isect3(o0.c, t.a, t.b, p, n)
        &&& o1.a == t.c && o1.b == o0.c && is_isect3(o1.c, t.c, t.b, p, n)
    }
    &&& (ia && ib && !ic) ==> {
        &&& cnt == 2
        &&& o0.a == t.a && o0.b == t.b && is_isect3(o0.c, t.a, t.c, p, n)
        &&& o1.a == t.b && o1.b == o0.c && is_isect3(o1.c, t.b, t.c, p, n)
    }
    &&& (ia && !ib && !ic) ==> {
        &&& cnt == 1
        &&& o0.a == t.a && is_isect3(o0.b, t.a, t.b, p, n) && is_isect3(o0.c, t.a, t.c, p, n)
    }
    &&& (!ia && ib && !ic) ==> {
        &&& cnt == 1
        &&& o0.a == t.b && is_isect3(o0.b, t.b, t.a, p, n) && is_isect3(o0.c, t.b, t.c, p, n)
    }
    &&& (!ia && !ib && ic) ==> {
        &&& cnt == 1
        &&& o0.a == t.c && is_isect3(o0.b, t.c, t.a, p, n) && is_isect3(o0.c, t.c, t.b, p, n)
    }
}

/// The interpolated crossing point of segment `s -> e`, as a value.
pub open spec fn isect3v(s: Vec3, e: Vec3, p: Vec3, n: Vec3) -> Vec3 {
    Vec3 {
        x: isect3_x(s, e, p, n) as i64,
        y: isect3_y(s, e, p, n) as i64,
        z: isect3_z(s, e, p, n) as i64,
    }
}

/// The triangles one plane clip yields, as a function of the input: the
/// same case analysis as `clip3_post`, with the crossing points taken as
/// values.
pub open spec fn clip_tri3_spec(t: Triangle, p: Vec3, n: Vec3) -> Seq<Triangle> {
    let ia = side3(t.a, p, n) >= 0;
    let ib = side3(t.b, p, n) >= 0;
    let ic = side3(t.c, p, n) >= 0;
    if ia && ib && ic {
        seq![t]
    } else if !ia && !ib && !ic {
        Seq::<Triangle>::empty()
    } else if !ia && ib && ic {
        let q1 = isect3v(t.b, t.a, p, n);
        let q2 = isect3v(t.c, t.a, p, n);
        seq![Triangle { a: t.b, b: t.c, c: q1 }, Triangle { a: t.c, b: q1, c: q2 }]
    } else if ia && !ib && ic {
        let q1 = isect3v(t.a, t.b, p, n);
        let q2 = isect3v(t.c, t.b, p, n);
        seq![Triangle { a: t.a, b: t.c, c: q1 }, Triangle { a: t.c, b: q1, c: q2 }]
    } else if ia && ib && !ic {
        let q1 = isect3v(t.a, t.c, p, n);
        let q2 = isect3v(t.b, t.c, p, n);
        seq![Triangle { a: t.a, b: t.b, c: q1 }, Triangle { a: t.b, b: q1, c: q2 }]
    } else if ia {
        seq![
            Triangle { a: t.a, b: isect3v(t.a, t.b, p, n), c: isect3v(t.a, t.c, p, n) },
        ]
    } else if ib {
        seq![
            Triangle { a: t.b, b: isect3v(t.b, t.a, p, n), c: isect3v(t.b, t.c, p, n) },
        ]
    } else {
        seq![
            Triangle { a: t.c, b: isect3v(t.c, t.a, p, n), c: isect3v(t.c, t.b, p, n) },
        ]
    }
}

/// The classification value, computed without overflow.
fn side3_val(v: &Vec3, p: &Vec3, n: &Vec3) -> (r: i128)
    requires
        v.bounded(CLIP3_MAX as int),
        p.bounded(CLIP3_MAX as int),
        n.bounded(NORMAL3_MAX as int),
    ensures
        r == side3(*v, *p, *n),
        -0x2000000000000000000 <= r <= 0x2000000000000000000,
{
    proof {
        assert(-0x800000000000000000 <= (v.x - p.x) * n.x <= 0x800000000000000000
            && -0x800000000000000000 <= (v.y - p.y) * n.y <= 0x800000000000000000
            && -0x800000000000000000 <= (v.z - p.z) * n.z <= 0x800000000000000000)
            by (nonlinear_arith)
            requires
                -0x800000000000 <= v.x - p.x <= 0x800000000000,
                -0x800000000000 <= v.y - p.y <= 0x800000000000,
                -0x800000000000 <= v.z - p.z <= 0x800000000000,
                -0x100000 <= n.x <= 0x100000,
                -0x100000 <= n.y <= 0x100000,
                -0x100000 <= n.z <= 0x100000,
        ;
    }
    let sx: i128 = ((v.x as i128) - (p.x as i128)) * (n.x as i128);
    let sy: i128 = ((v.y as i128) - (p.y as i128)) * (n.y as i128);
    let sz: i128 = ((v.z as i128) - (p.z as i128)) * (n.z as i128);
    sx + sy + sz
}

/// The crossing point of the segment from `s` (inside) to `e` (strictly
/// outside) with the plane through `plane_p` with normal `plane_n`.
pub fn line_intersect_plane(start: &Vec3, end: &Vec3, plane_p: &Vec3, plane_n: &Vec3) -> (r: Vec3)
    requires
        side3(*start, *plane_p, *plane_n) >= 0,
        side3(*end, *plane_p, *plane_n) < 0,
        start.bounded(CLIP3_MAX as int),
        end.bounded(CLIP3_MAX as int),
        plane_p.bounded(CLIP3_MAX as int),
        plane_n.bounded(NORMAL3_MAX as int),
    ensures
        is_isect3(r, *start, *end, *plane_p, *plane_n),
        start.x <= r.x <= end.x || end.x <= r.x <= start.x,
        start.y <= r.y <= end.y || end.y <= r.y <= start.y,
        start.z <= r.z <= end.z || end.z <= r.z <= start.z,
{
    let num: i128 = side3_val(start, plane_p, plane_n);
    let side_e: i128 = side3_val(end, plane_p, plane_n);
    let den: i128 = num - side_e;
    assert(0 <= num < den);
    let dx: i128 = (end.x as i128) - (start.x as i128);
    let dy: i128 = (end.y as i128) - (start.y as i128);
    let dz: i128 = (end.z as i128) - (start.z as i128);
    proof {
        assert(-0x8000000000000000000000000000000 <= dx * num <= 0x8000000000000000000000000000000
            && -0x8000000000000000000000000000000 <= dy * num
            <= 0x8000000000000000000000000000000 && -0x8000000000000000000000000000000 <= dz * num
            <= 0x8000000000000000000000000000000) by (nonlinear_arith)
            requires
                -0x1000000000000 <= dx <= 0x1000000000000,
                -0x1000000000000 <= dy <= 0x1000000000000,
                -0x1000000000000 <= dz <= 0x1000000000000,
                0 <= num <= 0x2000000000000000000,
        ;
        lemma_interp_in_range(dx as int, num as int, den as int);
        lemma_interp_in_range(dy as int, num as int, den as int);
        lemma_interp_in_range(dz as int, num as int, den as int);
    }
    let qx: i128 = div_floor_i128(dx * num, den);
    let qy: i128 = div_floor_i128(dy * num, den);
    let qz: i128 = div_floor_i128(dz * num, den);
    Vec3 {
        x: ((start.x as i128) + qx) as i64,
        y: ((start.y as i128) + qy) as i64,
        z: ((start.z as i128) + qz) as i64,
    }
}

/// Clips a world-space triangle against the camera's near plane, yielding
/// zero, one or two triangles.  A triangle wholly inside the kept
/// half-space is returned unchanged; one wholly outside is discarded.
pub fn clip_against_plane(triangle: Triangle, line_p: Vec3, line_n: Vec3) -> (r: (
    usize,
    [Triangle; 2],
))
    requires
        clip3_in_ok(triangle, line_p, line_n),
    ensures
        0 <= r.0 <= 2,
        clip3_post(triangle, line_p, line_n, r.0 as int, r.1[0], r.1[1]),
        r.0 == clip_tri3_spec(triangle, line_p, line_n).len(),
        r.0 >= 1 ==> r.1[0] == clip_tri3_spec(triangle, line_p, line_n)[0],
        r.0 == 2 ==> r.1[1] == clip_tri3_spec(triangle, line_p, line_n)[1],
        r.0 >= 1 ==> tri_in_hull3(r.1[0], triangle),
        r.0 == 2 ==> tri_in_hull3(r.1[1], triangle),
{
    let sa = side3_val(&triangle.a, &line_p, &line_n);
    let sb = side3_val(&triangle.b, &line_p, &line_n);
    let sc = side3_val(&triangle.c, &line_p, &line_n);
    let blank = Triangle {
        a: Vec3 { x: 0, y: 0, z: 0 },
        b: Vec3 { x: 0, y: 0, z: 0 },
        c: Vec3 { x: 0, y: 0, z: 0 },
    };
    if sa >= 0 && sb >= 0 && sc >= 0 {
        (1, [triangle, blank])
    } else if sa < 0 && sb < 0 && sc < 0 {
        (0, [blank, blank])
    } else if sa < 0 && sb >= 0 && sc >= 0 {
        let p1 = line_intersect_plane(&triangle.b, &triangle.a, &line_p, &line_n);
        let p2 = line_intersect_plane(&triangle.c, &triangle.a, &line_p, &line_n);
        (
            2,
            [
                Triangle { a: triangle.b, b: triangle.c, c: p1 },
                Triangle { a: triangle.c, b: p1, c: p2 },
            ],
        )
    } else if sa >= 0 && sb < 0 && sc >= 0 {
        let p1 = line_intersect_plane(&triangle.a, &triangle.b, &line_p, &line_n);
        let p2 = line_intersect_plane(&triangle.c, &triangle.b, &line_p, &line_n);
        (
            2,
            [
                Triangle { a: triangle.a, b: triangle.c, c: p1 },
                Triangle { a: triangle.c, b: p1, c: p2 },
            ],
        )
    } else if sa >= 0 && sb >= 0 && sc < 0 {
        let p1 = line_intersect_plane(&triangle.a, &triangle.c, &line_p, &line_n);
        let p2 = line_intersect_plane(&triangle.b, &triangle.c, &line_p, &line_n);
        (
            2,
            [
                Triangle { a: triangle.a, b: triangle.b, c: p1 },
                Triangle { a: triangle.b, b: p1, c: p2 },
            ],
        )
    } else if sa >= 0 {
        let p1 = line_intersect_plane(&triangle.a, &triangle.b, &line_p, &line_n);
        let p2 = line_intersect_plane(&triangle.a, &triangle.c, &line_p, &line_n);
        (1, [Triangle { a: triangle.a, b: p1, c: p2 }, blank])
    } else if sb >= 0 {
        let p1 = line_intersect_plane(&triangle.b, &triangle.a, &line_p, &line_n);
        let p2 = line_intersect_plane(&triangle.b, &triangle.c, &line_p, &line_n);
        (1, [Triangle { a: triangle.b, b: p1, c: p2 }, blank])
    } else {
        let p1 = line_intersect_plane(&triangle.c, &triangle.a, &line_p, &line_n);
        let p2 = line_intersect_plane(&triangle.c, &triangle.b, &line_p, &line_n);
        (1, [Triangle { a: triangle.c, b: p1, c: p2 }, blank])
    }
}

} // verus!
