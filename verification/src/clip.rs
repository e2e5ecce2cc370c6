//! The generalized plane/line clipper.
//!
//! Both clipping stages use the same algorithm: classify the three corners
//! of a triangle against an oriented border (nonnegative side means
//! inside), then keep, split into two, shrink to one, or discard the
//! triangle according to how many corners fall outside.  Crossing points
//! are found by exact integer linear interpolation along the crossing
//! edge, each coordinate floored.

use vstd::prelude::*;
use crate::fixed::{
    div_floor_i128, floor_div, lemma_interp_in_range, DEPTH_MAX, FX_ONE, SCREEN_MAX,
};
use crate::screen::{TriangleScreen, VecScreen};
use vstd::arithmetic::div_mod::lemma_div_multiples_vanish;

verus! {

/// Greatest pixel-coordinate magnitude the 2D clipper admits (`4 * SCREEN_MAX`).
pub const CLIP_XY_MAX: i64 = 4194304;

/// Greatest depth magnitude the 2D clipper admits (`2 * DEPTH_MAX`).
pub const CLIP_D_MAX: i64 = 2251799813685248;

/// Signed classification of `v` against the border through `p` with
/// normal `n`: nonnegative means inside (on the kept half-plane).
pub open spec fn side2(v: VecScreen, p: VecScreen, n: VecScreen) -> int {
    (v.x - p.x) * n.x + (v.y - p.y) * n.y
}

/// The x coordinate of the crossing of segment `s -> e` with the border:
/// `s.x + floor((e.x - s.x) * t)` for `t = side(s) / (side(s) - side(e))`.
pub open spec fn isect2_x(s: VecScreen, e: VecScreen, p: VecScreen, n: VecScreen) -> int {
    s.x + floor_div((e.x - s.x) * side2(s, p, n), side2(s, p, n) - side2(e, p, n))
}

/// The y coordinate of the crossing of segment `s -> e` with the border.
pub open spec fn isect2_y(s: VecScreen, e: VecScreen, p: VecScreen, n: VecScreen) -> int {
    s.y + floor_div((e.y - s.y) * side2(s, p, n), side2(s, p, n) - side2(e, p, n))
}

/// The depth interpolated at the crossing of segment `s -> e`.
pub open spec fn isect2_d(s: VecScreen, e: VecScreen, p: VecScreen, n: VecScreen) -> int {
    s.depth + floor_div((e.depth - s.depth) * side2(s, p, n), side2(s, p, n) - side2(e, p, n))
}

/// `v` is exactly the interpolated crossing point of segment `s -> e`.
pub open spec fn is_isect2(
    v: VecScreen,
    s: VecScreen,
    e: VecScreen,
    p: VecScreen,
    n: VecScreen,
) -> bool {
    v.x == isect2_x(s, e, p, n) && v.y == isect2_y(s, e, p, n) && v.depth == isect2_d(s, e, p, n)
}

/// Each component of `v` lies between the least and greatest value that
/// component takes at the corners of `t`.
pub open spec fn in_hull2(v: VecScreen, t: TriangleScreen) -> bool {
    &&& min3(t.a.x as int, t.b.x as int, t.c.x as int) <= v.x <= max3(
        t.a.x as int,
        t.b.x as int,
        t.c.x as int,
    )
    &&& min3(t.a.y as int, t.b.y as int, t.c.y as int) <= v.y <= max3(
        t.a.y as int,
        t.b.y as int,
        t.c.y as int,
    )
    &&& min3(t.a.depth as int, t.b.depth as int, t.c.depth as int) <= v.depth <= max3(
        t.a.depth as int,
        t.b.depth as int,
        t.c.depth as int,
    )
}

/// All three corners of `u` lie in the componentwise hull of `t`.
pub open spec fn tri_in_hull2(u: TriangleScreen, t: TriangleScreen) -> bool {
    in_hull2(u.a, t) && in_hull2(u.b, t) && in_hull2(u.c, t)
}

/// All three corners of `u` are inside the border.
pub open spec fn tri_inside2(u: TriangleScreen, p: VecScreen, n: VecScreen) -> bool {
    side2(u.a, p, n) >= 0 && side2(u.b, p, n) >= 0 && side2(u.c, p, n) >= 0
}

/// The four screen borders use these normals: a unit step along one axis.
pub open spec fn axis_unit(n: VecScreen) -> bool {
    ||| (n.x == 1 && n.y == 0)
    ||| (n.x == -1 && n.y == 0)
    ||| (n.x == 0 && n.y == 1)
    ||| (n.x == 0 && n.y == -1)
}

pub open spec fn min3(a: int, b: int, c: int) -> int {
    if a <= b && a <= c {
        a
    } else if b <= c {
        b
    } else {
        c
    }
}

pub open spec fn max3(a: int, b: int, c: int) -> int {
    if a >= b && a >= c {
        a
    } else if b >= c {
        b
    } else {
        c
    }
}

/// Bounds under which the 2D clipper's arithmetic cannot overflow.
pub open spec fn clip2_in_ok(t: TriangleScreen, p: VecScreen, n: VecScreen) -> bool {
    &&& t.bounded(CLIP_XY_MAX as int, CLIP_D_MAX as int)
    &&& p.bounded(CLIP_XY_MAX as int, 0)
    &&& -FX_ONE <= n.x <= FX_ONE
    &&& -FX_ONE <= n.y <= FX_ONE
}

/// The crossing point of the segment from `s` (inside) to `e` (strictly
/// outside) with the border through `line_p` with normal `line_n`.
pub fn line_intersect(
    start: &VecScreen,
    end: &VecScreen,
    line_p: &VecScreen,
    line_n: &VecScreen,
) -> (r: VecScreen)
    requires
        side2(*start, *line_p, *line_n) >= 0,
        side2(*end, *line_p, *line_n) < 0,
        start.bounded(CLIP_XY_MAX as int, CLIP_D_MAX as int),
        end.bounded(CLIP_XY_MAX as int, CLIP_D_MAX as int),
        line_p.bounded(CLIP_XY_MAX as int, 0),
        -FX_ONE <= line_n.x <= FX_ONE,
        -FX_ONE <= line_n.y <= FX_ONE,
    ensures
        is_isect2(r, *start, *end, *line_p, *line_n),
        start.x <= r.x <= end.x || end.x <= r.x <= start.x,
        start.y <= r.y <= end.y || end.y <= r.y <= start.y,
        start.depth <= r.depth <= end.depth || end.depth <= r.depth <= start.depth,
{
    let num: i64 = side2_val(start, line_p, line_n);
    let side_e: i64 = side2_val(end, line_p, line_n);
    let den: i64 = num - side_e;
    assert(0 <= num < den);
    let dx: i128 = (end.x as i128) - (start.x as i128);
    let dy: i128 = (end.y as i128) - (start.y as i128);
    let dd: i128 = (end.depth as i128) - (start.depth as i128);
    proof {
        assert(-0x80000000000000000000 <= dx * num <= 0x80000000000000000000
            && -0x80000000000000000000 <= dy * num <= 0x80000000000000000000
            && -0x1000000000000000000000000 <= dd * num <= 0x1000000000000000000000000)
            by (nonlinear_arith)
            requires
                -0x1000000 <= dx <= 0x1000000,
                -0x1000000 <= dy <= 0x1000000,
                -0x10000000000000 <= dd <= 0x10000000000000,
                0 <= num <= 0x20000000000,
        ;
        lemma_interp_in_range(dx as int, num as int, den as int);
        lemma_interp_in_range(dy as int, num as int, den as int);
        lemma_interp_in_range(dd as int, num as int, den as int);
    }
    let qx: i128 = div_floor_i128(dx * (num as i128), den as i128);
    let qy: i128 = div_floor_i128(dy * (num as i128), den as i128);
    let qd: i128 = div_floor_i128(dd * (num as i128), den as i128);
    let r = VecScreen {
        x: ((start.x as i128) + qx) as i64,
        y: ((start.y as i128) + qy) as i64,
        depth: ((start.depth as i128) + qd) as i64,
    };
    r
}

/// The classification value itself, computed without overflow.
fn side2_val(v: &VecScreen, p: &VecScreen, n: &VecScreen) -> (r: i64)
    requires
        v.bounded(CLIP_XY_MAX as int, CLIP_D_MAX as int),
        p.bounded(CLIP_XY_MAX as int, 0),
        -FX_ONE <= n.x <= FX_ONE,
        -FX_ONE <= n.y <= FX_ONE,
    ensures
        r == side2(*v, *p, *n),
        -0x20000000000 <= r <= 0x20000000000,
{
    proof {
        assert(-0x10000000000 <= (v.x - p.x) * n.x <= 0x10000000000 && -0x10000000000 <= (v.y
            - p.y) * n.y <= 0x10000000000) by (nonlinear_arith)
            requires
                -0x800000 <= v.x - p.x <= 0x800000,
                -0x800000 <= v.y - p.y <= 0x800000,
                -0x10000 <= n.x <= 0x10000,
                -0x10000 <= n.y <= 0x10000,
        ;
    }
    let sx: i128 = ((v.x as i128) - (p.x as i128)) * (n.x as i128);
    let sy: i128 = ((v.y as i128) - (p.y as i128)) * (n.y as i128);
    (sx + sy) as i64
}

/// The interpolated crossing point of segment `s -> e`, as a value.
pub open spec fn isect2v(s: VecScreen, e: VecScreen, p: VecScreen, n: VecScreen) -> VecScreen {
    VecScreen {
        x: isect2_x(s, e, p, n) as i64,
        y: isect2_y(s, e, p, n) as i64,
        depth: isect2_d(s, e, p, n) as i64,
    }
}

/// The triangles one border clip yields, as a function of the input: the
/// same case analysis as `clip2_post`, with the crossing points taken as
/// values.
pub open spec fn clip_tri_spec(t: TriangleScreen, p: VecScreen, n: VecScreen) -> Seq<
    TriangleScreen,
> {
    let ia = side2(t.a, p, n) >= 0;
    let ib = side2(t.b, p, n) >= 0;
    let ic = side2(t.c, p, n) >= 0;
    if ia && ib && ic {
        seq![t]
    } else if !ia && !ib && !ic {
        Seq::<TriangleScreen>::empty()
    } else if !ia && ib && ic {
        let q1 = isect2v(t.b, t.a, p, n);
        let q2 = isect2v(t.c, t.a, p, n);
        seq![
            TriangleScreen { a: t.b, b: t.c, c: q1 },
            TriangleScreen { a: t.c, b: q1, c: q2 },
        ]
    } else if ia && !ib && ic {
        let q1 = isect2v(t.a, t.b, p, n);
        let q2 = isect2v(t.c, t.b, p, n);
        seq![
            TriangleScreen { a: t.a, b: t.c, c: q1 },
            TriangleScreen { a: t.c, b: q1, c: q2 },
        ]
    } else if ia && ib && !ic {
        let q1 = isect2v(t.a, t.c, p, n);
        let q2 = isect2v(t.b, t.c, p, n);
        seq![
            TriangleScreen { a: t.a, b: t.b, c: q1 },
            TriangleScreen { a: t.b, b: q1, c: q2 },
        ]
    } else if ia {
        seq![
            TriangleScreen {
                a: t.a,
                b: isect2v(t.a, t.b, p, n),
                c: isect2v(t.a, t.c, p, n),
            },
        ]
    } else if ib {
        seq![
            TriangleScreen {
                a: t.b,
                b: isect2v(t.b, t.a, p, n),
                c: isect2v(t.b, t.c, p, n),
            },
        ]
    } else {
        seq![
            TriangleScreen {
                a: t.c,
                b: isect2v(t.c, t.a, p, n),
                c: isect2v(t.c, t.b, p, n),
            },
        ]
    }
}

/// One clipping pass over a whole list: each triangle's clip results, in
/// list order.
pub open spec fn clip_pass(ts: Seq<TriangleScreen>, p: VecScreen, n: VecScreen) -> Seq<
    TriangleScreen,
>
    decreases ts.len(),
{
    if ts.len() == 0 {
        Seq::<TriangleScreen>::empty()
    } else {
        clip_pass(ts.drop_last(), p, n) + clip_tri_spec(ts.last(), p, n)
    }
}

/// A pass at most doubles the number of triangles.
pub proof fn lemma_clip_pass_len(ts: Seq<TriangleScreen>, p: VecScreen, n: VecScreen)
    ensures
        clip_pass(ts, p, n).len() <= 2 * ts.len(),
    decreases ts.len(),
{
    if ts.len() > 0 {
        lemma_clip_pass_len(ts.drop_last(), p, n);
    }
}

/// The exact outcome of clipping `t` against one border: the case is
/// chosen by which corners are inside, kept corners appear in `a, b, c`
/// order, and crossing points are the interpolated intersections.
pub open spec fn clip2_post(
    t: TriangleScreen,
    p: VecScreen,
    n: VecScreen,
    cnt: int,
    o0: TriangleScreen,
    o1: TriangleScreen,
) -> bool {
    let ia = side2(t.a, p, n) >= 0;
    let ib = side2(t.b, p, n) >= 0;
    let ic = side2(t.c, p, n) >= 0;
    &&& (ia && ib && ic) ==> (cnt == 1 && o0 == t)
    &&& (!ia && !ib && !ic) ==> cnt == 0
    &&& (!ia && ib && ic) ==> {
        &&& cnt == 2
        &&& o0.a == t.b && o0.b == t.c && is_isect2(o0.c, t.b, t.a, p, n)
        &&& o1.a == t.c && o1.b == o0.c && is_isect2(o1.c, t.c, t.a, p, n)
    }
    &&& (ia && !ib && ic) ==> {
        &&& cnt == 2
        &&& o0.a == t.a && o0.b == t.c && is_isect2(o0.c, t.a, t.b, p, n)
        &&& o1.a == t.c && o1.b == o0.c && is_isect2(o1.c, t.c, t.b, p, n)
    }
    &&& (ia && ib && !ic) ==> {
        &&& cnt == 2
        &&& o0.a == t.a && o0.b == t.b && is_isect2(o0.c, t.a, t.c, p, n)
        &&& o1.a == t.b && o1.b == o0.c && is_isect2(o1.c, t.b, t.c, p, n)
    }
    &&& (ia && !ib && !ic) ==> {
        &&& cnt == 1
        &&& o0.a == t.a && is_isect2(o0.b, t.a, t.b, p, n) && is_isect2(o0.c, t.a, t.c, p, n)
    }
    &&& (!ia && ib && !ic) ==> {
        &&& cnt == 1
        &&& o0.a == t.b && is_isect2(o0.b, t.b, t.a, p, n) && is_isect2(o0.c, t.b, t.c, p, n)
    }
    &&& (!ia && !ib && ic) ==> {
        &&& cnt == 1
        &&& o0.a == t.c && is_isect2(o0.b, t.c, t.a, p, n) && is_isect2(o0.c, t.c, t.b, p, n)
    }
}

/// Clips one screen-space triangle against one border, yielding zero, one
/// or two triangles.  A triangle wholly inside is returned unchanged; one
/// wholly outside is discarded.
#[verifier::rlimit(60)]
pub fn clip_against_line(
    triangle: TriangleScreen,
    line_p: VecScreen,
    line_n: VecScreen,
) -> (r: (usize, [TriangleScreen; 2]))
    requires
        clip2_in_ok(triangle, line_p, line_n),
    ensures
        0 <= r.0 <= 2,
        clip2_post(triangle, line_p, line_n, r.0 as int, r.1[0], r.1[1]),
        r.0 == clip_tri_spec(triangle, line_p, line_n).len(),
        r.0 >= 1 ==> r.1[0] == clip_tri_spec(triangle, line_p, line_n)[0],
        r.0 == 2 ==> r.1[1] == clip_tri_spec(triangle, line_p, line_n)[1],
        r.0 >= 1 ==> tri_in_hull2(r.1[0], triangle),
        r.0 == 2 ==> tri_in_hull2(r.1[1], triangle),
        axis_unit(line_n) ==> {
            &&& r.0 >= 1 ==> tri_inside2(r.1[0], line_p, line_n)
            &&& r.0 == 2 ==> tri_inside2(r.1[1], line_p, line_n)
        },
{
    let sa = side2_val(&triangle.a, &line_p, &line_n);
    let sb = side2_val(&triangle.b, &line_p, &line_n);
    let sc = side2_val(&triangle.c, &line_p, &line_n);
    let blank = TriangleScreen {
        a: VecScreen { x: 0, y: 0, depth: 0 },
        b: VecScreen { x: 0, y: 0, depth: 0 },
        c: VecScreen { x: 0, y: 0, depth: 0 },
    };
    if sa >= 0 && sb >= 0 && sc >= 0 {
        (1, [triangle, blank])
    } else if sa < 0 && sb < 0 && sc < 0 {
        (0, [blank, blank])
    } else if sa < 0 && sb >= 0 && sc >= 0 {
        let p1 = line_intersect(&triangle.b, &triangle.a, &line_p, &line_n);
        let p2 = line_intersect(&triangle.c, &triangle.a, &line_p, &line_n);
        proof {
            assert(p1 == isect2v(triangle.b, triangle.a, line_p, line_n));
            assert(p2 == isect2v(triangle.c, triangle.a, line_p, line_n));
            if axis_unit(line_n) {
                lemma_isect2_axis(p1, triangle.b, triangle.a, line_p, line_n);
                lemma_isect2_axis(p2, triangle.c, triangle.a, line_p, line_n);
            }
        }
        (
            2,
            [
                TriangleScreen { a: triangle.b, b: triangle.c, c: p1 },
                TriangleScreen { a: triangle.c, b: p1, c: p2 },
            ],
        )
    } else if sa >= 0 && sb < 0 && sc >= 0 {
        let p1 = line_intersect(&triangle.a, &triangle.b, &line_p, &line_n);
        let p2 = line_intersect(&triangle.c, &triangle.b, &line_p, &line_n);
        proof {
            assert(p1 == isect2v(triangle.a, triangle.b, line_p, line_n));
            assert(p2 == isect2v(triangle.c, triangle.b, line_p, line_n));
            if axis_unit(line_n) {
                lemma_isect2_axis(p1, triangle.a, triangle.b, line_p, line_n);
                lemma_isect2_axis(p2, triangle.c, triangle.b, line_p, line_n);
            }
        }
        (
            2,
            [
                TriangleScreen { a: triangle.a, b: triangle.c, c: p1 },
                TriangleScreen { a: triangle.c, b: p1, c: p2 },
            ],
        )
    } else if sa >= 0 && sb >= 0 && sc < 0 {
        let p1 = line_intersect(&triangle.a, &triangle.c, &line_p, &line_n);
        let p2 = line_intersect(&triangle.b, &triangle.c, &line_p, &line_n);
        proof {
            assert(p1 == isect2v(triangle.a, triangle.c, line_p, line_n));
            assert(p2 == isect2v(triangle.b, triangle.c, line_p, line_n));
            if axis_unit(line_n) {
                lemma_isect2_axis(p1, triangle.a, triangle.c, line_p, line_n);
                lemma_isect2_axis(p2, triangle.b, triangle.c, line_p, line_n);
            }
        }
        (
            2,
            [
                TriangleScreen { a: triangle.a, b: triangle.b, c: p1 },
                TriangleScreen { a: triangle.b, b: p1, c: p2 },
            ],
        )
    } else if sa >= 0 {
        let p1 = line_intersect(&triangle.a, &triangle.b, &line_p, &line_n);
        let p2 = line_intersect(&triangle.a, &triangle.c, &line_p, &line_n);
        proof {
            assert(p1 == isect2v(triangle.a, triangle.b, line_p, line_n));
            assert(p2 == isect2v(triangle.a, triangle.c, line_p, line_n));
            if axis_unit(line_n) {
                lemma_isect2_axis(p1, triangle.a, triangle.b, line_p, line_n);
                lemma_isect2_axis(p2, triangle.a, triangle.c, line_p, line_n);
            }
        }
        (1, [TriangleScreen { a: triangle.a, b: p1, c: p2 }, blank])
    } else if sb >= 0 {
        let p1 = line_intersect(&triangle.b, &triangle.a, &line_p, &line_n);
        let p2 = line_intersect(&triangle.b, &triangle.c, &line_p, &line_n);
        proof {
            assert(p1 == isect2v(triangle.b, triangle.a, line_p, line_n));
            assert(p2 == isect2v(triangle.b, triangle.c, line_p, line_n));
            if axis_unit(line_n) {
                lemma_isect2_axis(p1, triangle.b, triangle.a, line_p, line_n);
                lemma_isect2_axis(p2, triangle.b, triangle.c, line_p, line_n);
            }
        }
        (1, [TriangleScreen { a: triangle.b, b: p1, c: p2 }, blank])
    } else {
        let p1 = line_intersect(&triangle.c, &triangle.a, &line_p, &line_n);
        let p2 = line_intersect(&triangle.c, &triangle.b, &line_p, &line_n);
        proof {
            assert(p1 == isect2v(triangle.c, triangle.a, line_p, line_n));
            assert(p2 == isect2v(triangle.c, triangle.b, line_p, line_n));
            if axis_unit(line_n) {
                lemma_isect2_axis(p1, triangle.c, triangle.a, line_p, line_n);
                lemma_isect2_axis(p2, triangle.c, triangle.b, line_p, line_n);
            }
        }
        (1, [TriangleScreen { a: triangle.c, b: p1, c: p2 }, blank])
    }
}

/// A ghost interval box: the componentwise bounds a set of triangles is
/// known to stay within while the screen clip runs.
pub ghost struct ClipBox {
    pub x0: int,
    pub x1: int,
    pub y0: int,
    pub y1: int,
    pub d0: int,
    pub d1: int,
}

/// The box lies within the bounds the 2D clipper admits.
pub open spec fn box_ok(b: ClipBox) -> bool {
    &&& -CLIP_XY_MAX <= b.x0 <= CLIP_XY_MAX && -CLIP_XY_MAX <= b.x1 <= CLIP_XY_MAX
    &&& -CLIP_XY_MAX <= b.y0 <= CLIP_XY_MAX && -CLIP_XY_MAX <= b.y1 <= CLIP_XY_MAX
    &&& -CLIP_D_MAX <= b.d0 <= CLIP_D_MAX && -CLIP_D_MAX <= b.d1 <= CLIP_D_MAX
}

pub open spec fn in_box(v: VecScreen, b: ClipBox) -> bool {
    b.x0 <= v.x <= b.x1 && b.y0 <= v.y <= b.y1 && b.d0 <= v.depth <= b.d1
}

pub open spec fn tri_in_box(t: TriangleScreen, b: ClipBox) -> bool {
    in_box(t.a, b) && in_box(t.b, b) && in_box(t.c, b)
}

/// All three corners of `u` are strictly outside the border.
pub open spec fn tri_outside2(u: TriangleScreen, p: VecScreen, n: VecScreen) -> bool {
    side2(u.a, p, n) < 0 && side2(u.b, p, n) < 0 && side2(u.c, p, n) < 0
}

/// Clips every triangle of the list against one border, collecting all
/// results in order.  One pass of the screen clip.
fn clip_list_against_line(
    list: Vec<TriangleScreen>,
    line_p: VecScreen,
    line_n: VecScreen,
    b: Ghost<ClipBox>,
) -> (out: Vec<TriangleScreen>)
    requires
        axis_unit(line_n),
        line_p.bounded(CLIP_XY_MAX as int, 0),
        box_ok(b@),
        forall|i: int| 0 <= i < list.len() ==> tri_in_box(#[trigger] list@[i], b@),
    ensures
        out@ == clip_pass(list@, line_p, line_n),
        forall|i: int| 0 <= i < out.len() ==> tri_in_box(#[trigger] out@[i], b@),
        forall|i: int| 0 <= i < out.len() ==> tri_inside2(#[trigger] out@[i], line_p, line_n),
        (forall|i: int|
            0 <= i < list.len() ==> tri_inside2(#[trigger] list@[i], line_p, line_n)) ==> out@
            == list@,
        (forall|i: int|
            0 <= i < list.len() ==> tri_outside2(#[trigger] list@[i], line_p, line_n))
            ==> out.len() == 0,
{
    let ghost all_in = forall|i: int|
        0 <= i < list.len() ==> tri_inside2(#[trigger] list@[i], line_p, line_n);
    let ghost all_out = forall|i: int|
        0 <= i < list.len() ==> tri_outside2(#[trigger] list@[i], line_p, line_n);
    let mut out: Vec<TriangleScreen> = Vec::new();
    let mut k: usize = 0;
    while k < list.len()
        invariant
            k <= list.len(),
            axis_unit(line_n),
            line_p.bounded(CLIP_XY_MAX as int, 0),
            box_ok(b@),
            forall|i: int| 0 <= i < list.len() ==> tri_in_box(#[trigger] list@[i], b@),
            forall|i: int| 0 <= i < out.len() ==> tri_in_box(#[trigger] out@[i], b@),
            forall|i: int| 0 <= i < out.len() ==> tri_inside2(#[trigger] out@[i], line_p, line_n),
            all_in == (forall|i: int|
                0 <= i < list.len() ==> tri_inside2(#[trigger] list@[i], line_p, line_n)),
            all_out == (forall|i: int|
                0 <= i < list.len() ==> tri_outside2(#[trigger] list@[i], line_p, line_n)),
            all_in ==> out@ == list@.subrange(0, k as int),
            all_out ==> out.len() == 0,
            out@ == clip_pass(list@.take(k as int), line_p, line_n),
        decreases list.len() - k,
    {
        let t = list[k];
        assert(tri_in_box(t, b@));
        let (cnt, cl) = clip_against_line(t, line_p, line_n);
        let ghost out_before = out@;
        if cnt >= 1 {
            out.push(cl[0]);
        }
        if cnt == 2 {
            out.push(cl[1]);
        }
        proof {
            assert(list@.take(k as int + 1).drop_last() =~= list@.take(k as int));
            assert(list@.take(k as int + 1).last() == list@[k as int]);
            assert(out@ =~= out_before + clip_tri_spec(t, line_p, line_n));
            if all_in {
                assert(tri_inside2(list@[k as int], line_p, line_n));
                assert(cnt == 1 && cl[0] == t);
                assert(out@ =~= list@.subrange(0, k as int + 1));
            }
            if all_out {
                assert(tri_outside2(list@[k as int], line_p, line_n));
                assert(cnt == 0);
            }
        }
        k = k + 1;
    }
    proof {
        assert(list@.take(list.len() as int) =~= list@);
        if all_in {
            assert(list@.subrange(0, list.len() as int) =~= list@);
        }
    }
    out
}

/// All corners of `t` lie on the screen: `0 <= x <= w` and `0 <= y <= h`.
pub open spec fn tri_within_screen(t: TriangleScreen, w: int, h: int) -> bool {
    &&& 0 <= t.a.x <= w && 0 <= t.a.y <= h
    &&& 0 <= t.b.x <= w && 0 <= t.b.y <= h
    &&& 0 <= t.c.x <= w && 0 <= t.c.y <= h
}

/// Clips a projected triangle against the four screen borders, one border
/// after the other; clipping against one border can split a triangle, and
/// the pieces are then clipped against the remaining borders.  Every
/// triangle that comes out lies wholly on the screen, inside the
/// componentwise hull of the input.  A triangle already wholly on the
/// screen comes back alone and unchanged; one wholly beyond a single
/// border is discarded entirely.
#[verifier::rlimit(100)]
pub fn clip_against_screen(triangle: TriangleScreen, width: usize, height: usize) -> (out: Vec<
    TriangleScreen,
>)
    requires
        triangle.bounded(SCREEN_MAX as int, DEPTH_MAX as int),
        0 < width <= 65536,
        0 < height <= 65536,
    ensures
        out@ == clip_pass(
            clip_pass(
                clip_pass(
                    clip_pass(
                        seq![triangle],
                        VecScreen { x: 0, y: 0, depth: 0 },
                        VecScreen { x: 1, y: 0, depth: 0 },
                    ),
                    VecScreen { x: width as i64, y: 0, depth: 0 },
                    VecScreen { x: -1i64, y: 0, depth: 0 },
                ),
                VecScreen { x: 0, y: 0, depth: 0 },
                VecScreen { x: 0, y: 1, depth: 0 },
            ),
            VecScreen { x: 0, y: height as i64, depth: 0 },
            VecScreen { x: 0, y: -1i64, depth: 0 },
        ),
        out.len() <= 16,
        forall|i: int|
            0 <= i < out.len() ==> tri_within_screen(
                #[trigger] out@[i],
                width as int,
                height as int,
            ),
        forall|i: int| 0 <= i < out.len() ==> tri_in_hull2(#[trigger] out@[i], triangle),
        tri_within_screen(triangle, width as int, height as int) ==> out@ == seq![triangle],
        triangle.a.x < 0 && triangle.b.x < 0 && triangle.c.x < 0 ==> out.len() == 0,
        triangle.a.x > width && triangle.b.x > width && triangle.c.x > width ==> out.len() == 0,
        triangle.a.y < 0 && triangle.b.y < 0 && triangle.c.y < 0 ==> out.len() == 0,
        triangle.a.y > height && triangle.b.y > height && triangle.c.y > height ==> out.len()
            == 0,
{
    let w = width as i64;
    let h = height as i64;
    let ghost b0 = ClipBox {
        x0: min3(triangle.a.x as int, triangle.b.x as int, triangle.c.x as int),
        x1: max3(triangle.a.x as int, triangle.b.x as int, triangle.c.x as int),
        y0: min3(triangle.a.y as int, triangle.b.y as int, triangle.c.y as int),
        y1: max3(triangle.a.y as int, triangle.b.y as int, triangle.c.y as int),
        d0: min3(triangle.a.depth as int, triangle.b.depth as int, triangle.c.depth as int),
        d1: max3(triangle.a.depth as int, triangle.b.depth as int, triangle.c.depth as int),
    };
    let mut list: Vec<TriangleScreen> = Vec::new();
    list.push(triangle);
    let zero = VecScreen { x: 0, y: 0, depth: 0 };
    let left_n = VecScreen { x: 1, y: 0, depth: 0 };
    let right_p = VecScreen { x: w, y: 0, depth: 0 };
    let right_n = VecScreen { x: -1, y: 0, depth: 0 };
    let top_n = VecScreen { x: 0, y: 1, depth: 0 };
    let bottom_p = VecScreen { x: 0, y: h, depth: 0 };
    let bottom_n = VecScreen { x: 0, y: -1, depth: 0 };

    let l1 = clip_list_against_line(list, zero, left_n, Ghost(b0));
    let ghost b1 = ClipBox { x0: if b0.x0 >= 0 { b0.x0 } else { 0 }, ..b0 };
    assert forall|i: int| 0 <= i < l1.len() implies tri_in_box(#[trigger] l1@[i], b1) by {
        lemma_side2_axis_value(l1@[i].a, zero, left_n);
        lemma_side2_axis_value(l1@[i].b, zero, left_n);
        lemma_side2_axis_value(l1@[i].c, zero, left_n);
    };
    let l2 = clip_list_against_line(l1, right_p, right_n, Ghost(b1));
    let ghost b2 = ClipBox { x1: if b1.x1 <= w { b1.x1 } else { w as int }, ..b1 };
    assert forall|i: int| 0 <= i < l2.len() implies tri_in_box(#[trigger] l2@[i], b2) by {
        lemma_side2_axis_value(l2@[i].a, right_p, right_n);
        lemma_side2_axis_value(l2@[i].b, right_p, right_n);
        lemma_side2_axis_value(l2@[i].c, right_p, right_n);
    };
    let l3 = clip_list_against_line(l2, zero, top_n, Ghost(b2));
    let ghost b3 = ClipBox { y0: if b2.y0 >= 0 { b2.y0 } else { 0 }, ..b2 };
    assert forall|i: int| 0 <= i < l3.len() implies tri_in_box(#[trigger] l3@[i], b3) by {
        lemma_side2_axis_value(l3@[i].a, zero, top_n);
        lemma_side2_axis_value(l3@[i].b, zero, top_n);
        lemma_side2_axis_value(l3@[i].c, zero, top_n);
    };
    let l4 = clip_list_against_line(l3, bottom_p, bottom_n, Ghost(b3));
    proof {
        assert(list@ =~= seq![triangle]);
        lemma_clip_pass_len(list@, zero, left_n);
        lemma_clip_pass_len(l1@, right_p, right_n);
        lemma_clip_pass_len(l2@, zero, top_n);
        lemma_clip_pass_len(l3@, bottom_p, bottom_n);
    }
    let ghost b4 = ClipBox { y1: if b3.y1 <= h { b3.y1 } else { h as int }, ..b3 };
    assert forall|i: int| 0 <= i < l4.len() implies tri_in_box(#[trigger] l4@[i], b4) by {
        lemma_side2_axis_value(l4@[i].a, bottom_p, bottom_n);
        lemma_side2_axis_value(l4@[i].b, bottom_p, bottom_n);
        lemma_side2_axis_value(l4@[i].c, bottom_p, bottom_n);
    };
    proof {
        if tri_within_screen(triangle, width as int, height as int) {
            assert forall|i: int|
                0 <= i < list@.len() implies tri_inside2(
                #[trigger] list@[i],
                zero,
                left_n,
            ) by {
                lemma_side2_axis_value(list@[i].a, zero, left_n);
                lemma_side2_axis_value(list@[i].b, zero, left_n);
                lemma_side2_axis_value(list@[i].c, zero, left_n);
            };
            assert(l1@ == list@);
            assert forall|i: int|
                0 <= i < l1@.len() implies tri_inside2(#[trigger] l1@[i], right_p, right_n) by {
                lemma_side2_axis_value(l1@[i].a, right_p, right_n);
                lemma_side2_axis_value(l1@[i].b, right_p, right_n);
                lemma_side2_axis_value(l1@[i].c, right_p, right_n);
            };
            assert(l2@ == l1@);
            assert forall|i: int|
                0 <= i < l2@.len() implies tri_inside2(#[trigger] l2@[i], zero, top_n) by {
                lemma_side2_axis_value(l2@[i].a, zero, top_n);
                lemma_side2_axis_value(l2@[i].b, zero, top_n);
                lemma_side2_axis_value(l2@[i].c, zero, top_n);
            };
            assert(l3@ == l2@);
            assert forall|i: int|
                0 <= i < l3@.len() implies tri_inside2(
                #[trigger] l3@[i],
                bottom_p,
                bottom_n,
            ) by {
                lemma_side2_axis_value(l3@[i].a, bottom_p, bottom_n);
                lemma_side2_axis_value(l3@[i].b, bottom_p, bottom_n);
                lemma_side2_axis_value(l3@[i].c, bottom_p, bottom_n);
            };
            assert(l4@ == l3@);
            assert(l4@ =~= seq![triangle]);
        }
        if triangle.a.x < 0 && triangle.b.x < 0 && triangle.c.x < 0 {
            assert forall|i: int|
                0 <= i < list@.len() implies tri_outside2(
                #[trigger] list@[i],
                zero,
                left_n,
            ) by {
                lemma_side2_axis_value(list@[i].a, zero, left_n);
                lemma_side2_axis_value(list@[i].b, zero, left_n);
                lemma_side2_axis_value(list@[i].c, zero, left_n);
            };
            assert(l1.len() == 0);
            assert(l2.len() == 0 && l3.len() == 0 && l4.len() == 0);
        }
        if triangle.a.x > width && triangle.b.x > width && triangle.c.x > width {
            assert forall|i: int|
                0 <= i < l1@.len() implies tri_outside2(#[trigger] l1@[i], right_p, right_n) by {
                lemma_side2_axis_value(l1@[i].a, right_p, right_n);
                lemma_side2_axis_value(l1@[i].b, right_p, right_n);
                lemma_side2_axis_value(l1@[i].c, right_p, right_n);
            };
            assert(l2.len() == 0);
            assert(l3.len() == 0 && l4.len() == 0);
        }
        if triangle.a.y < 0 && triangle.b.y < 0 && triangle.c.y < 0 {
            assert forall|i: int|
                0 <= i < l2@.len() implies tri_outside2(#[trigger] l2@[i], zero, top_n) by {
                lemma_side2_axis_value(l2@[i].a, zero, top_n);
                lemma_side2_axis_value(l2@[i].b, zero, top_n);
                lemma_side2_axis_value(l2@[i].c, zero, top_n);
            };
            assert(l3.len() == 0);
            assert(l4.len() == 0);
        }
        if triangle.a.y > height && triangle.b.y > height && triangle.c.y > height {
            assert forall|i: int|
                0 <= i < l3@.len() implies tri_outside2(
                #[trigger] l3@[i],
                bottom_p,
                bottom_n,
            ) by {
                lemma_side2_axis_value(l3@[i].a, bottom_p, bottom_n);
                lemma_side2_axis_value(l3@[i].b, bottom_p, bottom_n);
                lemma_side2_axis_value(l3@[i].c, bottom_p, bottom_n);
            };
            assert(l4.len() == 0);
        }
    }
    l4
}


/// Twice the signed area of the triangle with the given corner
/// coordinates.
pub open spec fn area2i(ax: int, ay: int, bx: int, by: int, cx: int, cy: int) -> int {
    (bx - ax) * (cy - ay) - (cx - ax) * (by - ay)
}

/// Area conservation of a partial clip.  When one corner is cut off, the
/// clipper returns the triangles `(in0, in1, q1)` and `(in1, q1, q2)`,
/// and these two tile the quadrilateral `in0, in1, q2, q1` spanned by
/// the two kept corners and the two crossing points: the quadrilateral's
/// doubled signed area (split along the diagonal `in0 - q2`) equals the
/// difference of the outputs' signed areas, the second output winding
/// opposite to the first.  The identity holds whatever the four points
/// are, so it covers the crossing points exactly as the clipper rounds
/// them.
pub proof fn lemma_clip_areas_tile_quad(in0: VecScreen, in1: VecScreen, q1: VecScreen, q2: VecScreen)
    ensures
        area2i(in0.x as int, in0.y as int, in1.x as int, in1.y as int, q1.x as int, q1.y as int)
            - area2i(in1.x as int, in1.y as int, q1.x as int, q1.y as int, q2.x as int, q2.y as int)
            == area2i(in0.x as int, in0.y as int, in1.x as int, in1.y as int, q2.x as int, q2.y as int)
            + area2i(in0.x as int, in0.y as int, q2.x as int, q2.y as int, q1.x as int, q1.y as int),
{
    let ax = in0.x as int;
    let ay = in0.y as int;
    let bx = in1.x as int;
    let by = in1.y as int;
    let px = q1.x as int;
    let py = q1.y as int;
    let qx = q2.x as int;
    let qy = q2.y as int;
    assert((bx - ax) * (py - ay) - (px - ax) * (by - ay) - ((px - bx) * (qy - by) - (qx - bx) * (py
        - by)) == (bx - ax) * (qy - ay) - (qx - ax) * (by - ay) + ((qx - ax) * (py - ay) - (px
        - ax) * (qy - ay))) by (nonlinear_arith);
}

/// The value a classification takes against an axis-aligned border: the
/// signed distance along that axis.
pub proof fn lemma_side2_axis_value(v: VecScreen, p: VecScreen, n: VecScreen)
    requires
        axis_unit(n),
    ensures
        n.x == 1 && n.y == 0 ==> side2(v, p, n) == v.x - p.x,
        n.x == -1 && n.y == 0 ==> side2(v, p, n) == p.x - v.x,
        n.x == 0 && n.y == 1 ==> side2(v, p, n) == v.y - p.y,
        n.x == 0 && n.y == -1 ==> side2(v, p, n) == p.y - v.y,
{
    assert((n.x == 1 && n.y == 0 ==> (v.x - p.x) * n.x + (v.y - p.y) * n.y == v.x - p.x) && (n.x
        == -1 && n.y == 0 ==> (v.x - p.x) * n.x + (v.y - p.y) * n.y == p.x - v.x) && (n.x == 0
        && n.y == 1 ==> (v.x - p.x) * n.x + (v.y - p.y) * n.y == v.y - p.y) && (n.x == 0 && n.y
        == -1 ==> (v.x - p.x) * n.x + (v.y - p.y) * n.y == p.y - v.y)) by (nonlinear_arith);
}

/// When the border is axis-aligned, the crossing point lands exactly on
/// the border line: its classification is zero.
pub proof fn lemma_isect2_axis(v: VecScreen, s: VecScreen, e: VecScreen, p: VecScreen, n: VecScreen)
    requires
        side2(s, p, n) >= 0,
        side2(e, p, n) < 0,
        axis_unit(n),
        is_isect2(v, s, e, p, n),
    ensures
        side2(v, p, n) == 0,
{
    let num = side2(s, p, n);
    let den = side2(s, p, n) - side2(e, p, n);
    if n.x == 1 && n.y == 0 {
        assert(num == s.x - p.x && den == s.x - e.x) by (nonlinear_arith)
            requires
                num == (s.x - p.x) * n.x + (s.y - p.y) * n.y,
                den == num - ((e.x - p.x) * n.x + (e.y - p.y) * n.y),
                n.x == 1 && n.y == 0,
        ;
        assert((e.x - s.x) * num == den * (-num)) by (nonlinear_arith)
            requires
                num == s.x - p.x,
                den == s.x - e.x,
        ;
        lemma_div_multiples_vanish(-num, den);
        assert(v.x == p.x);
    } else if n.x == -1 && n.y == 0 {
        assert(num == p.x - s.x && den == e.x - s.x) by (nonlinear_arith)
            requires
                num == (s.x - p.x) * n.x + (s.y - p.y) * n.y,
                den == num - ((e.x - p.x) * n.x + (e.y - p.y) * n.y),
                n.x == -1 && n.y == 0,
        ;
        assert((e.x - s.x) * num == den * num) by (nonlinear_arith)
            requires
                den == e.x - s.x,
        ;
        lemma_div_multiples_vanish(num, den);
        assert(v.x == p.x);
    } else if n.x == 0 && n.y == 1 {
        assert(num == s.y - p.y && den == s.y - e.y) by (nonlinear_arith)
            requires
                num == (s.x - p.x) * n.x + (s.y - p.y) * n.y,
                den == num - ((e.x - p.x) * n.x + (e.y - p.y) * n.y),
                n.x == 0 && n.y == 1,
        ;
        assert((e.y - s.y) * num == den * (-num)) by (nonlinear_arith)
            requires
                num == s.y - p.y,
                den == s.y - e.y,
        ;
        lemma_div_multiples_vanish(-num, den);
        assert(v.y == p.y);
    } else {
        assert(num == p.y - s.y && den == e.y - s.y) by (nonlinear_arith)
            requires
                num == (s.x - p.x) * n.x + (s.y - p.y) * n.y,
                den == num - ((e.x - p.x) * n.x + (e.y - p.y) * n.y),
                n.x == 0 && n.y == -1,
        ;
        assert((e.y - s.y) * num == den * num) by (nonlinear_arith)
            requires
                den == e.y - s.y,
        ;
        lemma_div_multiples_vanish(num, den);
        assert(v.y == p.y);
    }
    assert(side2(v, p, n) == 0) by (nonlinear_arith)
        requires
            side2(v, p, n) == (v.x - p.x) * n.x + (v.y - p.y) * n.y,
            axis_unit(n),
            n.y == 0 ==> v.x == p.x,
            n.x == 0 ==> v.y == p.y,
            n.x == 0 || n.y == 0,
    ;
}

} // verus!
