//! Vector arithmetic, clipping, and asset parsing, on concrete values.

use cube::clip::{clip_against_line, clip_against_screen, line_intersect};
use cube::clip3::clip_against_plane;
use cube::fixed::{clamp, fx_mul, isqrt, FX_ONE};
use cube::mesh::Mesh;
use cube::obj::ObjError;
use cube::screen::{TriangleScreen, VecScreen};
use cube::vec3::{Triangle, Vec3};

fn sv(x: i64, y: i64, depth: i64) -> VecScreen {
    VecScreen { x, y, depth }
}

fn v3(x: i64, y: i64, z: i64) -> Vec3 {
    Vec3 { x, y, z }
}

#[test]
fn fx_mul_floors_toward_negative() {
    assert_eq!(fx_mul(FX_ONE, FX_ONE), FX_ONE);
    assert_eq!(fx_mul(FX_ONE / 2, FX_ONE / 2), FX_ONE / 4);
    assert_eq!(fx_mul(3, 3), 0);
    assert_eq!(fx_mul(-1, 1), -1); // floor(-1/65536) == -1
}

#[test]
fn isqrt_exact_and_floored() {
    assert_eq!(isqrt(0), 0);
    assert_eq!(isqrt(1), 1);
    assert_eq!(isqrt(15), 3);
    assert_eq!(isqrt(16), 4);
    assert_eq!(isqrt(65536 * 65536), 65536);
}

#[test]
fn clamp_picks_nearest_bound() {
    assert_eq!(clamp(0, -5, 10), 0);
    assert_eq!(clamp(0, 5, 10), 5);
    assert_eq!(clamp(0, 15, 10), 10);
}

#[test]
fn vec3_length_of_three_four_five() {
    let v = v3(3 * FX_ONE, 4 * FX_ONE, 0);
    assert_eq!(v.length(), 5 * FX_ONE);
    let n = v.normalise();
    assert_eq!(n, v3(39321, 52428, 0));
}

#[test]
fn vec3_cross_of_axes() {
    let x = v3(FX_ONE, 0, 0);
    let y = v3(0, FX_ONE, 0);
    assert_eq!(x.cross(&y), v3(0, 0, FX_ONE));
    assert_eq!(y.cross(&x), v3(0, 0, -FX_ONE));
}

#[test]
fn line_intersect_lands_on_border() {
    // Segment from (2,2) inside to (-2,0) outside the left border.
    let r = line_intersect(&sv(2, 2, 8), &sv(-2, 0, 0), &sv(0, 0, 0), &sv(1, 0, 0));
    assert_eq!(r, sv(0, 1, 4));
}

#[test]
fn clip_keeps_inside_triangle_unchanged() {
    // All three corners inside the left border: identity.
    let t = TriangleScreen { a: sv(1, 1, 0), b: sv(5, 2, 0), c: sv(3, 7, 0) };
    let (n, out) = clip_against_line(t, sv(0, 0, 0), sv(1, 0, 0));
    assert_eq!(n, 1);
    assert_eq!(out[0], t);
}

#[test]
fn clip_discards_outside_triangle() {
    let t = TriangleScreen { a: sv(-1, 1, 0), b: sv(-5, 2, 0), c: sv(-3, 7, 0) };
    let (n, _) = clip_against_line(t, sv(0, 0, 0), sv(1, 0, 0));
    assert_eq!(n, 0);
}

#[test]
fn clip_one_corner_outside_splits_in_two() {
    let a = sv(-2, 0, 0);
    let b = sv(2, 2, 8);
    let c = sv(2, -2, 8);
    let t = TriangleScreen { a, b, c };
    let (n, out) = clip_against_line(t, sv(0, 0, 0), sv(1, 0, 0));
    assert_eq!(n, 2);
    let p1 = sv(0, 1, 4);
    let p2 = sv(0, -1, 4);
    assert_eq!(out[0], TriangleScreen { a: b, b: c, c: p1 });
    assert_eq!(out[1], TriangleScreen { a: c, b: p1, c: p2 });
}

#[test]
fn clip_two_corners_outside_shrinks_to_one() {
    let a = sv(2, 0, 8);
    let b = sv(-2, 2, 0);
    let c = sv(-2, -2, 0);
    let t = TriangleScreen { a, b, c };
    let (n, out) = clip_against_line(t, sv(0, 0, 0), sv(1, 0, 0));
    assert_eq!(n, 1);
    assert_eq!(out[0], TriangleScreen { a, b: sv(0, 1, 4), c: sv(0, -1, 4) });
}

fn area2(a: VecScreen, b: VecScreen, c: VecScreen) -> i64 {
    (b.x - a.x) * (c.y - a.y) - (c.x - a.x) * (b.y - a.y)
}

fn inside_tri(p: (i64, i64), t: &TriangleScreen) -> bool {
    let q = VecScreen { x: p.0, y: p.1, depth: 0 };
    let s1 = area2(t.a, t.b, q);
    let s2 = area2(t.b, t.c, q);
    let s3 = area2(t.c, t.a, q);
    (s1 >= 0 && s2 >= 0 && s3 >= 0) || (s1 <= 0 && s2 <= 0 && s3 <= 0)
}

#[test]
fn partial_clip_conserves_area() {
    // One corner cut off: the outputs tile the kept quadrilateral.
    let a = sv(-4, 0, 0);
    let b = sv(4, 4, 0);
    let c = sv(4, -4, 0);
    let t = TriangleScreen { a, b, c };
    let (n, out) = clip_against_line(t, sv(0, 0, 0), sv(1, 0, 0));
    assert_eq!(n, 2);
    // Exact doubled-area identity of the quad split along both diagonals.
    let p1 = out[0].c;
    let p2 = out[1].c;
    let sum_outputs = area2(b, c, p1) - area2(c, p1, p2);
    let quad = area2(b, c, p2) + area2(b, p2, p1);
    assert_eq!(sum_outputs, quad);
    // Sampled points: a point is in the kept half of the input triangle
    // iff it is in one of the outputs.
    let mut seed: u64 = 0x2545f4914f6cdd1d;
    for _ in 0..2000 {
        seed = seed.wrapping_mul(6364136223846793005).wrapping_add(1442695040888963407);
        let px = ((seed >> 33) % 11) as i64 - 5;
        let py = ((seed >> 13) % 11) as i64 - 5;
        let in_kept = inside_tri((px, py), &t) && px >= 0;
        let in_outputs = inside_tri((px, py), &out[0]) || inside_tri((px, py), &out[1]);
        assert_eq!(in_kept, in_outputs, "point ({}, {})", px, py);
    }
}

#[test]
fn screen_clip_keeps_inside_triangle() {
    let t = TriangleScreen { a: sv(10, 10, 5), b: sv(100, 20, 5), c: sv(50, 200, 5) };
    let out = clip_against_screen(t, 800, 600);
    assert_eq!(out.len(), 1);
    assert_eq!(out[0], t);
}

#[test]
fn screen_clip_discards_offscreen_triangle() {
    let t = TriangleScreen { a: sv(-10, 10, 5), b: sv(-100, 20, 5), c: sv(-50, 200, 5) };
    assert_eq!(clip_against_screen(t, 800, 600).len(), 0);
    let u = TriangleScreen { a: sv(10, 700, 5), b: sv(100, 900, 5), c: sv(50, 601, 5) };
    assert_eq!(clip_against_screen(u, 800, 600).len(), 0);
}

#[test]
fn screen_clip_output_is_on_screen() {
    let t = TriangleScreen {
        a: sv(-100, -50, 1),
        b: sv(900, 300, 9),
        c: sv(400, 700, 5),
    };
    let out = clip_against_screen(t, 800, 600);
    assert!(out.len() >= 1);
    for piece in out.iter() {
        for corner in [piece.a, piece.b, piece.c] {
            assert!(0 <= corner.x && corner.x <= 800);
            assert!(0 <= corner.y && corner.y <= 600);
        }
    }
}

#[test]
fn plane_clip_keeps_and_discards() {
    let t = Triangle {
        a: v3(0, 0, 3 * FX_ONE),
        b: v3(FX_ONE, 0, 3 * FX_ONE),
        c: v3(0, FX_ONE, 3 * FX_ONE),
    };
    let plane_p = v3(0, 0, FX_ONE / 10);
    let plane_n = v3(0, 0, FX_ONE);
    let (n, out) = clip_against_plane(t, plane_p, plane_n);
    assert_eq!(n, 1);
    assert_eq!(out[0], t);
    let behind = Triangle {
        a: v3(0, 0, -FX_ONE),
        b: v3(FX_ONE, 0, -FX_ONE),
        c: v3(0, FX_ONE, -FX_ONE),
    };
    let (n2, _) = clip_against_plane(behind, plane_p, plane_n);
    assert_eq!(n2, 0);
}

#[test]
fn plane_clip_splits_crossing_triangle() {
    // One corner behind the z=0 plane.
    let a = v3(0, 0, -2 * FX_ONE);
    let b = v3(FX_ONE, 0, 2 * FX_ONE);
    let c = v3(-FX_ONE, 0, 2 * FX_ONE);
    let (n, out) = clip_against_plane(Triangle { a, b, c }, v3(0, 0, 0), v3(0, 0, FX_ONE));
    assert_eq!(n, 2);
    // Crossing points lie on the plane, halfway along each edge.
    assert_eq!(out[0].c, v3(FX_ONE / 2, 0, 0));
    assert_eq!(out[1].c, v3(-FX_ONE / 2, 0, 0));
}

#[test]
fn obj_parses_vertices_and_faces() {
    let text = b"# comment\nv 1.5 -2 0.25\nv 0 0 1\nv 1 0 1\nf 1 2 3\n".to_vec();
    let m = Mesh::from_object_text(&text).unwrap();
    assert_eq!(m.polygon_list.len(), 1);
    let t = m.polygon_list[0].triangle;
    assert_eq!(t.a, v3(98304, -131072, 16384));
    assert_eq!(t.b, v3(0, 0, 65536));
    assert_eq!(t.c, v3(65536, 0, 65536));
    assert_eq!(m.polygon_list[0].color, 0xffffffff);
    assert!(m.polygon_list[0].fill);
    assert!(m.texture.is_none());
}

#[test]
fn obj_parses_texture_indices() {
    let text = b"v 0 0 1\nv 1 0 1\nv 0 1 1\nvt 0.5 0.5\nf 1/1 2/1 3/1\n".to_vec();
    let m = Mesh::from_object_text(&text).unwrap();
    assert_eq!(m.polygon_list.len(), 1);
    assert_eq!(m.polygon_list[0].triangle_tex.a.x, 32768);
}

#[test]
fn obj_rejects_bad_input() {
    let bad_number = b"v 1 2 x\n".to_vec();
    assert_eq!(
        Mesh::from_object_text(&bad_number).unwrap_err(),
        ObjError::MalformedNumber
    );
    let missing = b"v 1 2\n".to_vec();
    assert_eq!(Mesh::from_object_text(&missing).unwrap_err(), ObjError::MissingToken);
    let bad_index = b"v 0 0 1\nf 1 2 3\n".to_vec();
    assert_eq!(
        Mesh::from_object_text(&bad_index).unwrap_err(),
        ObjError::IndexOutOfRange
    );
    let zero_index = b"v 0 0 1\nf 0 1 1\n".to_vec();
    assert_eq!(
        Mesh::from_object_text(&zero_index).unwrap_err(),
        ObjError::IndexOutOfRange
    );
}

#[test]
fn obj_ignores_unknown_lines_and_empty_mesh_is_legal() {
    let text = b"o thing\ns off\n\n".to_vec();
    let m = Mesh::from_object_text(&text).unwrap();
    assert_eq!(m.polygon_list.len(), 0);
}
