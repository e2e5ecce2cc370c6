//! The renderer: view transform, projection, mesh utilities, and the
//! full draw pipeline on a concrete scene.

use cube::camera::{Angle, Rotation};
use cube::fixed::FX_ONE;
use cube::mesh::{Mesh, Polygon};
use cube::raster::Frame;
use cube::renderer::{scale_color, Renderer};
use cube::tex::TriangleTex;
use cube::vec3::{Triangle, Vec3};

fn v3(x: i64, y: i64, z: i64) -> Vec3 {
    Vec3 { x, y, z }
}

fn fx_angle(degrees: f64) -> Angle {
    let radians = degrees.to_radians();
    Angle {
        sin: (radians.sin() * FX_ONE as f64).round() as i64,
        cos: (radians.cos() * FX_ONE as f64).round() as i64,
    }
}

fn zero_angle() -> Angle {
    Angle { sin: 0, cos: FX_ONE }
}

#[test]
fn rotation_by_zero_is_identity() {
    let r = Renderer::new(FX_ONE);
    let rot = Rotation { x: zero_angle(), y: zero_angle(), z: zero_angle() };
    let mut p = v3(12345, -6789, 54321);
    r.rotate(&mut p, &rot);
    assert_eq!(p, v3(12345, -6789, 54321));
}

#[test]
fn rotation_round_trip_returns_within_tolerance() {
    // Spin by 30 degrees about Y and back: the fixed-point flooring may
    // drift each coordinate by a few raw steps, no more.
    let r = Renderer::new(FX_ONE);
    let fwd = Rotation { x: zero_angle(), y: fx_angle(30.0), z: zero_angle() };
    let back = Rotation { x: zero_angle(), y: fx_angle(-30.0), z: zero_angle() };
    let original = v3(FX_ONE, 0, 0);
    let mut p = original;
    r.rotate(&mut p, &fwd);
    r.rotate(&mut p, &back);
    assert!((p.x - original.x).abs() <= 3, "x drifted: {}", p.x);
    assert!((p.y - original.y).abs() <= 3, "y drifted: {}", p.y);
    assert!((p.z - original.z).abs() <= 3, "z drifted: {}", p.z);
}

#[test]
fn mesh_rotation_round_trip_about_centroid() {
    let r = Renderer::new(FX_ONE);
    let t = Triangle {
        a: v3(0, 0, 2 * FX_ONE),
        b: v3(FX_ONE, 0, 2 * FX_ONE),
        c: v3(0, FX_ONE, 2 * FX_ONE),
    };
    let mut mesh = Mesh {
        polygon_list: vec![Polygon {
            triangle: t,
            triangle_tex: TriangleTex::default(),
            color: 0xffffff,
            fill: true,
        }],
        texture: None,
    };
    let fwd = Rotation { x: zero_angle(), y: zero_angle(), z: fx_angle(45.0) };
    let back = Rotation { x: zero_angle(), y: zero_angle(), z: fx_angle(-45.0) };
    r.rotate_mesh(&mut mesh, &fwd);
    r.rotate_mesh(&mut mesh, &back);
    let u = mesh.polygon_list[0].triangle;
    for (got, want) in [(u.a, t.a), (u.b, t.b), (u.c, t.c)] {
        assert!((got.x - want.x).abs() <= 4, "{:?} vs {:?}", got, want);
        assert!((got.y - want.y).abs() <= 4, "{:?} vs {:?}", got, want);
        assert!((got.z - want.z).abs() <= 4, "{:?} vs {:?}", got, want);
    }
}

#[test]
fn mesh_translation_moves_every_vertex() {
    let r = Renderer::new(FX_ONE);
    let t = Triangle { a: v3(0, 0, 0), b: v3(FX_ONE, 0, 0), c: v3(0, FX_ONE, 0) };
    let mut mesh = Mesh {
        polygon_list: vec![Polygon {
            triangle: t,
            triangle_tex: TriangleTex::default(),
            color: 1,
            fill: false,
        }],
        texture: None,
    };
    r.translate_mesh(&mut mesh, v3(FX_ONE, 2 * FX_ONE, 3 * FX_ONE));
    let u = mesh.polygon_list[0].triangle;
    assert_eq!(u.a, v3(FX_ONE, 2 * FX_ONE, 3 * FX_ONE));
    assert_eq!(u.b, v3(2 * FX_ONE, 2 * FX_ONE, 3 * FX_ONE));
    assert_eq!(u.c, v3(FX_ONE, 3 * FX_ONE, 3 * FX_ONE));
}

fn flat_polygon(z: i64, color: u32) -> Polygon {
    Polygon {
        triangle: Triangle {
            a: v3(0, 0, z),
            b: v3(FX_ONE, 0, z),
            c: v3(0, FX_ONE, z),
        },
        triangle_tex: TriangleTex::default(),
        color,
        fill: true,
    }
}

#[test]
fn depth_sort_orders_farthest_first() {
    let r = Renderer::new(FX_ONE);
    let mut mesh = Mesh {
        polygon_list: vec![
            flat_polygon(2 * FX_ONE, 2),
            flat_polygon(10 * FX_ONE, 10),
            flat_polygon(5 * FX_ONE, 5),
        ],
        texture: None,
    };
    r.depth_sort_mesh(&mut mesh);
    let colors: Vec<u32> = mesh.polygon_list.iter().map(|p| p.color).collect();
    assert_eq!(colors, vec![10, 5, 2]);
}

#[test]
fn depth_sort_keeps_polygons_at_equal_distance() {
    // Which of two equally distant polygons comes first is not pinned
    // down, but both must survive the sort.
    let r = Renderer::new(FX_ONE);
    let mut mesh = Mesh {
        polygon_list: vec![flat_polygon(3 * FX_ONE, 1), flat_polygon(3 * FX_ONE, 2)],
        texture: None,
    };
    r.depth_sort_mesh(&mut mesh);
    let mut colors: Vec<u32> = mesh.polygon_list.iter().map(|p| p.color).collect();
    colors.sort();
    assert_eq!(colors, vec![1, 2]);
}

#[test]
fn empty_mesh_renders_to_nothing() {
    let r = Renderer::new(FX_ONE);
    let mut mesh = Mesh { polygon_list: vec![], texture: None };
    let mut frame = Frame::new(16, 16, 7);
    r.draw_mesh(&mut frame, &mesh);
    assert!(frame.buffer.iter().all(|&c| c == 7));
    r.rotate_mesh(&mut mesh, &Rotation { x: zero_angle(), y: zero_angle(), z: zero_angle() });
    r.depth_sort_mesh(&mut mesh);
    assert_eq!(mesh.polygon_list.len(), 0);
}

#[test]
fn projection_puts_forward_axis_at_screen_centre() {
    let r = Renderer::new(FX_ONE);
    let p = r.project(800, 600, v3(0, 0, 5 * FX_ONE));
    assert_eq!((p.x, p.y), (400, 300));
    assert_eq!(p.depth, 5 * FX_ONE);
}

#[test]
fn widening_the_fov_pulls_points_toward_the_centre() {
    let narrow = Renderer::new(FX_ONE);
    let wide = Renderer::new(2 * FX_ONE);
    let point = v3(FX_ONE, 0, 5 * FX_ONE);
    let p1 = narrow.project(800, 600, point);
    let p2 = wide.project(800, 600, point);
    assert_eq!(p1.x, 460);
    assert_eq!(p2.x, 430);
    assert!((p2.x - 400).abs() <= (p1.x - 400).abs());
}

#[test]
fn single_triangle_scene_rasterizes_into_the_expected_box() {
    // A one-triangle mesh with vertices (0,0,2), (1,0,2), (0,1,2), seen
    // by a camera at the origin with a ninety degree field of view,
    // drawn on an 800 by 600 frame: every painted pixel must lie within
    // columns 400..=700 and rows 0..=300.
    let text = b"v 0 0 2\nv 1 0 2\nv 0 1 2\nf 1 2 3\n".to_vec();
    let mesh = Mesh::from_object_text(&text).unwrap();
    assert_eq!(mesh.polygon_list.len(), 1);
    let renderer = Renderer::new(FX_ONE);
    let mut frame = Frame::new(800, 600, 0);
    renderer.clear_screen(&mut frame, 0);
    renderer.draw_mesh(&mut frame, &mesh);
    let mut painted = 0usize;
    for y in 0..600usize {
        for x in 0..800usize {
            if frame.buffer[x + y * 800] != 0 {
                painted += 1;
                assert!(x >= 400 && x <= 700, "painted at column {}", x);
                assert!(y <= 300, "painted at row {}", y);
            }
        }
    }
    assert!(painted > 1000, "only {} pixels painted", painted);
    // A hand-computed interior pixel: the projected corners are
    // (400,300), (550,300) and (400,150); the face points away from the
    // fixed directional light, so each channel of white drops to the
    // floor lighting value of 25.
    assert_eq!(frame.buffer[410 + 290 * 800], 0x00191919);
    assert_eq!(frame.depth_buffer[410 + 290 * 800], 2 * FX_ONE);
}

#[test]
fn clear_screen_resets_colour_and_depth() {
    let r = Renderer::new(FX_ONE);
    let mut frame = Frame::new(4, 4, 7);
    frame.buffer[3] = 99;
    frame.depth_buffer[3] = 5;
    r.clear_screen(&mut frame, 1);
    assert!(frame.buffer.iter().all(|&c| c == 1));
    assert!(frame.depth_buffer.iter().all(|&d| d == i64::MAX));
}

#[test]
fn scale_color_scales_each_channel_truncating() {
    assert_eq!(scale_color(0xffffff, FX_ONE), 0xffffff);
    assert_eq!(scale_color(0xffffff, FX_ONE / 2), 0x7f7f7f);
    assert_eq!(scale_color(0x102030, FX_ONE / 4), 0x04080c);
    assert_eq!(scale_color(0xffffff, 0), 0);
}

#[test]
fn wireframe_polygon_draws_edges_only() {
    let renderer = Renderer::new(FX_ONE);
    let mut frame = Frame::new(800, 600, 0);
    let t = Triangle {
        a: v3(0, 0, 2 * FX_ONE),
        b: v3(FX_ONE, 0, 2 * FX_ONE),
        c: v3(0, FX_ONE, 2 * FX_ONE),
    };
    renderer.draw_triangle(&mut frame, &t, 0xffffff, false);
    // The vertical edge from (400,300) to (400,150) is drawn.
    assert_ne!(frame.buffer[400 + 200 * 800], 0);
    // The interior stays empty.
    assert_eq!(frame.buffer[450 + 250 * 800], 0);
}

#[test]
fn backface_is_culled() {
    let renderer = Renderer::new(FX_ONE);
    let mut frame = Frame::new(800, 600, 0);
    // The same triangle wound the other way: the camera is behind the
    // face relative to its winding, so it is discarded.
    let t = Triangle {
        a: v3(0, 0, 2 * FX_ONE),
        b: v3(0, FX_ONE, 2 * FX_ONE),
        c: v3(FX_ONE, 0, 2 * FX_ONE),
    };
    renderer.draw_triangle(&mut frame, &t, 0xffffff, true);
    assert!(frame.buffer.iter().all(|&c| c == 0));
}

#[test]
fn near_plane_clip_discards_geometry_behind_the_camera() {
    let renderer = Renderer::new(FX_ONE);
    let mut frame = Frame::new(800, 600, 0);
    let t = Triangle {
        a: v3(0, 0, -2 * FX_ONE),
        b: v3(0, FX_ONE, -2 * FX_ONE),
        c: v3(FX_ONE, 0, -2 * FX_ONE),
    };
    renderer.draw_triangle(&mut frame, &t, 0xffffff, true);
    assert!(frame.buffer.iter().all(|&c| c == 0));
}
