//! The frame, the depth-tested pixel write, line drawing, and filling.

use cube::raster::{bresenham_line, draw_line, plot, triangle_fill, Frame};
use cube::screen::{TriangleScreen, VecScreen};

fn sv(x: i64, y: i64, depth: i64) -> VecScreen {
    VecScreen { x, y, depth }
}

#[test]
fn new_frame_is_cleared() {
    let f = Frame::new(4, 3, 0x123456);
    assert_eq!(f.buffer.len(), 12);
    assert_eq!(f.depth_buffer.len(), 12);
    assert!(f.buffer.iter().all(|&c| c == 0x123456));
    assert!(f.depth_buffer.iter().all(|&d| d == i64::MAX));
}

#[test]
fn plot_obeys_the_depth_test() {
    let mut f = Frame::new(8, 8, 0);
    plot(&mut f, 2, 3, 0xff0000, 100);
    assert_eq!(f.buffer[2 + 3 * 8], 0xff0000);
    assert_eq!(f.depth_buffer[2 + 3 * 8], 100);
    // A farther write loses.
    plot(&mut f, 2, 3, 0x00ff00, 200);
    assert_eq!(f.buffer[2 + 3 * 8], 0xff0000);
    // An equally deep write loses: the first writer keeps the pixel.
    plot(&mut f, 2, 3, 0x0000ff, 100);
    assert_eq!(f.buffer[2 + 3 * 8], 0xff0000);
    // A nearer write wins.
    plot(&mut f, 2, 3, 0x0000ff, 50);
    assert_eq!(f.buffer[2 + 3 * 8], 0x0000ff);
    assert_eq!(f.depth_buffer[2 + 3 * 8], 50);
}

#[test]
fn nearer_triangle_shows_in_either_draw_order() {
    // Two overlapping filled triangles at different depths: the nearer
    // one's colour must cover the overlap whichever is drawn first.
    let near = TriangleScreen { a: sv(0, 0, 100), b: sv(30, 0, 100), c: sv(0, 30, 100) };
    let far = TriangleScreen { a: sv(0, 0, 200), b: sv(30, 0, 200), c: sv(0, 30, 200) };
    let mut f1 = Frame::new(32, 32, 0);
    triangle_fill(&mut f1, &near, 0xff0000);
    triangle_fill(&mut f1, &far, 0x0000ff);
    let mut f2 = Frame::new(32, 32, 0);
    triangle_fill(&mut f2, &far, 0x0000ff);
    triangle_fill(&mut f2, &near, 0xff0000);
    assert_eq!(f1.buffer, f2.buffer);
    assert_eq!(f1.depth_buffer, f2.depth_buffer);
    // A pixel well inside the overlap shows the nearer colour.
    assert_eq!(f1.buffer[5 + 5 * 32], 0xff0000);
    assert_eq!(f1.depth_buffer[5 + 5 * 32], 100);
}

#[test]
fn triangle_fill_covers_the_interior_and_nothing_far_outside() {
    let t = TriangleScreen { a: sv(2, 2, 10), b: sv(12, 2, 10), c: sv(2, 12, 10) };
    let mut f = Frame::new(16, 16, 0);
    triangle_fill(&mut f, &t, 0xabcdef);
    // A pixel inside the upper-left of the triangle is painted.
    assert_eq!(f.buffer[3 + 3 * 16], 0xabcdef);
    // Pixels beyond the bounding box stay untouched.
    assert_eq!(f.buffer[14 + 14 * 16], 0);
    assert_eq!(f.buffer[0], 0);
}

#[test]
fn triangle_fill_clamps_offscreen_corners() {
    let t = TriangleScreen {
        a: sv(-50, -50, 10),
        b: sv(100, -50, 10),
        c: sv(-50, 100, 10),
    };
    let mut f = Frame::new(8, 8, 0);
    triangle_fill(&mut f, &t, 0x112233);
    // The fill stays within the frame (no panic) and paints the corner.
    assert_eq!(f.buffer[0], 0x112233);
}

#[test]
fn bresenham_draws_a_diagonal_with_depth() {
    let mut f = Frame::new(8, 8, 0);
    bresenham_line(&mut f, sv(0, 0, 10), sv(7, 7, 80), 0xffffff);
    for i in 0..8usize {
        assert_eq!(f.buffer[i + i * 8], 0xffffff);
    }
    // Depth advances by the floored per-pixel step.
    assert_eq!(f.depth_buffer[0], 10);
    assert_eq!(f.depth_buffer[1 + 8], 20);
}

#[test]
fn draw_line_clamps_endpoints() {
    let mut f = Frame::new(8, 8, 0);
    draw_line(&mut f, sv(-100, 3, 5), sv(100, 3, 5), 0x00ff00);
    for x in 0..8usize {
        assert_eq!(f.buffer[x + 3 * 8], 0x00ff00);
    }
}

#[test]
fn wireframe_line_respects_the_depth_buffer() {
    let mut f = Frame::new(8, 8, 0);
    // A filled wall at depth 5 across the row.
    let wall = TriangleScreen { a: sv(0, 0, 5), b: sv(8, 0, 5), c: sv(0, 8, 5) };
    triangle_fill(&mut f, &wall, 0x111111);
    // A farther line cannot punch through.
    bresenham_line(&mut f, sv(0, 1, 50), sv(6, 1, 50), 0xeeeeee);
    assert_eq!(f.buffer[1 + 8], 0x111111);
}
