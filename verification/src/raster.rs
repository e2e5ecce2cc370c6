//! The rasterizer: a colour buffer and a depth buffer of equal size, a
//! depth-tested pixel write, Bresenham line drawing for wireframe
//! triangles, and depth-interpolated scanline filling.
//!
//! Every write goes through the depth test: a pixel changes colour only
//! when the incoming depth is strictly smaller than the stored one, and
//! the stored depth never increases.  That single invariant makes the
//! final image independent of the order in which triangles are drawn.

use vstd::prelude::*;
use crate::clip::{CLIP_D_MAX, CLIP_XY_MAX};
use crate::fixed::{clamp_s, div_floor_i128, floor_div, lemma_div_bound};
use crate::screen::{TriangleScreen, VecScreen};

verus! {

/// The render target: packed 0RGB colours and fixed-point depths, both
/// row-major with origin at the top left, indexed `x + y * width`.
pub struct Frame {
    pub width: usize,
    pub height: usize,
    pub buffer: Vec<u32>,
    pub depth_buffer: Vec<i64>,
}

impl Frame {
    /// Both buffers cover exactly `width * height` pixels.
    pub open spec fn wf(self) -> bool {
        &&& self.buffer@.len() == self.width * self.height
        &&& self.depth_buffer@.len() == self.width * self.height
        &&& 0 < self.width <= 32768
        &&& 0 < self.height <= 32768
    }

    /// A frame of the given size, filled with `color` and with every
    /// depth at the farthest representable value.
    pub fn new(width: usize, height: usize, color: u32) -> (r: Frame)
        requires
            0 < width <= 32768,
            0 < height <= 32768,
        ensures
            r.wf(),
            r.width == width,
            r.height == height,
            forall|i: int| 0 <= i < r.buffer@.len() ==> r.buffer@[i] == color,
            forall|i: int| 0 <= i < r.depth_buffer@.len() ==> r.depth_buffer@[i] == i64::MAX,
    {
        proof {
            assert(width * height <= 0x40000000) by (nonlinear_arith)
                requires
                    width <= 32768,
                    height <= 32768,
            ;
        }
        let n: usize = width * height;
        let mut buffer: Vec<u32> = Vec::new();
        let mut depth_buffer: Vec<i64> = Vec::new();
        let mut i: usize = 0;
        while i < n
            invariant
                i <= n,
                buffer@.len() == i,
                depth_buffer@.len() == i,
                forall|j: int| 0 <= j < i ==> buffer@[j] == color,
                forall|j: int| 0 <= j < i ==> depth_buffer@[j] == i64::MAX,
            decreases n - i,
        {
            buffer.push(color);
            depth_buffer.push(i64::MAX);
            i = i + 1;
        }
        Frame { width, height, buffer, depth_buffer }
    }
}

/// `x`, `y` addresses a pixel of a `w` by `h` frame: its flat index is in
/// range.
pub proof fn lemma_index_in_range(x: int, y: int, w: int, h: int)
    requires
        0 <= x < w,
        0 <= y < h,
    ensures
        0 <= x + y * w < w * h,
        w <= 32768 && h <= 32768 ==> x + y * w < 0x40000000,
{
    assert(x + y * w < w * h) by (nonlinear_arith)
        requires
            0 <= x < w,
            0 <= y < h,
    ;
    assert(0 <= y * w) by (nonlinear_arith)
        requires
            0 <= y,
            0 < w,
    ;
    if w <= 32768 && h <= 32768 {
        assert(w * h <= 0x40000000) by (nonlinear_arith)
            requires
                0 < w <= 32768,
                0 < h <= 32768,
        ;
    }
}

/// The exact effect of one depth-tested write at flat index `i`.
pub open spec fn plotted(f0: Frame, f1: Frame, i: int, color: u32, z: i64) -> bool {
    if z < f0.depth_buffer@[i] {
        f1.buffer@ == f0.buffer@.update(i, color) && f1.depth_buffer@ == f0.depth_buffer@.update(
            i,
            z,
        )
    } else {
        f1.buffer@ == f0.buffer@ && f1.depth_buffer@ == f0.depth_buffer@
    }
}

/// Every pixel's depth only ever decreases, its colour is either kept or
/// set to `color`, and its colour changes only when its depth does.
pub open spec fn depth_monotone(f0: Frame, f1: Frame, color: u32) -> bool {
    &&& f1.width == f0.width && f1.height == f0.height
    &&& f1.buffer@.len() == f0.buffer@.len()
    &&& f1.depth_buffer@.len() == f0.depth_buffer@.len()
    &&& forall|i: int|
        #![trigger f1.buffer@[i]]
        #![trigger f1.depth_buffer@[i]]
        0 <= i < f0.buffer@.len() && i < f0.depth_buffer@.len() ==> {
            &&& f1.depth_buffer@[i] <= f0.depth_buffer@[i]
            &&& (f1.buffer@[i] == f0.buffer@[i] || f1.buffer@[i] == color)
            &&& (f1.depth_buffer@[i] == f0.depth_buffer@[i] ==> f1.buffer@[i] == f0.buffer@[i])
        }
}

/// As `depth_monotone`, without naming the colour: what a whole mesh draw
/// guarantees across triangles of different colours.
pub open spec fn depth_progress(f0: Frame, f1: Frame) -> bool {
    &&& f1.width == f0.width && f1.height == f0.height
    &&& f1.buffer@.len() == f0.buffer@.len()
    &&& f1.depth_buffer@.len() == f0.depth_buffer@.len()
    &&& forall|i: int|
        #![trigger f1.buffer@[i]]
        #![trigger f1.depth_buffer@[i]]
        0 <= i < f0.buffer@.len() && i < f0.depth_buffer@.len() ==> {
            &&& f1.depth_buffer@[i] <= f0.depth_buffer@[i]
            &&& (f1.depth_buffer@[i] == f0.depth_buffer@[i] ==> f1.buffer@[i] == f0.buffer@[i])
        }
}

/// All pixels outside the rows `lo..hi` keep their colour and depth.
pub open spec fn rows_outside_unchanged(f0: Frame, f1: Frame, lo: int, hi: int) -> bool {
    forall|i: int|
        #![trigger f1.buffer@[i]]
        #![trigger f1.depth_buffer@[i]]
        0 <= i < f0.buffer@.len() && i < f0.depth_buffer@.len() && (i < lo * f0.width || i >= hi
            * f0.width) ==> f1.buffer@[i] == f0.buffer@[i] && f1.depth_buffer@[i]
            == f0.depth_buffer@[i]
}

/// The exact state of one pixel after a depth-tested write of `color`
/// at depth `z`: written iff `z` is strictly nearer than the stored
/// depth.
pub open spec fn pixel_written(f0: Frame, f1: Frame, i: int, color: u32, z: i64) -> bool {
    if z < f0.depth_buffer@[i] {
        f1.buffer@[i] == color && f1.depth_buffer@[i] == z
    } else {
        f1.buffer@[i] == f0.buffer@[i] && f1.depth_buffer@[i] == f0.depth_buffer@[i]
    }
}

/// One pixel keeps its colour and depth.
pub open spec fn pixel_unchanged(f0: Frame, f1: Frame, i: int) -> bool {
    f1.buffer@[i] == f0.buffer@[i] && f1.depth_buffer@[i] == f0.depth_buffer@[i]
}

/// The left end of a scanline span: the smaller edge accumulator,
/// floored to a pixel column and clamped onto the frame.
pub open spec fn span_lo(xac: int, xabc: int, w: int) -> int {
    clamp_s(
        0,
        floor_div(
            if xac < xabc {
                xac
            } else {
                xabc
            },
            65536,
        ),
        w,
    )
}

/// The right end of a scanline span (exclusive).
pub open spec fn span_hi(xac: int, xabc: int, w: int) -> int {
    clamp_s(
        0,
        floor_div(
            if xac < xabc {
                xabc
            } else {
                xac
            },
            65536,
        ),
        w,
    )
}

/// The depth carried at the span's left end.
pub open spec fn span_z1(xac: int, xabc: int, zac: int, zabc: int) -> int {
    if xac < xabc {
        zac
    } else {
        zabc
    }
}

/// The depth carried at the span's right end.
pub open spec fn span_z2(xac: int, xabc: int, zac: int, zabc: int) -> int {
    if xac < xabc {
        zabc
    } else {
        zac
    }
}

/// The floored per-pixel depth step across the span; zero for an empty
/// span.
pub open spec fn span_dz(xac: int, xabc: int, zac: int, zabc: int, w: int) -> int {
    let x1 = span_lo(xac, xabc, w);
    let x2 = span_hi(xac, xabc, w);
    if x2 > x1 {
        floor_div(span_z2(xac, xabc, zac, zabc) - span_z1(xac, xabc, zac, zabc), x2 - x1)
    } else {
        0
    }
}

/// The interpolated depth at column offset `k` of a span, saturated onto
/// the representable depth range.
pub open spec fn span_depth(xac: int, xabc: int, zac: int, zabc: int, w: int, k: int) -> i64 {
    clamp_s(
        -CLIP_D_MAX as int,
        span_z1(xac, xabc, zac, zabc) + k * span_dz(xac, xabc, zac, zabc, w),
        CLIP_D_MAX as int,
    ) as i64
}

/// Every pixel of the row-`y` span between the two edge accumulators is
/// depth-tested against its interpolated depth and written on success;
/// every pixel outside the span keeps its colour and depth.
pub open spec fn span_painted(
    f0: Frame,
    f1: Frame,
    y: int,
    xac: int,
    xabc: int,
    zac: int,
    zabc: int,
    color: u32,
) -> bool {
    forall|i: int|
        #![trigger f1.buffer@[i]]
        #![trigger f1.depth_buffer@[i]]
        0 <= i < f0.buffer@.len() && i < f0.depth_buffer@.len() ==> {
            let w = f0.width as int;
            let x1 = span_lo(xac, xabc, w);
            let x2 = span_hi(xac, xabc, w);
            if y * w + x1 <= i < y * w + x2 {
                pixel_written(
                    f0,
                    f1,
                    i,
                    color,
                    span_depth(xac, xabc, zac, zabc, w, i - (y * w + x1)),
                )
            } else {
                pixel_unchanged(f0, f1, i)
            }
        }
}

/// One bounds-guarded, depth-tested write into a colour/depth pair.
pub open spec fn walk_plot(
    bufs: (Seq<u32>, Seq<i64>),
    w: int,
    h: int,
    x: int,
    y: int,
    color: u32,
    z: i64,
) -> (Seq<u32>, Seq<i64>) {
    if 0 <= x < w && 0 <= y < h {
        let i = x + y * w;
        if 0 <= i < bufs.0.len() && i < bufs.1.len() && z < bufs.1[i] {
            (bufs.0.update(i, color), bufs.1.update(i, z))
        } else {
            bufs
        }
    } else {
        bufs
    }
}

/// The Bresenham walk from `(x, y)` toward `(ex, ey)`: the current pixel
/// is depth-tested and written when it lies on the frame (the carried
/// depth then advances by the floored step, saturated), and the walk
/// stops at the end point or when the next move cannot approach it.
pub open spec fn bres_walk(
    bufs: (Seq<u32>, Seq<i64>),
    w: int,
    h: int,
    x: int,
    y: int,
    ex: int,
    ey: int,
    sx: int,
    sy: int,
    dx: int,
    dy: int,
    err: int,
    depth: i64,
    dz: int,
    color: u32,
) -> (Seq<u32>, Seq<i64>)
    decreases
            (if ex >= x {
                ex - x
            } else {
                x - ex
            }) + (if ey >= y {
                ey - y
            } else {
                y - ey
            }),
{
    let on = 0 <= x < w && 0 <= y < h;
    let bufs2 = if on {
        walk_plot(bufs, w, h, x, y, color, depth)
    } else {
        bufs
    };
    let depth2 = if on {
        clamp_s(-CLIP_D_MAX as int, depth + dz, CLIP_D_MAX as int) as i64
    } else {
        depth
    };
    if x == ex && y == ey {
        bufs2
    } else {
        let e2 = 2 * err;
        if e2 >= dy && x == ex {
            bufs2
        } else {
            let x3 = if e2 >= dy {
                x + sx
            } else {
                x
            };
            let err3 = if e2 >= dy {
                err + dy
            } else {
                err
            };
            if e2 <= dx && y == ey {
                bufs2
            } else {
                let y4 = if e2 <= dx {
                    y + sy
                } else {
                    y
                };
                let err4 = if e2 <= dx {
                    err3 + dx
                } else {
                    err3
                };
                let m_old = (if ex >= x {
                    ex - x
                } else {
                    x - ex
                }) + (if ey >= y {
                    ey - y
                } else {
                    y - ey
                });
                let m_new = (if ex >= x3 {
                    ex - x3
                } else {
                    x3 - ex
                }) + (if ey >= y4 {
                    ey - y4
                } else {
                    y4 - ey
                });
                if m_new < m_old {
                    bres_walk(
                        bufs2,
                        w,
                        h,
                        x3,
                        y4,
                        ex,
                        ey,
                        sx,
                        sy,
                        dx,
                        dy,
                        err4,
                        depth2,
                        dz,
                        color,
                    )
                } else {
                    bufs2
                }
            }
        }
    }
}

/// The whole segment draw as a function of the frame contents: the
/// Bresenham walk from `start` to `end` with the floored per-pixel depth
/// step.
pub open spec fn bres_spec(
    bufs: (Seq<u32>, Seq<i64>),
    w: int,
    h: int,
    start: VecScreen,
    end: VecScreen,
    color: u32,
) -> (Seq<u32>, Seq<i64>) {
    let dx = if end.x >= start.x {
        end.x - start.x
    } else {
        start.x - end.x
    };
    let dy = if end.y >= start.y {
        -(end.y - start.y)
    } else {
        -(start.y - end.y)
    };
    let sx: int = if start.x < end.x {
        1
    } else {
        -1
    };
    let sy: int = if start.y < end.y {
        1
    } else {
        -1
    };
    let dz = if dx > 0 {
        floor_div(end.depth - start.depth, dx)
    } else {
        0
    };
    bres_walk(
        bufs,
        w,
        h,
        start.x as int,
        start.y as int,
        end.x as int,
        end.y as int,
        sx,
        sy,
        dx,
        dy,
        dx + dy,
        start.depth,
        dz,
        color,
    )
}

/// `depth_monotone` composes across successive draws with one colour.
pub proof fn lemma_monotone_trans(f0: Frame, f1: Frame, f2: Frame, color: u32)
    requires
        depth_monotone(f0, f1, color),
        depth_monotone(f1, f2, color),
    ensures
        depth_monotone(f0, f2, color),
{
}

/// `depth_progress` composes across successive draws of any colours.
pub proof fn lemma_progress_trans(f0: Frame, f1: Frame, f2: Frame)
    requires
        depth_progress(f0, f1),
        depth_progress(f1, f2),
    ensures
        depth_progress(f0, f2),
{
}

/// Depth-tested writes make the drawing order irrelevant: writing depths
/// `z1 < z2` at one pixel in either order leaves the pixel in the same
/// state, and if `z1` beats the stored depth the pixel shows `c1`.
pub proof fn lemma_plot_order_irrelevant(
    f0: Frame,
    fa: Frame,
    f12: Frame,
    fb: Frame,
    f21: Frame,
    i: int,
    c1: u32,
    z1: i64,
    c2: u32,
    z2: i64,
)
    requires
        0 <= i < f0.buffer@.len(),
        f0.depth_buffer@.len() == f0.buffer@.len(),
        z1 < z2,
        plotted(f0, fa, i, c1, z1),
        plotted(fa, f12, i, c2, z2),
        plotted(f0, fb, i, c2, z2),
        plotted(fb, f21, i, c1, z1),
    ensures
        f12.buffer@[i] == f21.buffer@[i],
        f12.depth_buffer@[i] == f21.depth_buffer@[i],
        z1 < f0.depth_buffer@[i] ==> f12.buffer@[i] == c1 && f12.depth_buffer@[i] == z1,
{
}

/// Writes `color` and `z` at pixel `(x, y)` iff `z` wins the depth test:
/// strictly nearer than the stored depth.
pub fn plot(frame: &mut Frame, x: usize, y: usize, color: u32, z: i64)
    requires
        old(frame).wf(),
        x < old(frame).width,
        y < old(frame).height,
    ensures
        final(frame).wf(),
        final(frame).width == old(frame).width,
        final(frame).height == old(frame).height,
        plotted(*old(frame), *final(frame), x as int + y as int * old(frame).width as int, color, z),
        depth_monotone(*old(frame), *final(frame), color),
{
    proof {
        lemma_index_in_range(
            x as int,
            y as int,
            frame.width as int,
            frame.height as int,
        );
    }
    let i: usize = x + y * frame.width;
    if z < frame.depth_buffer[i] {
        frame.buffer.set(i, color);
        frame.depth_buffer.set(i, z);
    }
}

/// Draws the segment from `start` to `end` by Bresenham stepping, with
/// the depth advanced by a fixed floored step per plotted pixel and every
/// pixel depth-tested.  Pixels off the frame are skipped.
pub fn bresenham_line(frame: &mut Frame, start: VecScreen, end: VecScreen, color: u32)
    requires
        old(frame).wf(),
        start.bounded(CLIP_XY_MAX as int, CLIP_D_MAX as int),
        end.bounded(CLIP_XY_MAX as int, CLIP_D_MAX as int),
    ensures
        final(frame).wf(),
        final(frame).width == old(frame).width,
        final(frame).height == old(frame).height,
        depth_monotone(*old(frame), *final(frame), color),
        (final(frame).buffer@, final(frame).depth_buffer@) == bres_spec(
            (old(frame).buffer@, old(frame).depth_buffer@),
            old(frame).width as int,
            old(frame).height as int,
            start,
            end,
            color,
        ),
{
    let dx: i64 = if end.x >= start.x {
        end.x - start.x
    } else {
        start.x - end.x
    };
    let dy: i64 = if end.y >= start.y {
        -(end.y - start.y)
    } else {
        -(start.y - end.y)
    };
    let sx: i64 = if start.x < end.x {
        1
    } else {
        -1
    };
    let sy: i64 = if start.y < end.y {
        1
    } else {
        -1
    };
    let dz: i64 = if dx > 0 {
        proof {
            lemma_div_bound(end.depth - start.depth, dx as int);
        }
        div_floor_i128((end.depth as i128) - (start.depth as i128), dx as i128) as i64
    } else {
        0
    };
    let mut x: i64 = start.x;
    let mut y: i64 = start.y;
    let mut depth: i64 = start.depth;
    let mut error: i64 = dx + dy;
    let ghost f0 = *frame;
    let ghost goal = bres_spec(
        (f0.buffer@, f0.depth_buffer@),
        f0.width as int,
        f0.height as int,
        start,
        end,
        color,
    );
    loop
        invariant_except_break
            goal == bres_walk(
                (frame.buffer@, frame.depth_buffer@),
                f0.width as int,
                f0.height as int,
                x as int,
                y as int,
                end.x as int,
                end.y as int,
                sx as int,
                sy as int,
                dx as int,
                dy as int,
                error as int,
                depth,
                dz as int,
                color,
            ),
            start.x <= x <= end.x || end.x <= x <= start.x,
            start.y <= y <= end.y || end.y <= y <= start.y,
            -CLIP_D_MAX <= depth <= CLIP_D_MAX,
            -0x2000000 <= error <= 0x2000000,
            0 <= dx <= 0x1000000,
            -0x1000000 <= dy <= 0,
            -0x10000000000000 <= dz <= 0x10000000000000,
            sx == 1 || sx == -1,
            sy == 1 || sy == -1,
            sx == 1 ==> x <= end.x,
            sx == -1 ==> x >= end.x,
            sy == 1 ==> y <= end.y,
            sy == -1 ==> y >= end.y,
        invariant
            frame.wf(),
            frame.width == f0.width,
            frame.height == f0.height,
            depth_monotone(f0, *frame, color),
        ensures
            frame.wf(),
            frame.width == f0.width,
            frame.height == f0.height,
            depth_monotone(f0, *frame, color),
            (frame.buffer@, frame.depth_buffer@) == goal,
        decreases
                (if end.x >= x {
                    end.x - x
                } else {
                    x - end.x
                }) + (if end.y >= y {
                    end.y - y
                } else {
                    y - end.y
                }),
    {
        let ghost entry = (frame.buffer@, frame.depth_buffer@);
        let ghost x0 = x as int;
        let ghost y0 = y as int;
        let ghost err0 = error as int;
        let ghost depth0 = depth;
        let ghost on = 0 <= x0 < f0.width && 0 <= y0 < f0.height;
        if 0 <= x && x < frame.width as i64 && 0 <= y && y < frame.height as i64 {
            let ghost before = *frame;
            plot(frame, x as usize, y as usize, color, depth);
            proof {
                lemma_monotone_trans(f0, before, *frame, color);
                lemma_index_in_range(x0, y0, f0.width as int, f0.height as int);
                assert((frame.buffer@, frame.depth_buffer@) =~= walk_plot(
                    entry,
                    f0.width as int,
                    f0.height as int,
                    x0,
                    y0,
                    color,
                    depth0,
                ));
            }
            let nd: i128 = (depth as i128) + (dz as i128);
            depth = clamp_depth(nd);
        }
        proof {
            // the walk's one-step state matches this iteration's
            assert(!on ==> (frame.buffer@, frame.depth_buffer@) =~= entry);
        }
        if x == end.x && y == end.y {
            proof {
                assert(goal == (frame.buffer@, frame.depth_buffer@));
            }
            break ;
        }
        let e2: i64 = 2 * error;
        if e2 >= dy {
            if x == end.x {
                proof {
                    assert(goal == (frame.buffer@, frame.depth_buffer@));
                }
                break ;
            }
            error = error + dy;
            x = x + sx;
        }
        if e2 <= dx {
            if y == end.y {
                proof {
                    assert(goal == (frame.buffer@, frame.depth_buffer@));
                }
                break ;
            }
            error = error + dx;
            y = y + sy;
        }
        proof {
            assert(goal == bres_walk(
                (frame.buffer@, frame.depth_buffer@),
                f0.width as int,
                f0.height as int,
                x as int,
                y as int,
                end.x as int,
                end.y as int,
                sx as int,
                sy as int,
                dx as int,
                dy as int,
                error as int,
                depth,
                dz as int,
                color,
            ));
        }
    }
}

/// Saturates an interpolated depth into the representable depth range.
fn clamp_depth(z: i128) -> (r: i64)
    ensures
        r == clamp_s(-CLIP_D_MAX as int, z as int, CLIP_D_MAX as int),
        -CLIP_D_MAX <= r <= CLIP_D_MAX,
{
    if z < -CLIP_D_MAX as i128 {
        -CLIP_D_MAX
    } else if z > CLIP_D_MAX as i128 {
        CLIP_D_MAX
    } else {
        z as i64
    }
}

/// An edge's step per scanline as a value: the floored quotient of the
/// span by the row count, or zero for a degenerate (flat) edge.
pub open spec fn step_of(d: int, dy: int) -> int {
    if dy != 0 {
        floor_div(d, dy)
    } else {
        0
    }
}

/// A corner clamped onto the screen.
pub open spec fn clamped_corner(v: VecScreen, w: int, h: int) -> VecScreen {
    VecScreen {
        x: clamp_s(0, v.x as int, w) as i64,
        y: clamp_s(0, v.y as int, h) as i64,
        depth: v.depth,
    }
}

/// The triangle's corners clamped onto the screen and sorted by
/// ascending row, exactly as the fill prepares them.
pub open spec fn fill_sorted(t: TriangleScreen, w: int, h: int) -> TriangleScreen {
    let pa0 = clamped_corner(t.a, w, h);
    let pb0 = clamped_corner(t.b, w, h);
    let pc0 = clamped_corner(t.c, w, h);
    let pa1 = if pb0.y < pa0.y {
        pb0
    } else {
        pa0
    };
    let pb1 = if pb0.y < pa0.y {
        pa0
    } else {
        pb0
    };
    let pa2 = if pc0.y < pa1.y {
        pc0
    } else {
        pa1
    };
    let pc2 = if pc0.y < pa1.y {
        pa1
    } else {
        pc0
    };
    let pb3 = if pc2.y < pb1.y {
        pc2
    } else {
        pb1
    };
    let pc3 = if pc2.y < pb1.y {
        pb1
    } else {
        pc2
    };
    TriangleScreen { a: pa2, b: pb3, c: pc3 }
}

/// The state of pixel `i` on upper-trapezoid row `yy`: depth-tested
/// against the interpolated depth inside the span between edges `a-c`
/// and `a-b`, untouched outside it.
pub open spec fn top_row_state(
    f0: Frame,
    f1: Frame,
    s: TriangleScreen,
    yy: int,
    i: int,
    color: u32,
) -> bool {
    let w = f0.width as int;
    let xac = s.a.x * 65536 + (yy - s.a.y) * step_of((s.c.x - s.a.x) * 65536, s.c.y - s.a.y);
    let xabc = s.a.x * 65536 + (yy - s.a.y) * step_of((s.b.x - s.a.x) * 65536, s.b.y - s.a.y);
    let zac = s.a.depth + (yy - s.a.y) * step_of(s.c.depth - s.a.depth, s.c.y - s.a.y);
    let zabc = s.a.depth + (yy - s.a.y) * step_of(s.b.depth - s.a.depth, s.b.y - s.a.y);
    if yy * w + span_lo(xac, xabc, w) <= i < yy * w + span_hi(xac, xabc, w) {
        pixel_written(
            f0,
            f1,
            i,
            color,
            span_depth(xac, xabc, zac, zabc, w, i - (yy * w + span_lo(xac, xabc, w))),
        )
    } else {
        pixel_unchanged(f0, f1, i)
    }
}

/// The state of pixel `i` on lower-trapezoid row `yy`: the `a-c` edge
/// and its depth continue from the upper trapezoid (the depth frozen at
/// the middle row, as the scan conversion leaves it), the other edge
/// restarts at corner `b`.
pub open spec fn bot_row_state(
    f0: Frame,
    f1: Frame,
    s: TriangleScreen,
    yy: int,
    i: int,
    color: u32,
) -> bool {
    let w = f0.width as int;
    let xac = s.a.x * 65536 + (yy - s.a.y) * step_of((s.c.x - s.a.x) * 65536, s.c.y - s.a.y);
    let xabc = s.b.x * 65536 + (yy - s.b.y) * step_of((s.c.x - s.b.x) * 65536, s.c.y - s.b.y);
    let zac = s.a.depth + (s.b.y - s.a.y) * step_of(s.c.depth - s.a.depth, s.c.y - s.a.y);
    let zabc = s.b.depth as int;
    if yy * w + span_lo(xac, xabc, w) <= i < yy * w + span_hi(xac, xabc, w) {
        pixel_written(
            f0,
            f1,
            i,
            color,
            span_depth(xac, xabc, zac, zabc, w, i - (yy * w + span_lo(xac, xabc, w))),
        )
    } else {
        pixel_unchanged(f0, f1, i)
    }
}

/// The exact effect of filling `t`: every pixel of every scanned span of
/// the clamped, row-sorted triangle is depth-tested against its
/// interpolated depth and written on success; every other pixel is
/// untouched.
pub open spec fn tri_fill_post(f0: Frame, f1: Frame, t: TriangleScreen, color: u32) -> bool {
    let s = fill_sorted(t, f0.width as int, f0.height as int);
    forall|i: int|
        #![trigger f1.buffer@[i]]
        #![trigger f1.depth_buffer@[i]]
        0 <= i < f0.buffer@.len() && i < f0.depth_buffer@.len() ==> {
            let yy = i / (f0.width as int);
            if s.a.y <= yy < s.b.y {
                top_row_state(f0, f1, s, yy, i, color)
            } else if s.b.y <= yy < s.c.y {
                bot_row_state(f0, f1, s, yy, i, color)
            } else {
                pixel_unchanged(f0, f1, i)
            }
        }
}

/// The fill's progress: every row before `upto` shows its final
/// trapezoid state, every other pixel is untouched.
pub open spec fn fill_partial(
    f0: Frame,
    f1: Frame,
    s: TriangleScreen,
    i: int,
    color: u32,
    upto: int,
) -> bool {
    let yy = i / (f0.width as int);
    if s.a.y <= yy < s.b.y && yy < upto {
        top_row_state(f0, f1, s, yy, i, color)
    } else if s.b.y <= yy < s.c.y && yy < upto {
        bot_row_state(f0, f1, s, yy, i, color)
    } else {
        pixel_unchanged(f0, f1, i)
    }
}

/// One scanline whose edge accumulators equal the row model advances the
/// fill's progress by one row.
#[verifier::rlimit(100)]
proof fn lemma_fill_step(
    f0: Frame,
    f1: Frame,
    f2: Frame,
    s: TriangleScreen,
    y: int,
    xac: int,
    xabc: int,
    zac: int,
    zabc: int,
    color: u32,
    top: bool,
)
    requires
        f0.wf(),
        f1.width == f0.width,
        f1.buffer@.len() == f0.buffer@.len(),
        f1.depth_buffer@.len() == f0.depth_buffer@.len(),
        f2.width == f1.width,
        f2.buffer@.len() == f1.buffer@.len(),
        f2.depth_buffer@.len() == f1.depth_buffer@.len(),
        0 <= y < f0.height,
        s.a.y <= s.b.y <= s.c.y,
        span_painted(f1, f2, y, xac, xabc, zac, zabc, color),
        top ==> s.a.y <= y < s.b.y,
        !top ==> s.b.y <= y < s.c.y,
        top ==> xac == s.a.x * 65536 + (y - s.a.y) * step_of(
            (s.c.x - s.a.x) * 65536,
            s.c.y - s.a.y,
        ),
        top ==> xabc == s.a.x * 65536 + (y - s.a.y) * step_of(
            (s.b.x - s.a.x) * 65536,
            s.b.y - s.a.y,
        ),
        top ==> zac == s.a.depth + (y - s.a.y) * step_of(s.c.depth - s.a.depth, s.c.y - s.a.y),
        top ==> zabc == s.a.depth + (y - s.a.y) * step_of(s.b.depth - s.a.depth, s.b.y - s.a.y),
        !top ==> xac == s.a.x * 65536 + (y - s.a.y) * step_of(
            (s.c.x - s.a.x) * 65536,
            s.c.y - s.a.y,
        ),
        !top ==> xabc == s.b.x * 65536 + (y - s.b.y) * step_of(
            (s.c.x - s.b.x) * 65536,
            s.c.y - s.b.y,
        ),
        !top ==> zac == s.a.depth + (s.b.y - s.a.y) * step_of(
            s.c.depth - s.a.depth,
            s.c.y - s.a.y,
        ),
        !top ==> zabc == s.b.depth,
        forall|i: int|
            #![trigger f1.buffer@[i]]
            #![trigger f1.depth_buffer@[i]]
            0 <= i < f0.buffer@.len() && i < f0.depth_buffer@.len() ==> fill_partial(
                f0,
                f1,
                s,
                i,
                color,
                y,
            ),
    ensures
        forall|i: int|
            #![trigger f2.buffer@[i]]
            #![trigger f2.depth_buffer@[i]]
            0 <= i < f0.buffer@.len() && i < f0.depth_buffer@.len() ==> fill_partial(
                f0,
                f2,
                s,
                i,
                color,
                y + 1,
            ),
{
    let w = f0.width as int;
    assert forall|i: int|
        #![trigger f2.buffer@[i]]
        #![trigger f2.depth_buffer@[i]]
        0 <= i < f0.buffer@.len() && i < f0.depth_buffer@.len() implies fill_partial(
        f0,
        f2,
        s,
        i,
        color,
        y + 1,
    ) by {
        vstd::arithmetic::div_mod::lemma_fundamental_div_mod(i, w);
        vstd::arithmetic::div_mod::lemma_mod_pos_bound(i, w);
        let yy = i / w;
        assert(w * yy == yy * w && (yy + 1) * w == yy * w + w && (y + 1) * w == y * w + w)
            by (nonlinear_arith);
        assert(yy * w <= i < yy * w + w);
        assert(0 <= yy) by {
            vstd::arithmetic::div_mod::lemma_div_pos_is_pos(i, w);
        };
        assert(fill_partial(f0, f1, s, i, color, y));
        if yy == y {
            // this row's pixels were untouched before the scanline and
            // now show the span's depth-tested writes
            assert(pixel_unchanged(f0, f1, i));
        } else if yy < y {
            vstd::arithmetic::mul::lemma_mul_inequality(yy + 1, y, w);
            assert(i < y * w + span_lo(xac, xabc, w));
            assert(pixel_unchanged(f1, f2, i));
        } else {
            vstd::arithmetic::mul::lemma_mul_inequality(y + 1, yy, w);
            assert(i >= y * w + span_hi(xac, xabc, w));
            assert(pixel_unchanged(f1, f2, i));
        }
    };
}

/// Whether the fill of `t` on a `w` by `h` frame scans pixel `i`.
pub open spec fn fill_covers(w: int, h: int, t: TriangleScreen, i: int) -> bool {
    let s = fill_sorted(t, w, h);
    let yy = i / w;
    if s.a.y <= yy < s.b.y {
        let xac = s.a.x * 65536 + (yy - s.a.y) * step_of((s.c.x - s.a.x) * 65536, s.c.y - s.a.y);
        let xabc = s.a.x * 65536 + (yy - s.a.y) * step_of((s.b.x - s.a.x) * 65536, s.b.y - s.a.y);
        yy * w + span_lo(xac, xabc, w) <= i < yy * w + span_hi(xac, xabc, w)
    } else if s.b.y <= yy < s.c.y {
        let xac = s.a.x * 65536 + (yy - s.a.y) * step_of((s.c.x - s.a.x) * 65536, s.c.y - s.a.y);
        let xabc = s.b.x * 65536 + (yy - s.b.y) * step_of((s.c.x - s.b.x) * 65536, s.c.y - s.b.y);
        yy * w + span_lo(xac, xabc, w) <= i < yy * w + span_hi(xac, xabc, w)
    } else {
        false
    }
}

/// The interpolated depth the fill of `t` tests pixel `i` against.
pub open spec fn fill_depth(w: int, h: int, t: TriangleScreen, i: int) -> i64 {
    let s = fill_sorted(t, w, h);
    let yy = i / w;
    if s.a.y <= yy < s.b.y {
        let xac = s.a.x * 65536 + (yy - s.a.y) * step_of((s.c.x - s.a.x) * 65536, s.c.y - s.a.y);
        let xabc = s.a.x * 65536 + (yy - s.a.y) * step_of((s.b.x - s.a.x) * 65536, s.b.y - s.a.y);
        let zac = s.a.depth + (yy - s.a.y) * step_of(s.c.depth - s.a.depth, s.c.y - s.a.y);
        let zabc = s.a.depth + (yy - s.a.y) * step_of(s.b.depth - s.a.depth, s.b.y - s.a.y);
        span_depth(xac, xabc, zac, zabc, w, i - (yy * w + span_lo(xac, xabc, w)))
    } else {
        let xac = s.a.x * 65536 + (yy - s.a.y) * step_of((s.c.x - s.a.x) * 65536, s.c.y - s.a.y);
        let xabc = s.b.x * 65536 + (yy - s.b.y) * step_of((s.c.x - s.b.x) * 65536, s.c.y - s.b.y);
        let zac = s.a.depth + (s.b.y - s.a.y) * step_of(s.c.depth - s.a.depth, s.c.y - s.a.y);
        let zabc = s.b.depth as int;
        span_depth(xac, xabc, zac, zabc, w, i - (yy * w + span_lo(xac, xabc, w)))
    }
}

/// What `tri_fill_post` says of one pixel: scanned pixels are
/// depth-tested against the fill's interpolated depth, others keep
/// their state.
pub proof fn lemma_tri_fill_pointwise(f0: Frame, f1: Frame, t: TriangleScreen, color: u32, i: int)
    requires
        tri_fill_post(f0, f1, t, color),
        0 <= i < f0.buffer@.len(),
        i < f0.depth_buffer@.len(),
    ensures
        fill_covers(f0.width as int, f0.height as int, t, i) ==> pixel_written(
            f0,
            f1,
            i,
            color,
            fill_depth(f0.width as int, f0.height as int, t, i),
        ),
        !fill_covers(f0.width as int, f0.height as int, t, i) ==> pixel_unchanged(f0, f1, i),
{
    assert(0 <= i < f0.buffer@.len() && i < f0.depth_buffer@.len());
}

/// Depth-tested fills make the drawing order irrelevant: filling two
/// triangles in either order leaves every pixel where their interpolated
/// depths differ in the same state, and wherever both cover a pixel and
/// the first is nearer and beats the stored depth, the first triangle's
/// colour and depth show in either order.
pub proof fn lemma_fill_order_irrelevant(
    f0: Frame,
    fa: Frame,
    f12: Frame,
    fb: Frame,
    f21: Frame,
    t1: TriangleScreen,
    c1: u32,
    t2: TriangleScreen,
    c2: u32,
    i: int,
    w: int,
    h: int,
)
    requires
        w == f0.width && h == f0.height,
        fa.width == f0.width && fa.height == f0.height,
        fb.width == f0.width && fb.height == f0.height,
        fa.buffer@.len() == f0.buffer@.len() && fa.depth_buffer@.len() == f0.depth_buffer@.len(),
        fb.buffer@.len() == f0.buffer@.len() && fb.depth_buffer@.len() == f0.depth_buffer@.len(),
        tri_fill_post(f0, fa, t1, c1),
        tri_fill_post(fa, f12, t2, c2),
        tri_fill_post(f0, fb, t2, c2),
        tri_fill_post(fb, f21, t1, c1),
        0 <= i < f0.buffer@.len(),
        i < f0.depth_buffer@.len(),
        fill_depth(w, h, t1, i) != fill_depth(w, h, t2, i),
    ensures
        f12.buffer@[i] == f21.buffer@[i],
        f12.depth_buffer@[i] == f21.depth_buffer@[i],
        (fill_covers(w, h, t1, i) && fill_covers(w, h, t2, i) && fill_depth(w, h, t1, i)
            < fill_depth(w, h, t2, i) && fill_depth(w, h, t1, i) < f0.depth_buffer@[i]
            ==> f12.buffer@[i] == c1 && f12.depth_buffer@[i] == fill_depth(w, h, t1, i)),
{
    lemma_tri_fill_pointwise(f0, fa, t1, c1, i);
    lemma_tri_fill_pointwise(fa, f12, t2, c2, i);
    lemma_tri_fill_pointwise(f0, fb, t2, c2, i);
    lemma_tri_fill_pointwise(fb, f21, t1, c1, i);
    assert(fa.width == f0.width && fb.width == f0.width);
}

/// The fill of `t` as a function of the buffer contents: each scanned
/// pixel whose interpolated depth beats the stored one takes the colour
/// and that depth.
pub open spec fn fill_fun(
    bufs: (Seq<u32>, Seq<i64>),
    w: int,
    h: int,
    t: TriangleScreen,
    color: u32,
) -> (Seq<u32>, Seq<i64>) {
    (
        Seq::new(
            bufs.0.len(),
            |i: int|
                if i < bufs.1.len() && fill_covers(w, h, t, i) && fill_depth(w, h, t, i)
                    < bufs.1[i] {
                    color
                } else {
                    bufs.0[i]
                },
        ),
        Seq::new(
            bufs.1.len(),
            |i: int|
                if i < bufs.0.len() && fill_covers(w, h, t, i) && fill_depth(w, h, t, i)
                    < bufs.1[i] {
                    fill_depth(w, h, t, i)
                } else {
                    bufs.1[i]
                },
        ),
    )
}

/// `tri_fill_post` pins the whole frame: the result is `fill_fun` of the
/// starting contents.
pub proof fn lemma_tri_fill_fun(f0: Frame, f1: Frame, t: TriangleScreen, color: u32)
    requires
        tri_fill_post(f0, f1, t, color),
        f1.buffer@.len() == f0.buffer@.len(),
        f1.depth_buffer@.len() == f0.depth_buffer@.len(),
        f0.buffer@.len() == f0.depth_buffer@.len(),
    ensures
        (f1.buffer@, f1.depth_buffer@) == fill_fun(
            (f0.buffer@, f0.depth_buffer@),
            f0.width as int,
            f0.height as int,
            t,
            color,
        ),
{
    let w = f0.width as int;
    let h = f0.height as int;
    let target = fill_fun((f0.buffer@, f0.depth_buffer@), w, h, t, color);
    assert forall|i: int| 0 <= i < f1.buffer@.len() implies f1.buffer@[i] == target.0[i] by {
        lemma_tri_fill_pointwise(f0, f1, t, color, i);
    };
    assert forall|i: int|
        0 <= i < f1.depth_buffer@.len() implies f1.depth_buffer@[i] == target.1[i] by {
        lemma_tri_fill_pointwise(f0, f1, t, color, i);
    };
    assert(f1.buffer@ =~= target.0);
    assert(f1.depth_buffer@ =~= target.1);
}

/// The wireframe draw of a triangle: its three edges, clamped and walked
/// in order.
pub open spec fn wire_fun(
    bufs: (Seq<u32>, Seq<i64>),
    w: int,
    h: int,
    t: TriangleScreen,
    color: u32,
) -> (Seq<u32>, Seq<i64>) {
    let b1 = bres_spec(bufs, w, h, clamped_corner(t.a, w, h), clamped_corner(t.b, w, h), color);
    let b2 = bres_spec(b1, w, h, clamped_corner(t.a, w, h), clamped_corner(t.c, w, h), color);
    bres_spec(b2, w, h, clamped_corner(t.b, w, h), clamped_corner(t.c, w, h), color)
}

/// Rasterizing a list of screen triangles in order, filled or wireframe.
pub open spec fn raster_list_fun(
    bufs: (Seq<u32>, Seq<i64>),
    w: int,
    h: int,
    ts: Seq<TriangleScreen>,
    color: u32,
    fill: bool,
) -> (Seq<u32>, Seq<i64>)
    decreases ts.len(),
{
    if ts.len() == 0 {
        bufs
    } else {
        let prev = raster_list_fun(bufs, w, h, ts.drop_last(), color, fill);
        if fill {
            fill_fun(prev, w, h, ts.last(), color)
        } else {
            wire_fun(prev, w, h, ts.last(), color)
        }
    }
}

/// An edge's step per scanline: the floored quotient of the span by the
/// row count, or zero for a degenerate (flat) edge.
fn edge_step(d: i64, dy: i64) -> (r: i64)
    requires
        0 <= dy <= 32768,
        -0x10000000000000 <= d <= 0x10000000000000,
    ensures
        dy != 0 ==> r == floor_div(d as int, dy as int),
        dy == 0 ==> r == 0,
        -0x10000000000000 <= r <= 0x10000000000000,
{
    if dy != 0 {
        proof {
            lemma_div_bound(d as int, dy as int);
        }
        div_floor_i128(d as i128, dy as i128) as i64
    } else {
        0
    }
}

/// Fills one scanline between the two edge accumulators, interpolating
/// depth across the span and depth-testing every pixel.
fn scanline(
    frame: &mut Frame,
    y: i64,
    xac: i128,
    xabc: i128,
    zac: i128,
    zabc: i128,
    color: u32,
)
    requires
        old(frame).wf(),
        0 <= y < old(frame).height,
        -0x4000000000000000 <= xac <= 0x4000000000000000,
        -0x4000000000000000 <= xabc <= 0x4000000000000000,
        -0x100000000000000000000 <= zac <= 0x100000000000000000000,
        -0x100000000000000000000 <= zabc <= 0x100000000000000000000,
    ensures
        final(frame).wf(),
        final(frame).width == old(frame).width,
        final(frame).height == old(frame).height,
        depth_monotone(*old(frame), *final(frame), color),
        rows_outside_unchanged(*old(frame), *final(frame), y as int, y as int + 1),
        span_painted(*old(frame), *final(frame), y as int, xac as int, xabc as int, zac as int,
            zabc as int, color),
{
    let w = frame.width as i64;
    let (x1f, x2f, z1, z2) = if xac < xabc {
        (xac, xabc, zac, zabc)
    } else {
        (xabc, xac, zabc, zac)
    };
    let x1q: i128 = div_floor_i128(x1f, 65536);
    let x2q: i128 = div_floor_i128(x2f, 65536);
    proof {
        lemma_div_bound(x1f as int, 65536);
        lemma_div_bound(x2f as int, 65536);
    }
    let x1: i64 = if x1q < 0 {
        0
    } else if x1q > w as i128 {
        w
    } else {
        x1q as i64
    };
    let x2: i64 = if x2q < 0 {
        0
    } else if x2q > w as i128 {
        w
    } else {
        x2q as i64
    };
    let dz: i128 = if x2 > x1 {
        proof {
            lemma_div_bound(z2 as int - z1 as int, x2 as int - x1 as int);
        }
        div_floor_i128(z2 - z1, (x2 - x1) as i128)
    } else {
        0
    };
    let mut z: i128 = z1;
    let mut x: i64 = x1;
    let ghost f0 = *frame;
    let ghost sx1 = span_lo(xac as int, xabc as int, f0.width as int);
    let ghost sx2 = span_hi(xac as int, xabc as int, f0.width as int);
    let ghost sz1 = span_z1(xac as int, xabc as int, zac as int, zabc as int);
    let ghost sdz = span_dz(xac as int, xabc as int, zac as int, zabc as int, f0.width as int);
    proof {
        assert(x1 == sx1 && x2 == sx2 && z1 == sz1 && dz == sdz);
        assert((x1 - x1) * sdz == 0) by (nonlinear_arith);
    }
    while x < x2
        invariant
            frame.wf(),
            frame.width == f0.width,
            frame.height == f0.height,
            depth_monotone(f0, *frame, color),
            rows_outside_unchanged(f0, *frame, y as int, y as int + 1),
            0 <= x1 <= x <= x2 <= frame.width,
            0 <= y < frame.height,
            x1 == sx1 && x2 == sx2 && dz == sdz,
            sx1 == span_lo(xac as int, xabc as int, f0.width as int),
            sx2 == span_hi(xac as int, xabc as int, f0.width as int),
            sz1 == span_z1(xac as int, xabc as int, zac as int, zabc as int),
            sdz == span_dz(xac as int, xabc as int, zac as int, zabc as int, f0.width as int),
            z == sz1 + (x - x1) * sdz,
            -0x200000000000000000000 <= dz <= 0x200000000000000000000,
            -0x100000000000000000000 - (x - x1) * 0x400000000000000000000 <= z <= 0x100000000000000000000 + (x - x1) * 0x400000000000000000000,
            forall|i: int|
                #![trigger frame.buffer@[i]]
                #![trigger frame.depth_buffer@[i]]
                0 <= i < f0.buffer@.len() && i < f0.depth_buffer@.len() ==> {
                    let w = f0.width as int;
                    if y * w + sx1 <= i < y * w + x {
                        pixel_written(
                            f0,
                            *frame,
                            i,
                            color,
                            span_depth(
                                xac as int,
                                xabc as int,
                                zac as int,
                                zabc as int,
                                w,
                                i - (y * w + sx1),
                            ),
                        )
                    } else {
                        pixel_unchanged(f0, *frame, i)
                    }
                },
        decreases x2 - x,
    {
        let ghost before = *frame;
        let zc = clamp_depth(z);
        plot(frame, x as usize, y as usize, color, zc);
        proof {
            lemma_monotone_trans(f0, before, *frame, color);
            assert((y as int + 1) * (f0.width as int) == y as int * (f0.width as int)
                + f0.width) by (nonlinear_arith);
            let idx = x as int + y as int * (before.width as int);
            lemma_index_in_range(
                x as int,
                y as int,
                before.width as int,
                before.height as int,
            );
            assert(0 <= idx < before.buffer@.len() && idx < before.depth_buffer@.len());
            assert(y as int * (before.width as int) == y as int * (f0.width as int));
            assert forall|i: int|
                0 <= i < f0.buffer@.len() && i < f0.depth_buffer@.len() && (i < y as int
                    * f0.width || i >= (y as int + 1) * f0.width) implies frame.buffer@[i]
                == f0.buffer@[i] && frame.depth_buffer@[i] == f0.depth_buffer@[i] by {
                assert(before.buffer@[i] == f0.buffer@[i] && before.depth_buffer@[i]
                    == f0.depth_buffer@[i]);
                assert(i != idx);
                assert(before.buffer@.update(idx, color)[i] == before.buffer@[i]);
                assert(before.depth_buffer@.update(idx, zc)[i] == before.depth_buffer@[i]);
            };
            // the freshly plotted pixel has exactly its interpolated depth
            assert(zc == span_depth(
                xac as int,
                xabc as int,
                zac as int,
                zabc as int,
                f0.width as int,
                idx - (y as int * (f0.width as int) + sx1),
            ));
            assert(before.buffer@[idx] == f0.buffer@[idx] && before.depth_buffer@[idx]
                == f0.depth_buffer@[idx]);
            assert forall|i: int|
                #![trigger frame.buffer@[i]]
                #![trigger frame.depth_buffer@[i]]
                0 <= i < f0.buffer@.len() && i < f0.depth_buffer@.len() && y as int
                    * f0.width + sx1 <= i < y as int * f0.width + (x + 1) implies pixel_written(
                f0,
                *frame,
                i,
                color,
                span_depth(
                    xac as int,
                    xabc as int,
                    zac as int,
                    zabc as int,
                    f0.width as int,
                    i - (y as int * (f0.width as int) + sx1),
                ),
            ) by {
                if i == idx {
                } else {
                    assert(before.buffer@.update(idx, color)[i] == before.buffer@[i]);
                    assert(before.depth_buffer@.update(idx, zc)[i] == before.depth_buffer@[i]);
                }
            };
            assert((x + 1 - x1) * sdz == (x - x1) * sdz + sdz) by (nonlinear_arith);
        }
        z = z + dz;
        x = x + 1;
    }
}

/// Fills a triangle by scan conversion: the corners are clamped onto the
/// screen and sorted by ascending row; the upper trapezoid is swept
/// between edges `a-b` and `a-c`, the lower between `b-c` and `a-c`, each
/// scanline's span and depth range interpolated by fixed floored steps,
/// every pixel depth-tested.
#[verifier::rlimit(100)]
pub fn triangle_fill(frame: &mut Frame, triangle: &TriangleScreen, color: u32)
    requires
        old(frame).wf(),
        -CLIP_D_MAX <= triangle.a.depth <= CLIP_D_MAX,
        -CLIP_D_MAX <= triangle.b.depth <= CLIP_D_MAX,
        -CLIP_D_MAX <= triangle.c.depth <= CLIP_D_MAX,
    ensures
        final(frame).wf(),
        final(frame).width == old(frame).width,
        final(frame).height == old(frame).height,
        depth_monotone(*old(frame), *final(frame), color),
        tri_fill_post(*old(frame), *final(frame), *triangle, color),
        rows_outside_unchanged(
            *old(frame),
            *final(frame),
            clamp_s(
                0,
                crate::clip::min3(triangle.a.y as int, triangle.b.y as int, triangle.c.y as int),
                old(frame).height as int,
            ),
            clamp_s(
                0,
                crate::clip::max3(triangle.a.y as int, triangle.b.y as int, triangle.c.y as int),
                old(frame).height as int,
            ),
        ),
{
    let ghost s0 = fill_sorted(*triangle, old(frame).width as int, old(frame).height as int);
    let w = frame.width as i64;
    let h = frame.height as i64;
    let mut pa = triangle.a.clamp_screen(w, h);
    let mut pb = triangle.b.clamp_screen(w, h);
    let mut pc = triangle.c.clamp_screen(w, h);
    if pb.y < pa.y {
        let t = pa;
        pa = pb;
        pb = t;
    }
    if pc.y < pa.y {
        let t = pa;
        pa = pc;
        pc = t;
    }
    if pc.y < pb.y {
        let t = pb;
        pb = pc;
        pc = t;
    }
    proof {
        assert(pa.y as int == clamp_s(
            0,
            crate::clip::min3(triangle.a.y as int, triangle.b.y as int, triangle.c.y as int),
            h as int,
        ));
        assert(pc.y as int == clamp_s(
            0,
            crate::clip::max3(triangle.a.y as int, triangle.b.y as int, triangle.c.y as int),
            h as int,
        ));
        assert(pa == s0.a && pb == s0.b && pc == s0.c);
    }
    let dyab: i64 = pb.y - pa.y;
    let dybc: i64 = pc.y - pb.y;
    let dyac: i64 = pc.y - pa.y;
    let dxab: i64 = edge_step((pb.x - pa.x) * 65536, dyab);
    let dxbc: i64 = edge_step((pc.x - pb.x) * 65536, dybc);
    let dxac: i64 = edge_step((pc.x - pa.x) * 65536, dyac);
    proof {
        if dyab != 0 {
            lemma_div_bound((pb.x - pa.x) * 65536, dyab as int);
        }
        if dybc != 0 {
            lemma_div_bound((pc.x - pb.x) * 65536, dybc as int);
        }
        if dyac != 0 {
            lemma_div_bound((pc.x - pa.x) * 65536, dyac as int);
        }
    }
    let dzab: i64 = edge_step(pb.depth - pa.depth, dyab);
    let dzac: i64 = edge_step(pc.depth - pa.depth, dyac);
    let mut xac: i128 = (pa.x as i128) * 65536;
    let mut xabc: i128 = (pa.x as i128) * 65536;
    let mut zac: i128 = pa.depth as i128;
    let mut zabc: i128 = pa.depth as i128;
    let ghost f0 = *frame;
    proof {
        assert((pa.y - pa.y) * (dxac as int) == 0 && (pa.y - pa.y) * (dxab as int) == 0 && (pa.y
            - pa.y) * (dzac as int) == 0 && (pa.y - pa.y) * (dzab as int) == 0)
            by (nonlinear_arith);
    }
    let mut y: i64 = pa.y;
    while y < pb.y
        invariant
            frame.wf(),
            frame.width == f0.width,
            frame.height == f0.height,
            depth_monotone(f0, *frame, color),
            rows_outside_unchanged(f0, *frame, pa.y as int, pc.y as int),
            pa.y <= y <= pb.y,
            pb.y <= pc.y,
            0 <= pa.y && pb.y <= frame.height,
            pa == s0.a && pb == s0.b && pc == s0.c,
            dxac == step_of((pc.x - pa.x) * 65536, pc.y - pa.y),
            dxab == step_of((pb.x - pa.x) * 65536, pb.y - pa.y),
            dzac == step_of(pc.depth - pa.depth, pc.y - pa.y),
            dzab == step_of(pb.depth - pa.depth, pb.y - pa.y),
            xac == pa.x * 65536 + (y - pa.y) * (dxac as int),
            xabc == pa.x * 65536 + (y - pa.y) * (dxab as int),
            zac == pa.depth + (y - pa.y) * (dzac as int),
            zabc == pa.depth + (y - pa.y) * (dzab as int),
            forall|i: int|
                #![trigger frame.buffer@[i]]
                #![trigger frame.depth_buffer@[i]]
                0 <= i < f0.buffer@.len() && i < f0.depth_buffer@.len() ==> fill_partial(
                    f0,
                    *frame,
                    s0,
                    i,
                    color,
                    y as int,
                ),
            -0x80000000000 <= dxab <= 0x80000000000,
            -0x80000000000 <= dxac <= 0x80000000000,
            -0x10000000000000 <= dzab <= 0x10000000000000,
            -0x10000000000000 <= dzac <= 0x10000000000000,
            -0x200000000 - (y - pa.y) * 0x100000000000 <= xac <= 0x200000000 + (y - pa.y)
                * 0x100000000000,
            -0x200000000 - (y - pa.y) * 0x100000000000 <= xabc <= 0x200000000 + (y - pa.y)
                * 0x100000000000,
            -0x8000000000000 - (y - pa.y) * 0x20000000000000 <= zac <= 0x8000000000000 + (y - pa.y)
                * 0x20000000000000,
            -0x8000000000000 - (y - pa.y) * 0x20000000000000 <= zabc <= 0x8000000000000 + (y
                - pa.y) * 0x20000000000000,
            y - pa.y <= 32768,
        decreases pb.y - y,
    {
        let ghost before = *frame;
        scanline(frame, y, xac, xabc, zac, zabc, color);
        proof {
            lemma_monotone_trans(f0, before, *frame, color);
            lemma_row_step(f0, before, *frame, pa.y as int, pc.y as int, y as int);
            lemma_fill_step(
                f0,
                before,
                *frame,
                s0,
                y as int,
                xac as int,
                xabc as int,
                zac as int,
                zabc as int,
                color,
                true,
            );
            assert((y + 1 - pa.y) * (dxac as int) == (y - pa.y) * (dxac as int) + (dxac as int)
                && (y + 1 - pa.y) * (dxab as int) == (y - pa.y) * (dxab as int) + (dxab as int)
                && (y + 1 - pa.y) * (dzac as int) == (y - pa.y) * (dzac as int) + (dzac as int)
                && (y + 1 - pa.y) * (dzab as int) == (y - pa.y) * (dzab as int) + (dzab as int))
                by (nonlinear_arith);
        }
        xac = xac + (dxac as i128);
        xabc = xabc + (dxab as i128);
        zac = zac + (dzac as i128);
        zabc = zabc + (dzab as i128);
        y = y + 1;
    }
    xabc = (pb.x as i128) * 65536;
    zabc = pb.depth as i128;
    let mut y2: i64 = pb.y;
    let ghost ybase = y2;
    let ghost xac0 = xac;
    let ghost zac0 = zac;
    proof {
        assert((pb.y - pb.y) * (dxbc as int) == 0) by (nonlinear_arith);
    }
    while y2 < pc.y
        invariant
            frame.wf(),
            frame.width == f0.width,
            frame.height == f0.height,
            depth_monotone(f0, *frame, color),
            rows_outside_unchanged(f0, *frame, pa.y as int, pc.y as int),
            ybase <= y2 <= pc.y,
            pa.y <= ybase,
            0 <= pa.y,
            0 <= ybase && pc.y <= frame.height,
            ybase == pb.y,
            pa.y <= pb.y <= pc.y,
            pa == s0.a && pb == s0.b && pc == s0.c,
            dxac == step_of((pc.x - pa.x) * 65536, pc.y - pa.y),
            dxbc == step_of((pc.x - pb.x) * 65536, pc.y - pb.y),
            dzac == step_of(pc.depth - pa.depth, pc.y - pa.y),
            xac == pa.x * 65536 + (y2 - pa.y) * (dxac as int),
            xabc == pb.x * 65536 + (y2 - pb.y) * (dxbc as int),
            zac == pa.depth + (pb.y - pa.y) * (dzac as int),
            zabc == pb.depth,
            forall|i: int|
                #![trigger frame.buffer@[i]]
                #![trigger frame.depth_buffer@[i]]
                0 <= i < f0.buffer@.len() && i < f0.depth_buffer@.len() ==> fill_partial(
                    f0,
                    *frame,
                    s0,
                    i,
                    color,
                    y2 as int,
                ),
            -0x80000000000 <= dxbc <= 0x80000000000,
            -0x80000000000 <= dxac <= 0x80000000000,
            -0x1000000000000000 <= xac0 <= 0x1000000000000000,
            xac0 - (y2 - ybase) * 0x100000000000 <= xac <= xac0 + (y2 - ybase) * 0x100000000000,
            -0x200000000 - (y2 - ybase) * 0x100000000000 <= xabc <= 0x200000000 + (y2 - ybase)
                * 0x100000000000,
            -0x8000000000000 - 32768 * 0x20000000000000 <= zac0 <= 0x8000000000000 + 32768
                * 0x20000000000000,
            zac == zac0,
            -0x8000000000000 <= zabc <= 0x8000000000000,
            y2 - ybase <= 32768,
        decreases pc.y - y2,
    {
        let ghost before = *frame;
        scanline(frame, y2, xac, xabc, zac, zabc, color);
        proof {
            lemma_monotone_trans(f0, before, *frame, color);
            lemma_row_step(f0, before, *frame, pa.y as int, pc.y as int, y2 as int);
            lemma_fill_step(
                f0,
                before,
                *frame,
                s0,
                y2 as int,
                xac as int,
                xabc as int,
                zac as int,
                zabc as int,
                color,
                false,
            );
            assert((y2 + 1 - pa.y) * (dxac as int) == (y2 - pa.y) * (dxac as int) + (dxac as int)
                && (y2 + 1 - pb.y) * (dxbc as int) == (y2 - pb.y) * (dxbc as int) + (
            dxbc as int)) by (nonlinear_arith);
        }
        xac = xac + (dxac as i128);
        xabc = xabc + (dxbc as i128);
        y2 = y2 + 1;
    }
    proof {
        assert forall|i: int|
            #![trigger final(frame).buffer@[i]]
            #![trigger final(frame).depth_buffer@[i]]
            0 <= i < f0.buffer@.len() && i < f0.depth_buffer@.len() implies {
            let yy = i / (f0.width as int);
            if s0.a.y <= yy < s0.b.y {
                top_row_state(f0, *frame, s0, yy, i, color)
            } else if s0.b.y <= yy < s0.c.y {
                bot_row_state(f0, *frame, s0, yy, i, color)
            } else {
                pixel_unchanged(f0, *frame, i)
            }
        } by {
            assert(fill_partial(f0, *frame, s0, i, color, pc.y as int));
        };
    }
}

/// One scanline within the row range keeps the pixels outside that
/// range untouched.
proof fn lemma_row_step(f0: Frame, f1: Frame, f2: Frame, lo: int, hi: int, y: int)
    requires
        lo <= y < hi,
        f1.width == f0.width,
        f1.buffer@.len() == f0.buffer@.len(),
        f1.depth_buffer@.len() == f0.depth_buffer@.len(),
        rows_outside_unchanged(f0, f1, lo, hi),
        rows_outside_unchanged(f1, f2, y, y + 1),
    ensures
        rows_outside_unchanged(f0, f2, lo, hi),
{
    let w = f0.width as int;
    vstd::arithmetic::mul::lemma_mul_inequality(lo, y, w);
    vstd::arithmetic::mul::lemma_mul_inequality(y + 1, hi, w);
    assert forall|i: int|
        0 <= i < f0.buffer@.len() && i < f0.depth_buffer@.len() && (i < lo * w || i >= hi * w)
        implies f2.buffer@[i] == f0.buffer@[i] && f2.depth_buffer@[i] == f0.depth_buffer@[i] by {
        assert(f1.buffer@[i] == f0.buffer@[i] && f1.depth_buffer@[i] == f0.depth_buffer@[i]);
        assert(f2.buffer@[i] == f1.buffer@[i] && f2.depth_buffer@[i] == f1.depth_buffer@[i]);
    };
}

/// Clamps both endpoints onto the screen, then draws the segment.
pub fn draw_line(frame: &mut Frame, start: VecScreen, end: VecScreen, color: u32)
    requires
        old(frame).wf(),
        -CLIP_D_MAX <= start.depth <= CLIP_D_MAX,
        -CLIP_D_MAX <= end.depth <= CLIP_D_MAX,
    ensures
        final(frame).wf(),
        final(frame).width == old(frame).width,
        final(frame).height == old(frame).height,
        depth_monotone(*old(frame), *final(frame), color),
        (final(frame).buffer@, final(frame).depth_buffer@) == bres_spec(
            (old(frame).buffer@, old(frame).depth_buffer@),
            old(frame).width as int,
            old(frame).height as int,
            clamped_corner(start, old(frame).width as int, old(frame).height as int),
            clamped_corner(end, old(frame).width as int, old(frame).height as int),
            color,
        ),
{
    let w = frame.width as i64;
    let h = frame.height as i64;
    let s = start.clamp_screen(w, h);
    let e = end.clamp_screen(w, h);
    proof {
        assert(s == clamped_corner(start, w as int, h as int));
        assert(e == clamped_corner(end, w as int, h as int));
    }
    bresenham_line(frame, s, e, color);
}

} // verus!
