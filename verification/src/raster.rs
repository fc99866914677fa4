//! The line rasterizer: integer-only Bresenham drawing of a straight segment
//! between two pixel coordinates, together with a pixel-exact specification
//! of the set of plotted pixels.
//!
//! The specification mirrors the classical normalization: a segment steeper
//! than 45 degrees is transposed so that iteration always walks the dominant
//! axis, and the endpoints are ordered so the walk proceeds in increasing
//! column. For the normalized (shallow, left-to-right) segment the row at
//! each column has the closed form proved below.

use vstd::prelude::*;
use vstd::arithmetic::div_mod::lemma_fundamental_div_mod;
use vstd::arithmetic::div_mod::lemma_fundamental_div_mod_converse;
use vstd::set_lib::set_int_range;
use vstd::set_lib::lemma_int_range;
use vstd::set_lib::lemma_map_size;
use crate::canvas::Canvas;
use crate::canvas::paint;

verus! {

/// The absolute value of an integer.
pub open spec fn iabs(a: int) -> int {
    if a < 0 {
        -a
    } else {
        a
    }
}

/// The row plotted at column `x` for a shallow segment from `(x0, y0)` to
/// `(x1, y1)` (shallow: `x0 <= x1` and `|y1 - y0| <= x1 - x0`). This is the
/// closed form of Bresenham's error accumulation: the row has stepped
/// `(2*|dy|*(x - x0) + dx - 1) / (2*dx)` times, toward `y1`.
pub open spec fn shallow_row(x0: int, y0: int, x1: int, y1: int, x: int) -> int {
    if x1 <= x0 {
        y0
    } else {
        let dx = x1 - x0;
        let ady = iabs(y1 - y0);
        let step = (2 * ady * (x - x0) + dx - 1) / (2 * dx);
        if y1 >= y0 {
            y0 + step
        } else {
            y0 - step
        }
    }
}

/// The pixels of a shallow segment whose columns lie in `x0..=hi`.
pub open spec fn shallow_pixels_upto(x0: int, y0: int, x1: int, y1: int, hi: int) -> Set<(int, int)> {
    Set::new(|p: (int, int)| x0 <= p.0 <= hi && p.1 == shallow_row(x0, y0, x1, y1, p.0))
}

/// All pixels of a shallow segment: one per column of `x0..=x1`.
pub open spec fn shallow_pixels(x0: int, y0: int, x1: int, y1: int) -> Set<(int, int)> {
    shallow_pixels_upto(x0, y0, x1, y1, x1)
}

/// The same pixel set with the two coordinates of every pixel exchanged.
pub open spec fn transposed(s: Set<(int, int)>) -> Set<(int, int)> {
    Set::new(|p: (int, int)| s.contains((p.1, p.0)))
}

/// The pixels of a shallow segment whose endpoints may come in either order.
pub open spec fn directed_pixels(x0: int, y0: int, x1: int, y1: int) -> Set<(int, int)> {
    if x0 <= x1 {
        shallow_pixels(x0, y0, x1, y1)
    } else {
        shallow_pixels(x1, y1, x0, y0)
    }
}

/// The set of pixels `(column, row)` plotted by the Bresenham line from
/// `(x0, y0)` to `(x1, y1)`: a steep segment is rasterized in the transposed
/// plane and mapped back at write time.
pub open spec fn line_pixels(x0: int, y0: int, x1: int, y1: int) -> Set<(int, int)> {
    if iabs(x1 - x0) < iabs(y1 - y0) {
        transposed(directed_pixels(y0, x0, y1, x1))
    } else {
        directed_pixels(x0, y0, x1, y1)
    }
}

/// The pixel set drawn so far when the walk has covered columns up to `hi`,
/// in buffer coordinates (transposed back if the segment was steep).
pub open spec fn oriented_pixels_upto(
    steep: bool,
    x0: int,
    y0: int,
    x1: int,
    y1: int,
    hi: int,
) -> Set<(int, int)> {
    if steep {
        transposed(shallow_pixels_upto(x0, y0, x1, y1, hi))
    } else {
        shallow_pixels_upto(x0, y0, x1, y1, hi)
    }
}

/// Painting with a set that holds no pixel leaves the buffer unchanged.
proof fn lemma_paint_empty(buf: Seq<u32>, s: Set<(int, int)>, stride: int, color: u32)
    requires
        forall|p: (int, int)| !s.contains(p),
    ensures
        paint(buf, s, stride, color) == buf,
{
    assert(paint(buf, s, stride, color) =~= buf);
}

/// Painting one more in-range pixel is one buffer update at its row-major
/// cell.
proof fn lemma_paint_insert(buf: Seq<u32>, s: Set<(int, int)>, stride: int, color: u32, p: (int, int))
    requires
        stride >= 1,
        0 <= p.0 < stride,
        0 <= p.1,
        p.1 * stride + p.0 < buf.len(),
    ensures
        paint(buf, s.insert(p), stride, color) == paint(buf, s, stride, color).update(
            p.1 * stride + p.0,
            color,
        ),
{
    let idx = p.1 * stride + p.0;
    lemma_fundamental_div_mod_converse(idx, stride, p.1, p.0);
    assert forall|i: int| 0 <= i < buf.len() && i != idx implies ((#[trigger] (i % stride)), (
    i / stride)) != p by {
        if i % stride == p.0 && i / stride == p.1 {
            lemma_fundamental_div_mod(i, stride);
            assert(stride * (i / stride) == (i / stride) * stride) by (nonlinear_arith);
        }
    }
    assert(paint(buf, s.insert(p), stride, color) =~= paint(buf, s, stride, color).update(
        idx,
        color,
    ));
}

/// Extending the covered columns by one adds exactly the pixel of the new
/// column.
proof fn lemma_upto_extend(x0: int, y0: int, x1: int, y1: int, h: int)
    requires
        x0 <= h,
    ensures
        shallow_pixels_upto(x0, y0, x1, y1, h) == shallow_pixels_upto(x0, y0, x1, y1, h - 1).insert(
            (h, shallow_row(x0, y0, x1, y1, h)),
        ),
{
    assert(shallow_pixels_upto(x0, y0, x1, y1, h) =~= shallow_pixels_upto(
        x0,
        y0,
        x1,
        y1,
        h - 1,
    ).insert((h, shallow_row(x0, y0, x1, y1, h))));
}

/// Transposition commutes with inserting a pixel.
proof fn lemma_transposed_insert(s: Set<(int, int)>, p: (int, int))
    ensures
        transposed(s.insert(p)) == transposed(s).insert((p.1, p.0)),
{
    assert(transposed(s.insert(p)) =~= transposed(s).insert((p.1, p.0)));
}

/// Law: the set of plotted pixels is symmetric under swapping the endpoints:
/// the line from `(x0, y0)` to `(x1, y1)` plots exactly the pixels of the
/// line from `(x1, y1)` to `(x0, y0)`.
pub proof fn lemma_line_pixels_symmetric(x0: int, y0: int, x1: int, y1: int)
    ensures
        line_pixels(x0, y0, x1, y1) == line_pixels(x1, y1, x0, y0),
{
}

/// A shallow segment plots one pixel per column: `x1 - x0 + 1` in all.
proof fn lemma_shallow_pixels_len(x0: int, y0: int, x1: int, y1: int)
    requires
        x0 <= x1,
    ensures
        shallow_pixels(x0, y0, x1, y1).finite(),
        shallow_pixels(x0, y0, x1, y1).len() == x1 - x0 + 1,
{
    let f = (|x: int| (x, shallow_row(x0, y0, x1, y1, x)));
    let rng = set_int_range(x0, x1 + 1);
    lemma_int_range(x0, x1 + 1);
    assert forall|p: (int, int)| shallow_pixels(x0, y0, x1, y1).contains(p) implies rng.map(
        f,
    ).contains(p) by {
        assert(rng.contains(p.0) && p == f(p.0));
    };
    assert(rng.map(f) =~= shallow_pixels(x0, y0, x1, y1));
    lemma_map_size(rng, shallow_pixels(x0, y0, x1, y1), f);
}

/// Exchanging the coordinates of every pixel keeps the number of pixels.
proof fn lemma_transposed_len(s: Set<(int, int)>)
    requires
        s.finite(),
    ensures
        transposed(s).finite(),
        transposed(s).len() == s.len(),
{
    let f = (|p: (int, int)| (p.1, p.0));
    assert forall|q: (int, int)| transposed(s).contains(q) implies s.map(f).contains(q) by {
        assert(s.contains((q.1, q.0)) && q == f((q.1, q.0)));
    };
    assert(s.map(f) =~= transposed(s));
    lemma_map_size(s, transposed(s), f);
}

/// Law: the number of plotted pixels equals `max(|x1 - x0|, |y1 - y0|) + 1`:
/// one pixel per step along the dominant axis, endpoints included.
pub proof fn lemma_line_pixels_count(x0: int, y0: int, x1: int, y1: int)
    ensures
        line_pixels(x0, y0, x1, y1).finite(),
        line_pixels(x0, y0, x1, y1).len() == (if iabs(x1 - x0) >= iabs(y1 - y0) {
            iabs(x1 - x0)
        } else {
            iabs(y1 - y0)
        }) + 1,
{
    if iabs(x1 - x0) < iabs(y1 - y0) {
        if y0 <= y1 {
            lemma_shallow_pixels_len(y0, x0, y1, x1);
            lemma_transposed_len(shallow_pixels(y0, x0, y1, x1));
        } else {
            lemma_shallow_pixels_len(y1, x1, y0, x0);
            lemma_transposed_len(shallow_pixels(y1, x1, y0, x0));
        }
    } else {
        if x0 <= x1 {
            lemma_shallow_pixels_len(x0, y0, x1, y1);
        } else {
            lemma_shallow_pixels_len(x1, y1, x0, y0);
        }
    }
}

/// A horizontal line plots exactly one pixel per column, all on its row:
/// the pixels `(x, y)` for `x` between the endpoints.
pub proof fn lemma_line_pixels_horizontal(x0: int, y: int, x1: int)
    requires
        x0 <= x1,
    ensures
        line_pixels(x0, y, x1, y) == Set::new(|p: (int, int)| x0 <= p.0 <= x1 && p.1 == y),
{
    assert forall|x: int| shallow_row(x0, y, x1, y, x) == y by {
        if x0 < x1 {
            let dx = x1 - x0;
            lemma_fundamental_div_mod_converse(dx - 1, 2 * dx, 0, dx - 1);
        }
    };
    assert(line_pixels(x0, y, x1, y) =~= Set::new(
        |p: (int, int)| x0 <= p.0 <= x1 && p.1 == y,
    ));
}

/// A vertical line plots exactly one pixel per row, all in its column: the
/// pixels `(x, y)` for `y` between the endpoints.
pub proof fn lemma_line_pixels_vertical(x: int, y0: int, y1: int)
    requires
        y0 <= y1,
    ensures
        line_pixels(x, y0, x, y1) == Set::new(|p: (int, int)| p.0 == x && y0 <= p.1 <= y1),
{
    assert forall|t: int| shallow_row(y0, x, y1, x, t) == x by {
        if y0 < y1 {
            let dx = y1 - y0;
            lemma_fundamental_div_mod_converse(dx - 1, 2 * dx, 0, dx - 1);
        }
    };
    assert(line_pixels(x, y0, x, y1) =~= Set::new(
        |p: (int, int)| p.0 == x && y0 <= p.1 <= y1,
    ));
}

/// A 45-degree line plots exactly the pixels of its diagonal: one per
/// column, the row advancing in step with the column.
pub proof fn lemma_line_pixels_diagonal(x0: int, y0: int, len: int)
    requires
        0 <= len,
    ensures
        line_pixels(x0, y0, x0 + len, y0 + len) == Set::new(
            |p: (int, int)| x0 <= p.0 <= x0 + len && p.1 == y0 + (p.0 - x0),
        ),
{
    let xe = x0 + len;
    let ye = y0 + len;
    assert forall|x: int| #![trigger shallow_row(x0, y0, xe, ye, x)] x0 <= x <= xe implies shallow_row(
        x0,
        y0,
        xe,
        ye,
        x,
    ) == y0 + (x - x0) by {
        if len > 0 {
            let dx = len;
            let k = x - x0;
            assert(2 * dx * k + dx - 1 == k * (2 * dx) + (dx - 1)) by (nonlinear_arith);
            lemma_fundamental_div_mod_converse(2 * dx * k + dx - 1, 2 * dx, k, dx - 1);
        }
    };
    assert(line_pixels(x0, y0, xe, ye) =~= Set::new(
        |p: (int, int)| x0 <= p.0 <= x0 + len && p.1 == y0 + (p.0 - x0),
    ));
}

/// Draws the segment from `(x0, y0)` to `(x1, y1)` into the canvas, after
/// multiplying all four coordinates by the device pixel scale, with the
/// color packed from the three channels. Exactly the pixels of
/// [`line_pixels`] over the scaled endpoints are set to the color; every
/// other cell keeps its previous value.
pub fn line(
    canvas: &mut Canvas,
    x0: i32,
    y0: i32,
    x1: i32,
    y1: i32,
    scale: i32,
    r: u32,
    g: u32,
    b: u32,
)
    requires
        old(canvas).wf(),
        scale >= 1,
        r < 256,
        g < 256,
        b < 256,
        0 <= x0 * scale < old(canvas).stride(),
        0 <= x1 * scale < old(canvas).stride(),
        0 <= y0 * scale < old(canvas).height(),
        0 <= y1 * scale < old(canvas).height(),
    ensures
        final(canvas).wf(),
        final(canvas).stride() == old(canvas).stride(),
        final(canvas).height() == old(canvas).height(),
        final(canvas)@ == paint(
            old(canvas)@,
            line_pixels(x0 * scale, y0 * scale, x1 * scale, y1 * scale),
            old(canvas).stride(),
            crate::packed_color(r, g, b),
        ),
{
    let color: u32 = crate::pack_color(r, g, b);
    let mut ax0: i128 = (x0 as i128) * (scale as i128);
    let mut ay0: i128 = (y0 as i128) * (scale as i128);
    let mut ax1: i128 = (x1 as i128) * (scale as i128);
    let mut ay1: i128 = (y1 as i128) * (scale as i128);
    let ghost buf0: Seq<u32> = canvas@;
    let ghost stride0: int = canvas.stride();
    let ghost height0: int = canvas.height();
    let ghost pix: Set<(int, int)> = line_pixels(
        x0 * scale,
        y0 * scale,
        x1 * scale,
        y1 * scale,
    );
    let adx: i128 = if ax1 >= ax0 {
        ax1 - ax0
    } else {
        ax0 - ax1
    };
    let ady0: i128 = if ay1 >= ay0 {
        ay1 - ay0
    } else {
        ay0 - ay1
    };
    let steep: bool = adx < ady0;
    if steep {
        let t0: i128 = ax0;
        ax0 = ay0;
        ay0 = t0;
        let t1: i128 = ax1;
        ax1 = ay1;
        ay1 = t1;
    }
    if ax0 > ax1 {
        let tx: i128 = ax0;
        ax0 = ax1;
        ax1 = tx;
        let ty: i128 = ay0;
        ay0 = ay1;
        ay1 = ty;
    }
    let ghost limx: int = if steep {
        height0
    } else {
        stride0
    };
    let ghost limy: int = if steep {
        stride0
    } else {
        height0
    };
    proof {
        assert(0 <= ax0 < limx);
        assert(0 <= ax1 < limx);
        assert(0 <= ay0 < limy);
        assert(0 <= ay1 < limy);
        assert(ax0 <= ax1);
        assert(iabs(ay1 - ay0) <= ax1 - ax0);
        assert(pix == oriented_pixels_upto(
            steep,
            ax0 as int,
            ay0 as int,
            ax1 as int,
            ay1 as int,
            ax1 as int,
        ));
    }
    let dx: i128 = ax1 - ax0;
    let dy: i128 = ay1 - ay0;
    let ady: i128 = if dy >= 0 {
        dy
    } else {
        -dy
    };
    let derr: i128 = 2 * ady;
    let mut error: i128 = 0;
    let mut y: i128 = ay0;
    let mut x: i128 = ax0;
    let ghost mut n: int = 0;
    proof {
        lemma_paint_empty(
            buf0,
            oriented_pixels_upto(steep, ax0 as int, ay0 as int, ax1 as int, ay1 as int, x - 1),
            stride0,
            color,
        );
    }
    while x <= ax1
        invariant
            canvas.wf(),
            canvas.stride() == stride0,
            canvas.height() == height0,
            stride0 >= 1,
            limx == if steep { height0 } else { stride0 },
            limy == if steep { stride0 } else { height0 },
            limx <= usize::MAX,
            limy <= usize::MAX,
            dx == ax1 - ax0,
            dy == ay1 - ay0,
            ady == iabs(dy as int),
            derr == 2 * ady,
            ady <= dx,
            0 <= ax0,
            ax1 < limx,
            0 <= ay0 < limy,
            0 <= ay1 < limy,
            ax0 <= x <= ax1 + 1,
            y == if dy >= 0 { ay0 + n } else { ay0 - n },
            0 <= n,
            x <= ax1 ==> n <= ady,
            error == 2 * ady * (x - ax0) - 2 * dx * n,
            dx >= 1 ==> -dx < error <= dx,
            dx == 0 ==> error == 0 && n == 0,
            canvas@ == paint(
                buf0,
                oriented_pixels_upto(steep, ax0 as int, ay0 as int, ax1 as int, ay1 as int, x - 1),
                stride0,
                color,
            ),
            pix == oriented_pixels_upto(
                steep,
                ax0 as int,
                ay0 as int,
                ax1 as int,
                ay1 as int,
                ax1 as int,
            ),
        decreases ax1 + 1 - x,
    {
        proof {
            if dx == 0 {
                assert(y == shallow_row(ax0 as int, ay0 as int, ax1 as int, ay1 as int, x as int));
            } else {
                let k: int = x - ax0;
                let rem: int = error + dx - 1;
                assert(0 <= rem < 2 * dx);
                assert(2 * ady * k + dx - 1 == n * (2 * dx) + rem) by (nonlinear_arith)
                    requires
                        rem == error + dx - 1,
                        error == 2 * ady * k - 2 * dx * n,
                ;
                lemma_fundamental_div_mod_converse(2 * ady * k + dx - 1, 2 * dx, n, rem);
                assert(n == (2 * ady * k + dx - 1) / (2 * dx));
                assert(y == shallow_row(ax0 as int, ay0 as int, ax1 as int, ay1 as int, x as int));
            }
            assert(0 <= y < limy);
        }
        let px: usize;
        let py: usize;
        if steep {
            px = y as usize;
            py = x as usize;
        } else {
            px = x as usize;
            py = y as usize;
        }
        canvas.plot(px, py, color);
        proof {
            let p_buf: (int, int) = (px as int, py as int);
            let p_sh: (int, int) = (x as int, y as int);
            lemma_upto_extend(ax0 as int, ay0 as int, ax1 as int, ay1 as int, x as int);
            let upto_prev = shallow_pixels_upto(
                ax0 as int,
                ay0 as int,
                ax1 as int,
                ay1 as int,
                x - 1,
            );
            assert(buf0.len() == stride0 * height0);
            assert(p_buf.1 * stride0 + p_buf.0 < stride0 * height0) by (nonlinear_arith)
                requires
                    0 <= p_buf.0 < stride0,
                    0 <= p_buf.1 < height0,
            ;
            if steep {
                lemma_transposed_insert(upto_prev, p_sh);
                lemma_paint_insert(buf0, transposed(upto_prev), stride0, color, p_buf);
            } else {
                lemma_paint_insert(buf0, upto_prev, stride0, color, p_buf);
            }
            assert(canvas@ == paint(
                buf0,
                oriented_pixels_upto(steep, ax0 as int, ay0 as int, ax1 as int, ay1 as int, x as int),
                stride0,
                color,
            ));
        }
        let ghost n_head: int = n;
        let ghost k_head: int = x - ax0;
        error = error + derr;
        if error > dx {
            if ay1 > ay0 {
                y = y + 1;
            } else {
                y = y - 1;
            }
            error = error - 2 * dx;
            proof {
                n = n + 1;
            }
        }
        x = x + 1;
        proof {
            if n != n_head {
                assert(2 * dx * n == 2 * dx * n_head + 2 * dx) by (nonlinear_arith)
                    requires
                        n == n_head + 1,
                ;
            }
            assert(2 * ady * (x - ax0) == 2 * ady * k_head + 2 * ady) by (nonlinear_arith)
                requires
                    x - ax0 == k_head + 1,
            ;
            assert(error == 2 * ady * (x - ax0) - 2 * dx * n);
            if x <= ax1 {
                assert(n <= ady) by (nonlinear_arith)
                    requires
                        error == 2 * ady * (x - ax0) - 2 * dx * n,
                        dx >= 1 ==> -dx < error,
                        dx == 0 ==> n == 0,
                        x - ax0 <= dx,
                        0 <= ady <= dx,
                        0 <= n,
                ;
            }
        }
    }
    proof {
        assert(x == ax1 + 1);
        assert(canvas@ == paint(buf0, pix, stride0, color));
    }
}

} // verus!

