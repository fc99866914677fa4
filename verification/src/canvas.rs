//! A bounds-checked pixel canvas: a flat, row-major buffer of packed 32-bit
//! colors with a fixed stride (pixels per row) and height. Every write goes
//! through [`Canvas::plot`], whose precondition keeps the index in range, so
//! no draw pass can ever touch memory outside the buffer.

use vstd::prelude::*;

verus! {

/// A flat, row-major pixel buffer of `stride * height` packed colors.
pub struct Canvas {
    buf: Vec<u32>,
    stride: usize,
    height: usize,
}

/// The buffer that results from painting every pixel of `pixels` (addressed
/// as `(column, row)` pairs) with `color`, leaving all other cells of `buf`
/// unchanged. Cell `i` holds pixel `(i % stride, i / stride)`.
pub open spec fn paint(buf: Seq<u32>, pixels: Set<(int, int)>, stride: int, color: u32) -> Seq<u32> {
    Seq::new(buf.len(), |i: int| if pixels.contains((i % stride, i / stride)) { color } else { buf[i] })
}

/// Law: painting a pixel set with a color is idempotent — painting the same
/// set in the same color a second time leaves the buffer exactly as one
/// painting left it. Drawing a triangle or a whole wireframe twice with one
/// color therefore leaves the canvas identical to drawing it once.
pub proof fn lemma_paint_idempotent(buf: Seq<u32>, pixels: Set<(int, int)>, stride: int, color: u32)
    ensures
        paint(paint(buf, pixels, stride, color), pixels, stride, color) == paint(
            buf,
            pixels,
            stride,
            color,
        ),
{
    assert(paint(paint(buf, pixels, stride, color), pixels, stride, color) =~= paint(
        buf,
        pixels,
        stride,
        color,
    ));
}

impl Canvas {
    /// The pixel contents, row-major: cell `y * stride + x` is pixel `(x, y)`.
    pub closed spec fn view(&self) -> Seq<u32> {
        self.buf@
    }

    /// Pixels per row.
    pub closed spec fn stride(&self) -> int {
        self.stride as int
    }

    /// Number of rows.
    pub closed spec fn height(&self) -> int {
        self.height as int
    }

    /// The canvas shape is consistent: a positive stride and a buffer of
    /// exactly `stride * height` cells.
    pub open spec fn wf(&self) -> bool {
        &&& self@.len() == self.stride() * self.height()
        &&& self.stride() >= 1
        &&& self.stride() <= usize::MAX
        &&& self.height() <= usize::MAX
    }

    /// Creates a canvas of `stride * height` pixels, all set to `fill`.
    pub fn new(stride: usize, height: usize, fill: u32) -> (c: Canvas)
        requires
            stride >= 1,
            stride * height <= usize::MAX,
        ensures
            c.wf(),
            c.stride() == stride,
            c.height() == height,
            c@ == Seq::new((stride * height) as nat, |i: int| fill),
    {
        let mut buf: Vec<u32> = Vec::new();
        let n: usize = stride * height;
        while buf.len() < n
            invariant
                buf@.len() <= n,
                forall|i: int| 0 <= i < buf@.len() ==> buf@[i] == fill,
            decreases n - buf@.len(),
        {
            buf.push(fill);
        }
        let c = Canvas { buf, stride, height };
        proof {
            assert(c@ =~= Seq::new((stride * height) as nat, |i: int| fill));
        }
        c
    }

    /// Writes `color` at pixel `(x, y)`; the precondition keeps the computed
    /// index strictly below the buffer length.
    pub fn plot(&mut self, x: usize, y: usize, color: u32)
        requires
            old(self).wf(),
            x < old(self).stride(),
            y < old(self).height(),
        ensures
            final(self).wf(),
            final(self).stride() == old(self).stride(),
            final(self).height() == old(self).height(),
            final(self)@ == old(self)@.update(y * old(self).stride() + x, color),
    {
        let n: usize = self.buf.len();
        proof {
            lemma_row_major_index_in_range(x as int, y as int, self.stride as int, self.height as int);
            assert(y * self.stride() + x < n);
        }
        let idx: usize = y * self.stride + x;
        self.buf[idx] = color;
    }

    /// Reads the pixel at `(x, y)`.
    pub fn get(&self, x: usize, y: usize) -> (c: u32)
        requires
            self.wf(),
            x < self.stride(),
            y < self.height(),
        ensures
            c == self@[y * self.stride() + x],
    {
        let n: usize = self.buf.len();
        proof {
            lemma_row_major_index_in_range(x as int, y as int, self.stride as int, self.height as int);
            assert(y * self.stride() + x < n);
        }
        let idx: usize = y * self.stride + x;
        self.buf[idx]
    }

    /// Pixels per row, as a machine integer.
    pub fn stride_px(&self) -> (s: usize)
        ensures
            s == self.stride(),
    {
        self.stride
    }

    /// Number of rows, as a machine integer.
    pub fn height_px(&self) -> (h: usize)
        ensures
            h == self.height(),
    {
        self.height
    }

    /// Borrows the raw pixel data, for a caller that presents the frame.
    pub fn data(&self) -> (r: &Vec<u32>)
        ensures
            r@ == self@,
    {
        &self.buf
    }
}

/// A pixel in range of the canvas has its row-major cell index in range of
/// the buffer.
proof fn lemma_row_major_index_in_range(x: int, y: int, stride: int, height: int)
    requires
        0 <= x < stride,
        0 <= y < height,
    ensures
        0 <= y * stride + x < stride * height,
{
    assert(y * stride + x < stride * height) by (nonlinear_arith)
        requires
            0 <= x < stride,
            0 <= y < height,
    ;
    assert(y * stride >= 0) by (nonlinear_arith)
        requires
            0 <= y,
            0 <= stride,
    ;
}

} // verus!
