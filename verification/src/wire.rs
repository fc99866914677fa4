//! The wireframe projector: maps 3D model vertices (given in signed 16.16
//! fixed point, where [`FP_ONE`] stands for 1.0) into framebuffer
//! coordinates with an orthographic screen mapping, and outlines every
//! triangle of an indexed mesh with three line-rasterizer calls.
//!
//! The screen mapping sends model x in [-1, 1] to [0, width] with no flip
//! and model y in [-1, 1] to [height, 0] (model space is y-up, pixel space
//! y-down), then clamps both coordinates into `[0, dimension - 1]`.

use vstd::prelude::*;
use vstd::arithmetic::div_mod::lemma_div_is_ordered;
use vstd::arithmetic::div_mod::lemma_div_multiples_vanish;
use vstd::arithmetic::div_mod::lemma_fundamental_div_mod_converse;
use vstd::arithmetic::mul::lemma_mul_inequality;
use crate::canvas::Canvas;
use crate::canvas::paint;
use crate::packed_color;
use crate::raster::line_pixels;

verus! {

/// The fixed-point unit: model coordinate 1.0.
pub const FP_ONE: i32 = 65536;

/// `v` forced into `[lo, hi]`.
pub open spec fn clamp_int(v: int, lo: int, hi: int) -> int {
    if v < lo {
        lo
    } else if v > hi {
        hi
    } else {
        v
    }
}

/// The screen column of model coordinate `vx` (16.16 fixed point) on a
/// logical width of `w` pixels: `(vx + 1) * (w / 2)` carried out in fixed
/// point, clamped into `[0, w - 1]`.
pub open spec fn project_x(vx: int, w: int) -> int {
    clamp_int(((vx + 65536) * w) / 131072, 0, w - 1)
}

/// The screen row of model coordinate `vy` (16.16 fixed point) on a logical
/// height of `h` pixels: `(1 - vy) * (h / 2)` carried out in fixed point
/// (the subtraction flips y), clamped into `[0, h - 1]`.
pub open spec fn project_y(vy: int, h: int) -> int {
    clamp_int(((65536 - vy) * h) / 131072, 0, h - 1)
}

/// Clamping the model coordinate into [-1, 1] before projecting lands on
/// the same screen coordinate as projecting first and clamping after: the
/// screen mapping is monotonic and sends the model interval ends onto (or
/// beyond) the screen interval ends.
proof fn lemma_project_clamp_input(v: int, w: int)
    requires
        1 <= w,
    ensures
        clamp_int(((clamp_int(v, -65536, 65536) + 65536) * w) / 131072, 0, w - 1) == clamp_int(
            ((v + 65536) * w) / 131072,
            0,
            w - 1,
        ),
{
    if v < -65536 {
        assert((v + 65536) * w <= (-1) * w) by {
            lemma_mul_inequality(v + 65536, -1, w);
        }
        assert(((v + 65536) * w) / 131072 <= ((-1) * w) / 131072) by {
            lemma_div_is_ordered((v + 65536) * w, (-1) * w, 131072);
        }
        assert(((-1) * w) / 131072 <= 0) by {
            lemma_div_is_ordered((-1) * w, 0, 131072);
        }
        assert((0 * w) / 131072 == 0) by {
            assert(0 * w == 131072 * 0) by (nonlinear_arith);
            lemma_div_multiples_vanish(0, 131072);
        }
    } else if v > 65536 {
        assert((131072) * w <= (v + 65536) * w) by {
            lemma_mul_inequality(131072, v + 65536, w);
        }
        assert((131072 * w) / 131072 == w) by {
            lemma_div_multiples_vanish(w, 131072);
        }
        assert(w <= ((v + 65536) * w) / 131072) by {
            lemma_div_is_ordered(131072 * w, (v + 65536) * w, 131072);
        }
    }
}

/// Projects one model vertex onto the logical screen: the column for its x,
/// the row for its y, both clamped into range. Total over all `i32` inputs,
/// so no vertex position, however far outside [-1, 1], can produce an
/// out-of-range screen coordinate.
pub fn project_vertex(vx: i32, vy: i32, lw: u32, lh: u32) -> (p: (i32, i32))
    requires
        1 <= lw <= 1000000,
        1 <= lh <= 1000000,
    ensures
        p.0 == project_x(vx as int, lw as int),
        p.1 == project_y(vy as int, lh as int),
        0 <= p.0 < lw,
        0 <= p.1 < lh,
{
    let cvx: i32 = if vx < -FP_ONE {
        -FP_ONE
    } else if vx > FP_ONE {
        FP_ONE
    } else {
        vx
    };
    let cvy: i32 = if vy < -FP_ONE {
        -FP_ONE
    } else if vy > FP_ONE {
        FP_ONE
    } else {
        vy
    };
    let ax: u64 = (cvx + FP_ONE) as u64;
    let ay: u64 = (FP_ONE - cvy) as u64;
    let aw: u64 = lw as u64;
    let ah: u64 = lh as u64;
    proof {
        assert(ax * aw <= 131072 * 1000000 && ay * ah <= 131072 * 1000000) by (nonlinear_arith)
            requires
                ax <= 131072,
                aw <= 1000000,
                ay <= 131072,
                ah <= 1000000,
        ;
    }
    let nx: u64 = ax * aw;
    let ny: u64 = ay * ah;
    let qx: u64 = nx / 131072;
    let qy: u64 = ny / 131072;
    let sx: u32 = if qx > (lw - 1) as u64 {
        lw - 1
    } else {
        qx as u32
    };
    let sy: u32 = if qy > (lh - 1) as u64 {
        lh - 1
    } else {
        qy as u32
    };
    proof {
        lemma_project_clamp_input(vx as int, lw as int);
        lemma_project_clamp_input(-(vy as int), lh as int);
        assert(65536 - cvy == clamp_int(-(vy as int), -65536, 65536) + 65536);
        assert(qx <= lw) by {
            assert(nx <= 131072 * (lw as int)) by (nonlinear_arith)
                requires
                    nx == (cvx + FP_ONE) * (lw as int),
                    0 <= cvx + FP_ONE <= 131072,
                    0 <= lw,
            ;
            lemma_div_is_ordered(nx as int, 131072 * (lw as int), 131072);
            lemma_div_multiples_vanish(lw as int, 131072);
        }
        assert(qy <= lh) by {
            assert(ny <= 131072 * (lh as int)) by (nonlinear_arith)
                requires
                    ny == (65536 - cvy) * (lh as int),
                    0 <= 65536 - cvy <= 131072,
                    0 <= lh,
            ;
            lemma_div_is_ordered(ny as int, 131072 * (lh as int), 131072);
            lemma_div_multiples_vanish(lh as int, 131072);
        }
    }
    (sx as i32, sy as i32)
}

/// The pixels of the three edges of the triangle `p0 p1 p2`, drawn at the
/// given device pixel scale.
pub open spec fn triangle_pixels(p0: (int, int), p1: (int, int), p2: (int, int), scale: int) -> Set<
    (int, int),
> {
    line_pixels(p0.0 * scale, p0.1 * scale, p1.0 * scale, p1.1 * scale).union(
        line_pixels(p1.0 * scale, p1.1 * scale, p2.0 * scale, p2.1 * scale),
    ).union(line_pixels(p2.0 * scale, p2.1 * scale, p0.0 * scale, p0.1 * scale))
}

/// Painting one set and then another, with one color, paints their union.
pub proof fn lemma_paint_paint(
    buf: Seq<u32>,
    s: Set<(int, int)>,
    t: Set<(int, int)>,
    stride: int,
    color: u32,
)
    ensures
        paint(paint(buf, s, stride, color), t, stride, color) == paint(
            buf,
            s.union(t),
            stride,
            color,
        ),
{
    assert(paint(paint(buf, s, stride, color), t, stride, color) =~= paint(
        buf,
        s.union(t),
        stride,
        color,
    ));
}

/// A coordinate below `lim` stays below `bound` after scaling, when `lim`
/// scaled is within `bound`.
proof fn lemma_scaled_in_range(c: int, lim: int, scale: int, bound: int)
    requires
        0 <= c < lim,
        1 <= scale,
        lim * scale <= bound,
    ensures
        0 <= c * scale < bound,
{
    assert(0 <= c * scale && c * scale < lim * scale) by (nonlinear_arith)
        requires
            0 <= c < lim,
            1 <= scale,
    ;
}

/// Draws the outline of the triangle `p0 p1 p2`: the three edges
/// `p0 -> p1`, `p1 -> p2`, `p2 -> p0`, each at the device pixel scale, in
/// the color packed from the three channels. Exactly the union of the three
/// edges' pixels is painted; every other cell keeps its value.
pub fn draw_triangle(
    canvas: &mut Canvas,
    p0: (i32, i32),
    p1: (i32, i32),
    p2: (i32, i32),
    scale: i32,
    r: u32,
    g: u32,
    b: u32,
)
    requires
        old(canvas).wf(),
        1 <= scale,
        r < 256,
        g < 256,
        b < 256,
        0 <= p0.0 * scale < old(canvas).stride(),
        0 <= p1.0 * scale < old(canvas).stride(),
        0 <= p2.0 * scale < old(canvas).stride(),
        0 <= p0.1 * scale < old(canvas).height(),
        0 <= p1.1 * scale < old(canvas).height(),
        0 <= p2.1 * scale < old(canvas).height(),
    ensures
        final(canvas).wf(),
        final(canvas).stride() == old(canvas).stride(),
        final(canvas).height() == old(canvas).height(),
        final(canvas)@ == paint(
            old(canvas)@,
            triangle_pixels((p0.0 as int, p0.1 as int), (p1.0 as int, p1.1 as int), (p2.0 as int, p2.1 as int), scale as int),
            old(canvas).stride(),
            packed_color(r, g, b),
        ),
{
    let ghost buf0: Seq<u32> = canvas@;
    let ghost stride0: int = canvas.stride();
    let ghost color: u32 = packed_color(r, g, b);
    let ghost e01: Set<(int, int)> = line_pixels(
        p0.0 * scale,
        p0.1 * scale,
        p1.0 * scale,
        p1.1 * scale,
    );
    let ghost e12: Set<(int, int)> = line_pixels(
        p1.0 * scale,
        p1.1 * scale,
        p2.0 * scale,
        p2.1 * scale,
    );
    let ghost e20: Set<(int, int)> = line_pixels(
        p2.0 * scale,
        p2.1 * scale,
        p0.0 * scale,
        p0.1 * scale,
    );
    crate::raster::line(canvas, p0.0, p0.1, p1.0, p1.1, scale, r, g, b);
    crate::raster::line(canvas, p1.0, p1.1, p2.0, p2.1, scale, r, g, b);
    crate::raster::line(canvas, p2.0, p2.1, p0.0, p0.1, scale, r, g, b);
    proof {
        lemma_paint_paint(buf0, e01, e12, stride0, color);
        lemma_paint_paint(buf0, e01.union(e12), e20, stride0, color);
    }
}

/// Why a mesh is rejected before anything is drawn.
#[derive(Debug, PartialEq, Eq, Structural)]
pub enum MeshError {
    /// The face list's length is not a multiple of three.
    FaceListNotTriples,
    /// A face names a vertex with no coordinates in the vertex list.
    VertexIndexOutOfRange,
}

/// A well-formed indexed triangle mesh: whole faces only, and every vertex
/// index has its three coordinates in the position list.
pub open spec fn mesh_ok(pos: Seq<i32>, idx: Seq<u32>) -> bool {
    &&& idx.len() % 3 == 0
    &&& forall|j: int| 0 <= j < idx.len() ==> 3 * ((#[trigger] idx[j]) as int) + 2 < pos.len()
}

/// The projected screen point of vertex `v`: its x and y coordinates sit at
/// positions `3*v` and `3*v + 1` of the flat position list (z is unused by
/// the wireframe).
pub open spec fn vertex_point(pos: Seq<i32>, v: int, lw: int, lh: int) -> (int, int) {
    (project_x(pos[3 * v] as int, lw), project_y(pos[3 * v + 1] as int, lh))
}

/// The pixels of the outline of face `f`.
pub open spec fn face_pixels(
    pos: Seq<i32>,
    idx: Seq<u32>,
    f: int,
    lw: int,
    lh: int,
    scale: int,
) -> Set<(int, int)> {
    triangle_pixels(
        vertex_point(pos, idx[3 * f] as int, lw, lh),
        vertex_point(pos, idx[3 * f + 1] as int, lw, lh),
        vertex_point(pos, idx[3 * f + 2] as int, lw, lh),
        scale,
    )
}

/// The pixels of the outlines of the first `nf` faces.
pub open spec fn wireframe_pixels_upto(
    pos: Seq<i32>,
    idx: Seq<u32>,
    lw: int,
    lh: int,
    scale: int,
    nf: int,
) -> Set<(int, int)>
    decreases nf,
{
    if nf <= 0 {
        Set::empty()
    } else {
        wireframe_pixels_upto(pos, idx, lw, lh, scale, nf - 1).union(
            face_pixels(pos, idx, nf - 1, lw, lh, scale),
        )
    }
}

/// The pixels of the outlines of every face of the mesh.
pub open spec fn wireframe_pixels(
    pos: Seq<i32>,
    idx: Seq<u32>,
    lw: int,
    lh: int,
    scale: int,
) -> Set<(int, int)> {
    wireframe_pixels_upto(pos, idx, lw, lh, scale, idx.len() as int / 3)
}

/// Draws the outline of every triangle of the mesh, in face order: each
/// vertex is projected onto the `lw` by `lh` logical screen, and the three
/// edges of each face are drawn at the device pixel scale. A face list that
/// is not whole triples, or a face naming a missing vertex, is rejected
/// before anything is drawn.
#[verifier::loop_isolation(false)]
pub fn draw_wireframe(
    canvas: &mut Canvas,
    positions: &Vec<i32>,
    indices: &Vec<u32>,
    lw: u32,
    lh: u32,
    scale: i32,
    r: u32,
    g: u32,
    b: u32,
) -> (res: Result<(), MeshError>)
    requires
        old(canvas).wf(),
        1 <= scale,
        1 <= lw <= 1000000,
        1 <= lh <= 1000000,
        lw * scale <= old(canvas).stride(),
        lh * scale <= old(canvas).height(),
        r < 256,
        g < 256,
        b < 256,
    ensures
        final(canvas).wf(),
        final(canvas).stride() == old(canvas).stride(),
        final(canvas).height() == old(canvas).height(),
        res is Ok <==> mesh_ok(positions@, indices@),
        res == Result::<(), MeshError>::Err(MeshError::FaceListNotTriples) <==> indices@.len() % 3
            != 0,
        res is Err ==> final(canvas)@ == old(canvas)@,
        res is Ok ==> final(canvas)@ == paint(
            old(canvas)@,
            wireframe_pixels(positions@, indices@, lw as int, lh as int, scale as int),
            old(canvas).stride(),
            packed_color(r, g, b),
        ),
{
    if indices.len() % 3 != 0 {
        return Err(MeshError::FaceListNotTriples);
    }
    let mut j: usize = 0;
    while j < indices.len()
        invariant
            j <= indices@.len(),
            forall|t: int| 0 <= t < j ==> 3 * ((#[trigger] indices@[t]) as int) + 2
                < positions@.len(),
        decreases indices@.len() - j,
    {
        let v: u64 = indices[j] as u64;
        if 3 * v + 2 >= positions.len() as u64 {
            return Err(MeshError::VertexIndexOutOfRange);
        }
        j = j + 1;
    }
    let ghost buf0: Seq<u32> = canvas@;
    let ghost stride0: int = canvas.stride();
    let ghost height0: int = canvas.height();
    let ghost color: u32 = packed_color(r, g, b);
    let plen: usize = positions.len();
    let nf: usize = indices.len() / 3;
    let mut f: usize = 0;
    while f < nf
        invariant
            f <= nf,
            canvas.wf(),
            canvas.stride() == stride0,
            canvas.height() == height0,
            canvas@ == paint(
                buf0,
                wireframe_pixels_upto(
                    positions@,
                    indices@,
                    lw as int,
                    lh as int,
                    scale as int,
                    f as int,
                ),
                stride0,
                color,
            ),
        decreases nf - f,
    {
        let i0: usize = indices[3 * f] as usize;
        let i1: usize = indices[3 * f + 1] as usize;
        let i2: usize = indices[3 * f + 2] as usize;
        proof {
            assert(positions@.len() == plen <= usize::MAX);
            assert(3 * (i0 as int) + 2 < positions@.len());
            assert(3 * (i1 as int) + 2 < positions@.len());
            assert(3 * (i2 as int) + 2 < positions@.len());
        }
        let q0 = project_vertex(positions[3 * i0], positions[3 * i0 + 1], lw, lh);
        let q1 = project_vertex(positions[3 * i1], positions[3 * i1 + 1], lw, lh);
        let q2 = project_vertex(positions[3 * i2], positions[3 * i2 + 1], lw, lh);
        proof {
            lemma_scaled_in_range(q0.0 as int, lw as int, scale as int, stride0);
            lemma_scaled_in_range(q1.0 as int, lw as int, scale as int, stride0);
            lemma_scaled_in_range(q2.0 as int, lw as int, scale as int, stride0);
            lemma_scaled_in_range(q0.1 as int, lh as int, scale as int, height0);
            lemma_scaled_in_range(q1.1 as int, lh as int, scale as int, height0);
            lemma_scaled_in_range(q2.1 as int, lh as int, scale as int, height0);
        }
        draw_triangle(canvas, q0, q1, q2, scale, r, g, b);
        proof {
            lemma_paint_paint(
                buf0,
                wireframe_pixels_upto(
                    positions@,
                    indices@,
                    lw as int,
                    lh as int,
                    scale as int,
                    f as int,
                ),
                face_pixels(positions@, indices@, f as int, lw as int, lh as int, scale as int),
                stride0,
                color,
            );
        }
        f = f + 1;
    }
    Ok(())
}

} // verus!
