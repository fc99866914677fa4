//! A minimal software rasterizer: Bresenham line drawing into a flat pixel
//! buffer, plus an orthographic wireframe projector that maps 3D model
//! vertices to screen coordinates and outlines each mesh triangle.

use vstd::prelude::*;

pub mod canvas;
pub mod raster;
pub mod wire;

pub use canvas::Canvas;

verus! {

/// The packed 32-bit pixel value for the three 8-bit channels, laid out as
/// `blue | (green << 8) | (red << 16)`.
pub open spec fn packed_color(r: u32, g: u32, b: u32) -> u32 {
    (b + g * 256 + r * 65536) as u32
}

/// Packs three 8-bit color channels into one 32-bit pixel value.
pub fn pack_color(r: u32, g: u32, b: u32) -> (c: u32)
    requires
        r < 256,
        g < 256,
        b < 256,
    ensures
        c == packed_color(r, g, b),
        c == b + g * 256 + r * 65536,
{
    proof {
        assert(b | (g << 8u32) | (r << 16u32) == b + g * 256 + r * 65536) by (bit_vector)
            requires
                r < 256u32,
                g < 256u32,
                b < 256u32,
        ;
    }
    b | (g << 8) | (r << 16)
}

} // verus!
