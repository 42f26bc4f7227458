//! The pixels that a WebGL context reads back.

use crate::render_gpu::gpu_renderer;
use vstd::prelude::*;

verus! {

/// Whether a picture of this size can be read: its bytes are counted with 32 bits.
pub open spec fn readable(width: int, height: int) -> bool {
    0 <= width * height && gpu_renderer::picture_len(width, height) <= i32::MAX
}

/// Whether a picture of this size can be read.
pub fn can_read(width: i32, height: i32) -> (r: bool)
    ensures
        r == readable(width as int, height as int),
{
    let w: i64 = width as i64;
    let h: i64 = height as i64;
    assert(-0x8000_0000 * 0x8000_0000 <= w * h <= 0x8000_0000 * 0x8000_0000) by (nonlinear_arith)
        requires
            -0x8000_0000 <= w <= 0x7fff_ffff,
            -0x8000_0000 <= h <= 0x7fff_ffff,
    ;
    let pixels: i64 = w * h;
    0 <= pixels && pixels <= 0x1fff_ffff
}

/// Room for the pixels of a picture, four bytes for each.
pub fn pixel_buffer(width: i32, height: i32) -> (r: Vec<u8>)
    requires
        readable(width as int, height as int),
    ensures
        gpu_renderer::blank(r@, gpu_renderer::picture_len(width as int, height as int)),
{
    let pixels: i32 = width * height;
    gpu_renderer::blank_bytes((pixels * 4) as usize)
}

/// A picture can be read where its bytes, four for each pixel, are between none and the
/// largest number of 32 bits.
pub proof fn law_readable_sizes(width: int, height: int)
    ensures
        readable(width, height) <==> 0 <= 4 * (width * height) <= 0x7fff_ffff,
{
    assert(width * height * 4 == 4 * (width * height)) by (nonlinear_arith);
}

} // verus!
