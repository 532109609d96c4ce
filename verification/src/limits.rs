//! Size limits shared by the decoder and the encoder.

use vstd::prelude::*;

verus! {

/// Number of palette registers.
pub const SIXEL_PALETTE_MAX: usize = 256;

/// Largest accepted image width in pixels.
pub const SIXEL_WIDTH_LIMIT: usize = 1000000;

/// Largest accepted image height in pixels.
pub const SIXEL_HEIGHT_LIMIT: usize = 1000000;

/// Largest accepted number of pixels in one image.
pub const MAX_PIXELS: usize = 64 * 1024 * 1024;

/// Height of one sixel band in pixels.
pub const SIXEL_CELL_HEIGHT: usize = 6;

/// Largest accepted repeat count.
pub const MAX_REPEAT: usize = 0xffff;

/// Whether an image of `width` by `height` pixels is within every limit.
pub open spec fn within_limits(width: int, height: int) -> bool {
    &&& 0 <= width <= SIXEL_WIDTH_LIMIT
    &&& 0 <= height <= SIXEL_HEIGHT_LIMIT
    &&& width * height <= MAX_PIXELS
}

/// A product of two bounded factors is bounded by the product of the bounds.
pub proof fn lemma_mul_bounded(a: int, b: int, x: int, y: int)
    requires
        0 <= a <= x,
        0 <= b <= y,
    ensures
        0 <= a * b <= x * y,
{
    assert(0 <= a * b <= x * y) by (nonlinear_arith)
        requires
            0 <= a <= x,
            0 <= b <= y,
    ;
}

} // verus!
