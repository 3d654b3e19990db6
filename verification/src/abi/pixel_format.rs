//! Pixel format constants for `FramebufferInfo::pixel_format`.

use vstd::prelude::*;

verus! {

/// Red-green-blue, one byte each, red first.
pub const RGB: u64 = 0;
/// Blue-green-red, one byte each, blue first.
pub const BGR: u64 = 1;
/// Single-byte grayscale.
pub const GRAY: u64 = 2;
/// Unknown/other layout; consult stride and bpp only.
pub const UNKNOWN: u64 = 255;

} // verus!
