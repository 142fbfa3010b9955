//! The size of the panel and of its frames.

use vstd::prelude::*;

verus! {

/// Width of the panel in pixels.
pub const EPD_7IN3F_WIDTH: usize = 800;

/// Height of the panel in pixels.
pub const EPD_7IN3F_HEIGHT: usize = 480;

/// Bytes in one row of a frame: two pixels share a byte.
pub const ROW_BYTES: usize = EPD_7IN3F_WIDTH / 2;

/// Bytes in a whole frame.
pub const FRAME_BYTES: usize = ROW_BYTES * EPD_7IN3F_HEIGHT;

} // verus!
