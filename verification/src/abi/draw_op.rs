//! Operations for `DrawCmd::op`.

use vstd::prelude::*;

verus! {

/// Fill rectangle x,y,w,h with `color`.
pub const FILL_RECT: u64 = 0;
/// Draw UTF-8 text at x,y with `color`.
pub const DRAW_TEXT: u64 = 1;
/// Clear the whole client area with `color`.
pub const CLEAR: u64 = 2;
/// Draw a line from (x,y) to (x+w, y+h) with `color`.
pub const LINE: u64 = 3;
/// Draw an ellipse outline in the box x,y,w,h with `color`.
pub const ELLIPSE: u64 = 4;
/// Fill an ellipse in the box x,y,w,h with `color`.
pub const FILL_ELLIPSE: u64 = 5;
/// Outline rectangle x,y,w,h with `color` (1px).
pub const RECT: u64 = 6;
/// Blit a client pixel buffer into the window canvas at (x,y).
pub const BLIT: u64 = 7;

} // verus!
