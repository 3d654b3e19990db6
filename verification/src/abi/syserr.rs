//! Error values returned in the high range of a syscall result.

use vstd::prelude::*;

verus! {

/// Unknown syscall number.
pub const NOSYS: u64 = 0xFFFF_FFFF_FFFF_FFFF;
/// An argument was invalid (bad pointer, bad length, ...).
pub const INVAL: u64 = 0xFFFF_FFFF_FFFF_FFFE;

} // verus!
