//! Protection flags for the `MMAP` / `MPROTECT` syscalls.

use vstd::prelude::*;

verus! {

/// No access (reserve only).
pub const NONE: u64 = 0;
/// Readable.
pub const READ: u64 = 1;
/// Writable.
pub const WRITE: u64 = 2;
/// Executable.
pub const EXEC: u64 = 4;

} // verus!
