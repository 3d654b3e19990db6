//! Socket kinds for the `NET_SOCKET` syscall.

use vstd::prelude::*;

verus! {

/// Connectionless datagrams (UDP).
pub const DGRAM: u64 = 0;
/// Reserved for TCP; not implemented yet.
pub const STREAM: u64 = 1;

} // verus!
