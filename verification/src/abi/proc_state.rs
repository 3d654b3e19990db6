//! States for `ProcInfo::state`.

use vstd::prelude::*;

verus! {

/// Ready to run.
pub const RUNNABLE: u64 = 0;
/// Currently running.
pub const RUNNING: u64 = 1;
/// Finished / exited.
pub const FINISHED: u64 = 2;

} // verus!
