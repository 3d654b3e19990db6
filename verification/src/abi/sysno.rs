//! Syscall numbers, stable v1 table. Append-only; never renumber.

use vstd::prelude::*;

verus! {

/// Query the ABI version implemented by the kernel.
pub const ABI_VERSION: u64 = 0;
/// Write bytes to the kernel debug console.
pub const DEBUG_WRITE: u64 = 1;
/// Terminate the calling task.
pub const EXIT: u64 = 2;
/// Cooperatively yield the CPU to the scheduler.
pub const YIELD: u64 = 3;
/// Monotonic timer ticks since boot.
pub const TICKS: u64 = 4;
/// Fill a framebuffer description.
pub const FB_INFO: u64 = 5;
/// Create a window.
pub const WIN_CREATE: u64 = 6;
/// Execute a drawing command on a window.
pub const WIN_CMD: u64 = 7;
/// Recompose the desktop so the window's canvas becomes visible.
pub const WIN_PRESENT: u64 = 8;
/// Pop one keyboard character.
pub const KEY_READ: u64 = 9;
/// Fill an array of process descriptors.
pub const PROC_LIST: u64 = 10;
/// Terminate a task/process by id.
pub const PROC_KILL: u64 = 11;
/// Fill system statistics.
pub const SYS_STAT: u64 = 12;
/// Map anonymous user pages.
pub const MMAP: u64 = 13;
/// Change protection on a mapped user range.
pub const MPROTECT: u64 = 14;
/// Unmap a user range.
pub const MUNMAP: u64 = 15;
/// Spawn a ring-3 thread in the current process.
pub const THREAD_CREATE: u64 = 16;
/// Wait for a thread to finish.
pub const THREAD_JOIN: u64 = 17;
/// Terminate the calling thread.
pub const THREAD_EXIT: u64 = 18;
/// Futex wait.
pub const FUTEX_WAIT: u64 = 19;
/// Futex wake.
pub const FUTEX_WAKE: u64 = 20;
/// Return the calling thread's id.
pub const THREAD_SELF: u64 = 21;
/// Monotonic high-resolution counter.
pub const CLOCK_MONO: u64 = 22;
/// Fill audio device status.
pub const AUDIO_STAT: u64 = 23;
/// Set the master output volume.
pub const AUDIO_SET_VOLUME: u64 = 24;
/// Play a generated sine tone.
pub const AUDIO_TONE: u64 = 25;
/// Play a buffer of PCM samples.
pub const AUDIO_PLAY: u64 = 26;
/// Fill an array of package registry entries.
pub const PKG_LIST: u64 = 27;
/// Install or remove a package by name.
pub const PKG_SET: u64 = 28;
/// List a VFS directory.
pub const FS_LIST: u64 = 29;
/// Read a file's bytes from the VFS.
pub const FS_READ: u64 = 30;
/// Whether the app runs in an interactive session.
pub const IS_INTERACTIVE: u64 = 31;
/// Write a file's bytes to the VFS.
pub const FS_WRITE: u64 = 32;
/// Read the real-time clock.
pub const CLOCK_RTC: u64 = 33;
/// Create a network socket.
pub const NET_SOCKET: u64 = 34;
/// Bind a socket to a local port.
pub const NET_BIND: u64 = 35;
/// Send a datagram.
pub const NET_SEND: u64 = 36;
/// Receive a datagram.
pub const NET_RECV: u64 = 37;
/// Close a socket.
pub const NET_CLOSE: u64 = 38;
/// Interface information and counters.
pub const NET_INFO: u64 = 39;
/// Number of defined syscalls (exclusive upper bound of the v1 table).
pub const COUNT: u64 = 40;

} // verus!
