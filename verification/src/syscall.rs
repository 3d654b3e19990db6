//! Syscall screening: the syscall numbers, and for each call the checks on
//! its scalar arguments and the user buffer it reads or writes, decided
//! before any user memory is touched. Reading and writing user memory and
//! servicing the call happen at the privilege edge.

use vstd::prelude::*;
use crate::abi::{sock_kind, syserr, draw_op, DrawCmd, FsEntry};
use vstd::string::StringSliceAdditionalSpecFns;
use crate::bytes::{le32, le64};

verus! {

/// Largest UDP payload a datagram syscall carries (an Ethernet frame less
/// the IPv4 and UDP headers).
pub const UDP_MAX_PAYLOAD: u64 = 1472;

/// Byte sizes of the records the syscalls exchange.
pub const FRAMEBUFFER_INFO_SIZE: u64 = 56;
pub const DRAW_CMD_SIZE: u64 = 48;
pub const PROC_INFO_SIZE: u64 = 64;
pub const SYS_STAT_SIZE: u64 = 48;
pub const AUDIO_INFO_SIZE: u64 = 48;
pub const PKG_INFO_SIZE: u64 = 48;
pub const FS_ENTRY_SIZE: u64 = 32;
pub const RTC_TIME_SIZE: u64 = 48;
pub const NET_INFO_SIZE: u64 = 48;

/// A syscall of ABI v1.
#[derive(Clone, Copy, PartialEq, Eq, Debug, Structural)]
pub enum Sys {
    AbiVersion,
    DebugWrite,
    Exit,
    Yield,
    Ticks,
    FbInfo,
    WinCreate,
    WinCmd,
    WinPresent,
    KeyRead,
    ProcList,
    ProcKill,
    SysStat,
    Mmap,
    Mprotect,
    Munmap,
    ThreadCreate,
    ThreadJoin,
    ThreadExit,
    FutexWait,
    FutexWake,
    ThreadSelf,
    ClockMono,
    AudioStat,
    AudioSetVolume,
    AudioTone,
    AudioPlay,
    PkgList,
    PkgSet,
    FsList,
    FsRead,
    IsInteractive,
    FsWrite,
    ClockRtc,
    NetSocket,
    NetBind,
    NetSend,
    NetRecv,
    NetClose,
    NetInfo,
}

/// The number of a syscall.
pub open spec fn sys_number(s: Sys) -> u64 {
    match s {
        Sys::AbiVersion => 0,
        Sys::DebugWrite => 1,
        Sys::Exit => 2,
        Sys::Yield => 3,
        Sys::Ticks => 4,
        Sys::FbInfo => 5,
        Sys::WinCreate => 6,
        Sys::WinCmd => 7,
        Sys::WinPresent => 8,
        Sys::KeyRead => 9,
        Sys::ProcList => 10,
        Sys::ProcKill => 11,
        Sys::SysStat => 12,
        Sys::Mmap => 13,
        Sys::Mprotect => 14,
        Sys::Munmap => 15,
        Sys::ThreadCreate => 16,
        Sys::ThreadJoin => 17,
        Sys::ThreadExit => 18,
        Sys::FutexWait => 19,
        Sys::FutexWake => 20,
        Sys::ThreadSelf => 21,
        Sys::ClockMono => 22,
        Sys::AudioStat => 23,
        Sys::AudioSetVolume => 24,
        Sys::AudioTone => 25,
        Sys::AudioPlay => 26,
        Sys::PkgList => 27,
        Sys::PkgSet => 28,
        Sys::FsList => 29,
        Sys::FsRead => 30,
        Sys::IsInteractive => 31,
        Sys::FsWrite => 32,
        Sys::ClockRtc => 33,
        Sys::NetSocket => 34,
        Sys::NetBind => 35,
        Sys::NetSend => 36,
        Sys::NetRecv => 37,
        Sys::NetClose => 38,
        Sys::NetInfo => 39,
    }
}

/// The syscall numbered `nr`; `None` (answered with `NOSYS`) past the last.
pub fn sys_of(nr: u64) -> (r: Option<Sys>)
    ensures
        r is None <==> nr >= crate::abi::sysno::COUNT,
        r is Some ==> sys_number(r->0) == nr,
{
    if nr == 0 { Some(Sys::AbiVersion) } else
    if nr == 1 { Some(Sys::DebugWrite) } else
    if nr == 2 { Some(Sys::Exit) } else
    if nr == 3 { Some(Sys::Yield) } else
    if nr == 4 { Some(Sys::Ticks) } else
    if nr == 5 { Some(Sys::FbInfo) } else
    if nr == 6 { Some(Sys::WinCreate) } else
    if nr == 7 { Some(Sys::WinCmd) } else
    if nr == 8 { Some(Sys::WinPresent) } else
    if nr == 9 { Some(Sys::KeyRead) } else
    if nr == 10 { Some(Sys::ProcList) } else
    if nr == 11 { Some(Sys::ProcKill) } else
    if nr == 12 { Some(Sys::SysStat) } else
    if nr == 13 { Some(Sys::Mmap) } else
    if nr == 14 { Some(Sys::Mprotect) } else
    if nr == 15 { Some(Sys::Munmap) } else
    if nr == 16 { Some(Sys::ThreadCreate) } else
    if nr == 17 { Some(Sys::ThreadJoin) } else
    if nr == 18 { Some(Sys::ThreadExit) } else
    if nr == 19 { Some(Sys::FutexWait) } else
    if nr == 20 { Some(Sys::FutexWake) } else
    if nr == 21 { Some(Sys::ThreadSelf) } else
    if nr == 22 { Some(Sys::ClockMono) } else
    if nr == 23 { Some(Sys::AudioStat) } else
    if nr == 24 { Some(Sys::AudioSetVolume) } else
    if nr == 25 { Some(Sys::AudioTone) } else
    if nr == 26 { Some(Sys::AudioPlay) } else
    if nr == 27 { Some(Sys::PkgList) } else
    if nr == 28 { Some(Sys::PkgSet) } else
    if nr == 29 { Some(Sys::FsList) } else
    if nr == 30 { Some(Sys::FsRead) } else
    if nr == 31 { Some(Sys::IsInteractive) } else
    if nr == 32 { Some(Sys::FsWrite) } else
    if nr == 33 { Some(Sys::ClockRtc) } else
    if nr == 34 { Some(Sys::NetSocket) } else
    if nr == 35 { Some(Sys::NetBind) } else
    if nr == 36 { Some(Sys::NetSend) } else
    if nr == 37 { Some(Sys::NetRecv) } else
    if nr == 38 { Some(Sys::NetClose) } else
    if nr == 39 { Some(Sys::NetInfo) } else { None }
}

/// A user buffer a syscall will read (or write into).
#[derive(Clone, Copy, PartialEq, Eq, Debug, Structural)]
pub struct Buf {
    pub ptr: u64,
    pub len: u64,
    pub write: bool,
}

/// The outcome of screening a syscall's arguments.
#[derive(Clone, Copy, PartialEq, Eq, Debug, Structural)]
pub enum Screen {
    /// Answer with this value without doing anything.
    Reject(u64),
    /// Go on, after checking this buffer (if any) belongs to the caller.
    Proceed(Option<Buf>),
}

/// Read the buffer `[ptr, ptr+len)`.
pub open spec fn rd(ptr: u64, len: int) -> Screen {
    Screen::Proceed(Some(Buf { ptr, len: len as u64, write: false }))
}

/// Write into the buffer `[ptr, ptr+len)`.
pub open spec fn wr(ptr: u64, len: int) -> Screen {
    Screen::Proceed(Some(Buf { ptr, len: len as u64, write: true }))
}

/// The screening of each syscall, argument by argument as the dispatcher
/// checks them.
pub open spec fn screen_spec(s: Sys, a0: u64, a1: u64, a2: u64) -> Screen {
    match s {
        Sys::DebugWrite => if a1 == 0 || a1 > 64 * 1024 { Screen::Reject(syserr::INVAL) } else { rd(a0, a1 as int) },
        Sys::FbInfo => wr(a0, FRAMEBUFFER_INFO_SIZE as int),
        Sys::WinCreate => if a1 == 0 || a1 > 128 { Screen::Reject(0) } else { rd(a0, a1 as int) },
        Sys::WinCmd => rd(a1, DRAW_CMD_SIZE as int),
        Sys::ProcList => if a1 == 0 || a1 > 256 { Screen::Reject(syserr::INVAL) } else { wr(a0, a1 * PROC_INFO_SIZE) },
        Sys::SysStat => wr(a0, SYS_STAT_SIZE as int),
        Sys::ThreadCreate => if a0 == 0 || a2 == 0 { Screen::Reject(syserr::INVAL) } else { Screen::Proceed(None) },
        Sys::FutexWait => if a0 % 4 != 0 { Screen::Reject(syserr::INVAL) } else { rd(a0, 4) },
        Sys::AudioStat => wr(a0, AUDIO_INFO_SIZE as int),
        Sys::AudioPlay => if a1 == 0 { Screen::Reject(syserr::INVAL) } else { rd(a0, a1 as int) },
        Sys::PkgList => if a1 == 0 || a1 > 64 { Screen::Reject(syserr::INVAL) } else { wr(a0, a1 * PKG_INFO_SIZE) },
        Sys::PkgSet => if a1 == 0 || a1 > 64 { Screen::Reject(syserr::INVAL) } else { rd(a0, a1 as int) },
        Sys::FsList => if a2 == 0 || a2 > 128 { Screen::Reject(syserr::INVAL) } else { wr(a1, a2 * FS_ENTRY_SIZE) },
        Sys::FsRead => if a2 == 0 { Screen::Reject(syserr::INVAL) } else { wr(a1, a2 as int) },
        Sys::FsWrite => if a2 > 1024 * 1024 { Screen::Reject(syserr::INVAL) } else { rd(a1, a2 as int) },
        Sys::ClockRtc => wr(a0, RTC_TIME_SIZE as int),
        Sys::NetSocket => if a0 != sock_kind::DGRAM { Screen::Reject(syserr::INVAL) } else { Screen::Proceed(None) },
        Sys::NetBind => if a0 == 0 || a1 == 0 || a1 > 65535 { Screen::Reject(syserr::INVAL) } else { Screen::Proceed(None) },
        Sys::NetSend => if a0 == 0 || a2 > UDP_MAX_PAYLOAD { Screen::Reject(syserr::INVAL) } else { rd(a1, 16 + a2) },
        Sys::NetRecv => if a0 == 0 || a2 > UDP_MAX_PAYLOAD { Screen::Reject(syserr::INVAL) } else { wr(a1, 16 + a2) },
        Sys::NetInfo => wr(a0, NET_INFO_SIZE as int),
        _ => Screen::Proceed(None),
    }
}

fn read_buf(ptr: u64, len: u64) -> (s: Screen)
    ensures
        s == rd(ptr, len as int),
{
    Screen::Proceed(Some(Buf { ptr, len, write: false }))
}

fn write_buf(ptr: u64, len: u64) -> (s: Screen)
    ensures
        s == wr(ptr, len as int),
{
    Screen::Proceed(Some(Buf { ptr, len, write: true }))
}

/// Screen a syscall's arguments (see [`screen_spec`]).
pub fn screen(s: Sys, a0: u64, a1: u64, a2: u64) -> (r: Screen)
    ensures
        r == screen_spec(s, a0, a1, a2),
{
    let inval = Screen::Reject(syserr::INVAL);
    match s {
        Sys::DebugWrite => if a1 == 0 || a1 > 64 * 1024 { inval } else { read_buf(a0, a1) },
        Sys::FbInfo => write_buf(a0, FRAMEBUFFER_INFO_SIZE),
        Sys::WinCreate => if a1 == 0 || a1 > 128 { Screen::Reject(0) } else { read_buf(a0, a1) },
        Sys::WinCmd => read_buf(a1, DRAW_CMD_SIZE),
        Sys::ProcList => if a1 == 0 || a1 > 256 { inval } else { write_buf(a0, a1 * PROC_INFO_SIZE) },
        Sys::SysStat => write_buf(a0, SYS_STAT_SIZE),
        Sys::ThreadCreate => if a0 == 0 || a2 == 0 { inval } else { Screen::Proceed(None) },
        Sys::FutexWait => if a0 % 4 != 0 { inval } else { read_buf(a0, 4) },
        Sys::AudioStat => write_buf(a0, AUDIO_INFO_SIZE),
        Sys::AudioPlay => if a1 == 0 { inval } else { read_buf(a0, a1) },
        Sys::PkgList => if a1 == 0 || a1 > 64 { inval } else { write_buf(a0, a1 * PKG_INFO_SIZE) },
        Sys::PkgSet => if a1 == 0 || a1 > 64 { inval } else { read_buf(a0, a1) },
        Sys::FsList => if a2 == 0 || a2 > 128 { inval } else { write_buf(a1, a2 * FS_ENTRY_SIZE) },
        Sys::FsRead => if a2 == 0 { inval } else { write_buf(a1, a2) },
        Sys::FsWrite => if a2 > 1024 * 1024 { inval } else { read_buf(a1, a2) },
        Sys::ClockRtc => write_buf(a0, RTC_TIME_SIZE),
        Sys::NetSocket => if a0 != sock_kind::DGRAM { inval } else { Screen::Proceed(None) },
        Sys::NetBind => if a0 == 0 || a1 == 0 || a1 > 65535 { inval } else { Screen::Proceed(None) },
        Sys::NetSend => if a0 == 0 || a2 > UDP_MAX_PAYLOAD { inval } else { read_buf(a1, 16 + a2) },
        Sys::NetRecv => if a0 == 0 || a2 > UDP_MAX_PAYLOAD { inval } else { write_buf(a1, 16 + a2) },
        Sys::NetInfo => write_buf(a0, NET_INFO_SIZE),
        _ => Screen::Proceed(None),
    }
}

/// The answer when a buffer check fails: `0` for WIN_CREATE (no window),
/// `INVAL` otherwise.
pub fn refused(s: Sys) -> (v: u64)
    ensures
        v == if s == Sys::WinCreate { 0 } else { syserr::INVAL },
{
    if s == Sys::WinCreate { 0 } else { syserr::INVAL }
}

/// `0` on success, `INVAL` on failure (PROC_KILL, AUDIO_SET_VOLUME,
/// AUDIO_TONE, AUDIO_PLAY, PKG_SET, NET_BIND, NET_CLOSE, WIN_CMD).
pub fn status(ok: bool) -> (v: u64)
    ensures
        v == if ok { 0 } else { syserr::INVAL },
{
    if ok { 0 } else { syserr::INVAL }
}

/// The bytes FS_LIST shows for a name: without one leading `/`.
pub open spec fn display_bytes(b: Seq<u8>) -> Seq<u8> {
    if b.len() > 0 && b[0] == 0x2F { b.drop_first() } else { b }
}

/// The FS_LIST entry for a name: its display bytes, cut to 23 and NUL
/// padded to 24, and the directory flag.
pub open spec fn entry_of(name: Seq<u8>, is_dir: bool) -> (Seq<u8>, u64) {
    let d = display_bytes(name);
    (Seq::new(24, |k: int| if k < d.len() && k < 23 { d[k] } else { 0u8 }), if is_dir { 1u64 } else { 0u64 })
}

/// The FS_LIST entry for a name (see [`entry_of`]).
pub fn fs_entry(name: &str, is_dir: bool) -> (e: FsEntry)
    ensures
        (e.name@, e.is_dir) == entry_of(name.spec_bytes(), is_dir),
{
    let b = name.as_bytes();
    let skip: usize = if b.len() > 0 && b[0] == 0x2F { 1 } else { 0 };
    let mut out = [0u8; 24];
    let mut k: usize = 0;
    while k < 23 && skip + k < b.len()
        invariant
            k <= 23,
            skip <= 1,
            b@ == name.spec_bytes(),
            skip <= b@.len(),
            skip + k <= b@.len(),
            display_bytes(b@) == b@.skip(skip as int),
            forall|q: int| 0 <= q < k ==> out@[q] == display_bytes(b@)[q],
            forall|q: int| k <= q < 24 ==> out@[q] == 0,
        decreases 23 - k,
    {
        out[k] = b[skip + k];
        k = k + 1;
    }
    let e = FsEntry { name: out, is_dir: if is_dir { 1 } else { 0 } };
    assert(e.name@ =~= entry_of(b@, is_dir).0);
    e
}

/// Window size from WIN_CREATE's packed argument: width in the high 32
/// bits, height in the low, each read as `i32` and clamped to 80..=2000 and
/// 60..=2000.
pub fn win_dims(dims: u64) -> (r: (i32, i32))
    ensures
        r.0 == clamp_i32((dims >> 32) as u32 as i32, 80, 2000),
        r.1 == clamp_i32((dims & 0xFFFF_FFFF) as u32 as i32, 60, 2000),
{
    let hi = (dims >> 32) as u32 as i32;
    let lo = (dims & 0xFFFF_FFFF) as u32 as i32;
    (clamp(hi, 80, 2000), clamp(lo, 60, 2000))
}

/// `v` clamped to `lo..=hi`.
pub open spec fn clamp_i32(v: i32, lo: i32, hi: i32) -> i32 {
    if v < lo { lo } else if v > hi { hi } else { v }
}

fn clamp(v: i32, lo: i32, hi: i32) -> (r: i32)
    ensures
        r == clamp_i32(v, lo, hi),
{
    if v < lo { lo } else if v > hi { hi } else { v }
}

/// The destination of a NET_SEND: the address bytes and the little-endian
/// port at offset 4 of the 16-byte header; `None` when the port is 0 or
/// above 65535.
pub fn datagram_target(header: &[u8]) -> (r: Option<([u8; 4], u16)>)
    requires
        header@.len() >= 16,
    ensures
        (1 <= le32(header@, 4) <= 65535) == r is Some,
        r matches Some((a, p)) ==> a@ == header@.take(4) && p == le32(header@, 4),
{
    let port = crate::bytes::u32_at(header, 4);
    if port == 0 || port > 65535 {
        return None;
    }
    let a = [header[0], header[1], header[2], header[3]];
    assert(a@ =~= header@.take(4));
    Some((a, port as u16))
}

/// The 16-byte header NET_RECV writes before the payload: the address, the
/// port as a little-endian `u32` and the payload length as a little-endian
/// `u64`.
pub fn datagram_header(addr: [u8; 4], port: u16, n: u64) -> (h: [u8; 16])
    ensures
        h@.take(4) == addr@,
        le32(h@, 4) == port,
        le64(h@, 8) == n,
{
    let mut h = [0u8; 16];
    h[0] = addr[0];
    h[1] = addr[1];
    h[2] = addr[2];
    h[3] = addr[3];
    h[4] = (port % 256) as u8;
    h[5] = (port / 256) as u8;
    let mut k: usize = 0;
    let mut v = n;
    assert(pow256(0) == 1);
    while k < 8
        invariant
            k <= 8,
            h@.len() == 16,
            h@[0] == addr@[0] && h@[1] == addr@[1] && h@[2] == addr@[2] && h@[3] == addr@[3],
            h@[4] == port % 256 && h@[5] == port / 256 && h@[6] == 0 && h@[7] == 0,
            v == (n as nat) / pow256(k as nat),
            forall|q: int| 0 <= q < k ==> h@[8 + q] == ((n as nat) / #[trigger] pow256(q as nat)) % 256,
        decreases 8 - k,
    {
        h[8 + k] = (v % 256) as u8;
        proof { lemma_div_step(n, k as nat); }
        v = v / 256;
        k = k + 1;
    }
    proof {
        assert(h@.take(4) =~= addr@);
        lemma_le64_digits(h@, n);
    }
    h
}

/// `256^k`.
pub open spec fn pow256(k: nat) -> nat
    decreases k,
{
    if k == 0 { 1 } else { 256 * pow256((k - 1) as nat) }
}

proof fn lemma_div_step(n: u64, k: nat)
    ensures
        (n as nat) / pow256(k) / 256 == (n as nat) / pow256(k + 1),
        pow256(k) > 0,
{
    lemma_pow256_pos(k);
    assert(pow256(k + 1) == 256 * pow256(k));
    vstd::arithmetic::div_mod::lemma_div_denominator(n as int, pow256(k) as int, 256);
    assert(pow256(k) * 256 == 256 * pow256(k)) by (nonlinear_arith);
}

proof fn lemma_pow256_pos(k: nat)
    ensures
        pow256(k) > 0,
    decreases k,
{
    if k > 0 { lemma_pow256_pos((k - 1) as nat); }
}

proof fn lemma_le64_digits(h: Seq<u8>, n: u64)
    requires
        h.len() == 16,
        forall|q: int| 0 <= q < 8 ==> h[8 + q] == ((n as nat) / #[trigger] pow256(q as nat)) % 256,
    ensures
        le64(h, 8) == n,
{
    reveal_with_fuel(pow256, 9);
    assert(pow256(0) == 1 && pow256(1) == 256 && pow256(2) == 65536 && pow256(3) == 0x100_0000);
    assert(pow256(4) == 0x1_0000_0000 && pow256(5) == 0x100_0000_0000);
    assert(pow256(6) == 0x1_0000_0000_0000 && pow256(7) == 0x100_0000_0000_0000);
    assert(h[8 + 0int] == ((n as nat) / pow256(0)) % 256 && h[8 + 1int] == ((n as nat) / pow256(1)) % 256);
    assert(h[8 + 2int] == ((n as nat) / pow256(2)) % 256 && h[8 + 3int] == ((n as nat) / pow256(3)) % 256);
    assert(h[8 + 4int] == ((n as nat) / pow256(4)) % 256 && h[8 + 5int] == ((n as nat) / pow256(5)) % 256);
    assert(h[8 + 6int] == ((n as nat) / pow256(6)) % 256);
    let q7: int = 7;
    assert(0 <= q7 < 8);
    assert(h[8 + q7] == ((n as nat) / pow256(q7 as nat)) % 256);
    let b0 = n % 256;
    let b1 = (n / 256) % 256;
    let b2 = (n / 65536) % 256;
    let b3 = (n / 0x100_0000) % 256;
    let b4 = (n / 0x1_0000_0000) % 256;
    let b5 = (n / 0x100_0000_0000) % 256;
    let b6 = (n / 0x1_0000_0000_0000) % 256;
    let b7 = (n / 0x100_0000_0000_0000) % 256;
    assert(h[8] == b0 && h[9] == b1 && h[10] == b2 && h[11] == b3);
    assert(h[12] == b4 && h[13] == b5 && h[14] == b6 && h[15] == b7);
    assert(b0 + 256 * b1 + 65536 * b2 + 0x100_0000 * b3 + 0x1_0000_0000 * b4 + 0x100_0000_0000 * b5
        + 0x1_0000_0000_0000 * b6 + 0x100_0000_0000_0000 * b7 == n) by (bit_vector)
        requires
            b0 == n % 256, b1 == (n / 256) % 256, b2 == (n / 65536) % 256, b3 == (n / 0x100_0000) % 256,
            b4 == (n / 0x1_0000_0000) % 256, b5 == (n / 0x100_0000_0000) % 256,
            b6 == (n / 0x1_0000_0000_0000) % 256, b7 == (n / 0x100_0000_0000_0000) % 256;
}

/// The pixel count of a WIN_CMD blit, or `INVAL`: the buffer pointer must
/// be set, the size positive, at most 8,000,000 pixels, and the declared
/// byte length must cover them (4 bytes each). The caller then checks that
/// `count * 4` bytes at `text_ptr` are readable.
pub fn blit_pixels(cmd: &DrawCmd) -> (r: Result<u64, u64>)
    ensures
        (cmd.text_ptr == 0 || cmd.w <= 0 || cmd.h <= 0) ==> r == Err::<u64, u64>(syserr::INVAL),
        !(cmd.text_ptr == 0 || cmd.w <= 0 || cmd.h <= 0) ==> {
            let count = cmd.w as int * cmd.h as int;
            &&& (count > 8_000_000 || (cmd.text_len as int) < count * 4) ==> r == Err::<u64, u64>(syserr::INVAL)
            &&& !(count > 8_000_000 || (cmd.text_len as int) < count * 4) ==> r == Ok::<u64, u64>(count as u64)
        },
{
    if cmd.text_ptr == 0 || cmd.w <= 0 || cmd.h <= 0 {
        return Err(syserr::INVAL);
    }
    let w = cmd.w as u64;
    let h = cmd.h as u64;
    assert(w * h <= 0x7FFF_FFFF * 0x7FFF_FFFFu64) by (nonlinear_arith) requires w <= 0x7FFF_FFFF, h <= 0x7FFF_FFFF;
    let count = w * h;
    assert(count as int == cmd.w as int * cmd.h as int && count > 0) by (nonlinear_arith)
        requires count == w * h, w == cmd.w as int, h == cmd.h as int, w > 0, h > 0;
    if count == 0 || count > 8_000_000 || cmd.text_len < count * 4 {
        return Err(syserr::INVAL);
    }
    Ok(count)
}

/// The text buffer a WIN_CMD draw-text reads, or `INVAL` when its length is
/// 0 or above 4096; other operations read no text.
pub fn text_buffer(cmd: &DrawCmd) -> (r: Result<Option<Buf>, u64>)
    ensures
        cmd.op != draw_op::DRAW_TEXT ==> r == Ok::<Option<Buf>, u64>(None),
        cmd.op == draw_op::DRAW_TEXT && (cmd.text_len == 0 || cmd.text_len > 4096) ==> r == Err::<Option<Buf>, u64>(syserr::INVAL),
        cmd.op == draw_op::DRAW_TEXT && !(cmd.text_len == 0 || cmd.text_len > 4096)
            ==> r == Ok::<Option<Buf>, u64>(Some(Buf { ptr: cmd.text_ptr, len: cmd.text_len, write: false })),
{
    if cmd.op != draw_op::DRAW_TEXT {
        return Ok(None);
    }
    if cmd.text_len == 0 || cmd.text_len > 4096 {
        return Err(syserr::INVAL);
    }
    Ok(Some(Buf { ptr: cmd.text_ptr, len: cmd.text_len, write: false }))
}

/// Every pointer-taking syscall names a buffer to check (or rejects its
/// arguments first); none reaches its work with an unchecked user pointer.
pub proof fn lemma_buffers_screened(s: Sys, a0: u64, a1: u64, a2: u64)
    requires
        s == Sys::DebugWrite || s == Sys::FbInfo || s == Sys::WinCreate || s == Sys::WinCmd || s == Sys::ProcList
            || s == Sys::SysStat || s == Sys::AudioStat || s == Sys::AudioPlay || s == Sys::PkgList || s == Sys::PkgSet
            || s == Sys::FsList || s == Sys::FsRead || s == Sys::FsWrite || s == Sys::ClockRtc || s == Sys::NetSend
            || s == Sys::NetRecv || s == Sys::NetInfo || s == Sys::FutexWait,
    ensures
        screen_spec(s, a0, a1, a2) is Reject || screen_spec(s, a0, a1, a2) matches Screen::Proceed(Some(_)),
{
}

/// Where the current syscall came from and whether a ring-3 program runs.
pub struct Mode {
    /// A syscall issued from ring 3 is being serviced (its pointers are
    /// untrusted).
    pub in_user_syscall: bool,
    /// A ring-3 program is running (routes EXIT).
    pub user_active: bool,
}

/// Whether a ring-3 program is running.
pub fn user_active(m: &Mode) -> (b: bool)
    ensures
        b == m.user_active,
{
    m.user_active
}

/// Enter a syscall from ring 3: pointers become untrusted; returns the
/// previous setting for [`end_user_syscall`].
pub fn begin_user_syscall(m: &mut Mode) -> (prev: bool)
    ensures
        prev == old(m).in_user_syscall,
        final(m).in_user_syscall,
        final(m).user_active == old(m).user_active,
{
    let prev = m.in_user_syscall;
    m.in_user_syscall = true;
    prev
}

/// Leave a syscall from ring 3, restoring the previous setting.
pub fn end_user_syscall(m: &mut Mode, prev: bool)
    ensures
        final(m).in_user_syscall == prev,
        final(m).user_active == old(m).user_active,
{
    m.in_user_syscall = prev;
}

/// A ring-3 syscall bracketed by [`begin_user_syscall`] and
/// [`end_user_syscall`] leaves the mode as it found it.
pub proof fn lemma_user_syscall_restores(m0: Mode, m1: Mode, m2: Mode, prev: bool)
    requires
        prev == m0.in_user_syscall,
        m1.user_active == m0.user_active,
        m2.in_user_syscall == prev,
        m2.user_active == m1.user_active,
    ensures
        m2 == m0,
{
}

} // verus!
