//! Syscall ABI v1: the numbered contract shared with user space and the
//! records that cross the boundary, with the byte layout that the syscall
//! layer reads and writes.

use vstd::prelude::*;

pub mod sysno;
pub mod sock_kind;
pub mod mmap_prot;
pub mod syserr;
pub mod draw_op;
pub mod proc_state;
pub mod pixel_format;

verus! {

/// ABI major version. Bumped only on a breaking change of this contract.
pub const ABI_VERSION: u64 = 1;

/// Description of the boot framebuffer, shared zero-copy with user space.
#[derive(Debug, Clone, Copy, PartialEq, Eq)]
pub struct FramebufferInfo {
    /// Physical address of the framebuffer start.
    pub address: u64,
    /// Total size of the framebuffer memory in bytes.
    pub size: u64,
    /// Visible width in pixels.
    pub width: u64,
    /// Visible height in pixels.
    pub height: u64,
    /// Bytes per row (may exceed `width * bytes_per_pixel`).
    pub stride: u64,
    /// Bytes per pixel.
    pub bytes_per_pixel: u64,
    /// Pixel format, one of the `pixel_format` constants.
    pub pixel_format: u64,
}

/// Drawing operation for the WIN_CMD syscall.
#[derive(Debug, Clone, Copy, PartialEq, Eq)]
pub struct DrawCmd {
    /// One of the `draw_op` constants.
    pub op: u64,
    /// X coordinate in window-client pixels.
    pub x: i32,
    /// Y coordinate in window-client pixels.
    pub y: i32,
    /// Width in pixels.
    pub w: i32,
    /// Height in pixels.
    pub h: i32,
    /// Color as 0x00RRGGBB.
    pub color: u32,
    /// Reserved, keeps 8-byte alignment for the pointer below.
    pub _pad: u32,
    /// UTF-8 text pointer (draw_text), else 0.
    pub text_ptr: u64,
    /// UTF-8 text length in bytes (draw_text), else 0.
    pub text_len: u64,
}

/// Process/task descriptor for the PROC_LIST syscall.
#[derive(Debug, Clone, Copy)]
pub struct ProcInfo {
    /// Task/process id.
    pub pid: u64,
    /// State: one of `proc_state`.
    pub state: u64,
    /// Accumulated CPU time in timer ticks.
    pub cpu_ticks: u64,
    /// Kind: 0 = kernel task, 1 = user app.
    pub kind: u64,
    /// Null-padded ASCII name.
    pub name: [u8; 32],
}

/// System resource statistics for the SYS_STAT syscall.
#[derive(Debug, Clone, Copy, PartialEq, Eq)]
pub struct SysStat {
    /// Uptime in timer ticks.
    pub uptime_ticks: u64,
    /// Timer frequency (Hz), for converting ticks to seconds.
    pub tick_hz: u64,
    /// Kernel heap bytes in use.
    pub heap_used: u64,
    /// Kernel heap bytes total.
    pub heap_total: u64,
    /// Number of tasks/processes.
    pub task_count: u64,
    /// Total usable physical memory (MiB).
    pub mem_total_mib: u64,
}

/// Audio device status for the AUDIO_STAT syscall.
#[derive(Debug, Clone, Copy, PartialEq, Eq)]
pub struct AudioInfo {
    /// 1 if a sound card was detected and initialized, else 0.
    pub present: u64,
    /// Output sample rate in Hz.
    pub sample_rate: u64,
    /// Number of output channels.
    pub channels: u64,
    /// Bits per sample.
    pub bits: u64,
    /// Current master volume, 0..=100 percent.
    pub volume: u64,
    /// 1 if output is muted, else 0.
    pub muted: u64,
}

/// A package registry entry for the PKG_LIST syscall.
#[derive(Debug, Clone, Copy, PartialEq, Eq)]
pub struct PkgInfo {
    /// Null-padded ASCII package name.
    pub name: [u8; 24],
    /// Null-padded ASCII category label.
    pub category: [u8; 16],
    /// 1 if the package is currently installed, else 0.
    pub installed: u64,
}

/// A directory entry for the FS_LIST syscall.
#[derive(Debug, Clone, Copy, PartialEq, Eq)]
pub struct FsEntry {
    /// Null-padded ASCII name.
    pub name: [u8; 24],
    /// 1 if this entry is a directory/mount, else 0 (a file).
    pub is_dir: u64,
}

/// Wall-clock time from the CMOS RTC, for the CLOCK_RTC syscall.
#[derive(Debug, Clone, Copy, PartialEq, Eq, Default)]
pub struct RtcTime {
    /// Full year (e.g. 2026).
    pub year: u64,
    /// Month, 1..=12.
    pub month: u64,
    /// Day of month, 1..=31.
    pub day: u64,
    /// Hour, 0..=23.
    pub hour: u64,
    /// Minute, 0..=59.
    pub minute: u64,
    /// Second, 0..=59.
    pub second: u64,
}

/// Datagram header for the NET_SEND / NET_RECV syscalls. The payload follows
/// immediately after this header in the same buffer.
#[derive(Debug, Clone, Copy, PartialEq, Eq, Default)]
pub struct NetDatagram {
    /// Peer IPv4 address, one octet per byte in network order (a.b.c.d).
    pub addr: [u8; 4],
    /// Peer port (host order).
    pub port: u32,
    /// Payload length in bytes.
    pub length: u64,
}

/// Interface information and counters for the NET_INFO syscall.
#[derive(Debug, Clone, Copy, PartialEq, Eq, Default)]
pub struct NetInfo {
    /// Local IPv4 address, one octet per byte (a.b.c.d), then 4 zero bytes.
    pub addr: [u8; 8],
    /// 1 if the stack is up, else 0.
    pub up: u64,
    /// Datagrams sent.
    pub tx_datagrams: u64,
    /// Datagrams received and delivered to a socket.
    pub rx_datagrams: u64,
    /// ICMP echo replies observed.
    pub icmp_replies: u64,
    /// ARP replies sent.
    pub arp_replies: u64,
}

impl NetInfo {
    /// The 48-byte record NET_INFO writes: `addr` at offset 0, then `up`,
    /// `tx_datagrams`, `rx_datagrams`, `icmp_replies` and `arp_replies` as
    /// little-endian `u64`s at offsets 8, 16, 24, 32 and 40.
    pub fn to_bytes(&self) -> (b: Vec<u8>)
        ensures
            b@ == self.addr@ + crate::bytes::le64_bytes(self.up) + crate::bytes::le64_bytes(self.tx_datagrams)
                + crate::bytes::le64_bytes(self.rx_datagrams) + crate::bytes::le64_bytes(self.icmp_replies)
                + crate::bytes::le64_bytes(self.arp_replies),
    {
        let mut b: Vec<u8> = Vec::new();
        crate::bytes::push_all(&mut b, &self.addr);
        crate::bytes::push_le64(&mut b, self.up);
        crate::bytes::push_le64(&mut b, self.tx_datagrams);
        crate::bytes::push_le64(&mut b, self.rx_datagrams);
        crate::bytes::push_le64(&mut b, self.icmp_replies);
        crate::bytes::push_le64(&mut b, self.arp_replies);
        b
    }
}

/// Byte `k` (0 = least significant) of `v`.
pub open spec fn byte_of_u32(v: u32, k: u32) -> u8 {
    ((v >> (8 * k)) & 0xff) as u8
}

/// Byte `k` (0 = least significant) of `v`.
pub open spec fn byte_of_u64(v: u64, k: u64) -> u8 {
    ((v >> (8 * k)) & 0xff) as u8
}

/// The `u32` whose little-endian bytes are `b0..b3`.
pub open spec fn u32_from_le(b0: u8, b1: u8, b2: u8, b3: u8) -> u32 {
    (b0 as u32) | ((b1 as u32) << 8) | ((b2 as u32) << 16) | ((b3 as u32) << 24)
}

/// The `u64` whose little-endian bytes are `b[0..8]`.
pub open spec fn u64_from_le(b: Seq<u8>) -> u64 {
    (b[0] as u64) | ((b[1] as u64) << 8) | ((b[2] as u64) << 16) | ((b[3] as u64) << 24)
        | ((b[4] as u64) << 32) | ((b[5] as u64) << 40) | ((b[6] as u64) << 48) | ((b[7] as u64) << 56)
}

impl NetDatagram {
    /// The 16-byte wire header that NET_SEND reads and NET_RECV writes:
    /// `addr` at offset 0, `port` little-endian at offset 4, `length`
    /// little-endian at offset 8.
    pub fn to_bytes(&self) -> (b: [u8; 16])
        ensures
            forall|k: int| 0 <= k < 4 ==> b@[k] == #[trigger] self.addr@[k],
            forall|k: u32| k < 4 ==> b@[4 + k] == #[trigger] byte_of_u32(self.port, k),
            forall|k: u64| k < 8 ==> b@[8 + k] == #[trigger] byte_of_u64(self.length, k),
    {
        let p = self.port;
        let l = self.length;
        let b: [u8; 16] = [
            self.addr[0], self.addr[1], self.addr[2], self.addr[3],
            (p & 0xff) as u8, ((p >> 8) & 0xff) as u8, ((p >> 16) & 0xff) as u8, ((p >> 24) & 0xff) as u8,
            (l & 0xff) as u8, ((l >> 8) & 0xff) as u8, ((l >> 16) & 0xff) as u8, ((l >> 24) & 0xff) as u8,
            ((l >> 32) & 0xff) as u8, ((l >> 40) & 0xff) as u8, ((l >> 48) & 0xff) as u8, ((l >> 56) & 0xff) as u8,
        ];
        assert forall|k: u32| k < 4 implies b@[4 + k] == #[trigger] byte_of_u32(p, k) by {
            assert(p & 0xff == (p >> (8 * 0u32)) & 0xff) by (bit_vector);
            if k == 0 {} else if k == 1 {} else if k == 2 {} else {}
        }
        assert forall|k: u64| k < 8 implies b@[8 + k] == #[trigger] byte_of_u64(l, k) by {
            assert(l & 0xff == (l >> (8 * 0u64)) & 0xff) by (bit_vector);
            if k == 0 {} else if k == 1 {} else if k == 2 {} else if k == 3 {}
            else if k == 4 {} else if k == 5 {} else if k == 6 {} else {}
        }
        b
    }

    /// Parses the 16-byte wire header (see [`NetDatagram::to_bytes`]).
    pub fn from_bytes(b: &[u8; 16]) -> (d: NetDatagram)
        ensures
            d.addr@ == b@.subrange(0, 4),
            d.port == u32_from_le(b@[4], b@[5], b@[6], b@[7]),
            d.length == u64_from_le(b@.subrange(8, 16)),
    {
        let port: u32 = (b[4] as u32) | ((b[5] as u32) << 8) | ((b[6] as u32) << 16) | ((b[7] as u32) << 24);
        let length: u64 = (b[8] as u64) | ((b[9] as u64) << 8) | ((b[10] as u64) << 16) | ((b[11] as u64) << 24)
            | ((b[12] as u64) << 32) | ((b[13] as u64) << 40) | ((b[14] as u64) << 48) | ((b[15] as u64) << 56);
        let d = NetDatagram { addr: [b[0], b[1], b[2], b[3]], port, length };
        assert(d.addr@ =~= b@.subrange(0, 4));
        d
    }
}

/// Reassembling the little-endian bytes of a `u32` gives it back.
pub proof fn lemma_u32_le_roundtrip(v: u32)
    ensures
        u32_from_le(byte_of_u32(v, 0), byte_of_u32(v, 1), byte_of_u32(v, 2), byte_of_u32(v, 3)) == v,
{
    assert(((((v >> 0u32) & 0xff) as u8) as u32) | (((((v >> 8u32) & 0xff) as u8) as u32) << 8)
        | (((((v >> 16u32) & 0xff) as u8) as u32) << 16) | (((((v >> 24u32) & 0xff) as u8) as u32) << 24) == v)
        by (bit_vector);
}

/// Reassembling the little-endian bytes of a `u64` gives it back.
pub proof fn lemma_u64_le_roundtrip(v: u64)
    ensures
        u64_from_le(seq![byte_of_u64(v, 0), byte_of_u64(v, 1), byte_of_u64(v, 2), byte_of_u64(v, 3),
            byte_of_u64(v, 4), byte_of_u64(v, 5), byte_of_u64(v, 6), byte_of_u64(v, 7)]) == v,
{
    assert(((((v >> 0u64) & 0xff) as u8) as u64) | (((((v >> 8u64) & 0xff) as u8) as u64) << 8)
        | (((((v >> 16u64) & 0xff) as u8) as u64) << 16) | (((((v >> 24u64) & 0xff) as u8) as u64) << 24)
        | (((((v >> 32u64) & 0xff) as u8) as u64) << 32) | (((((v >> 40u64) & 0xff) as u8) as u64) << 40)
        | (((((v >> 48u64) & 0xff) as u8) as u64) << 48) | (((((v >> 56u64) & 0xff) as u8) as u64) << 56) == v)
        by (bit_vector);
}

/// Law: the datagram header survives a trip through its wire bytes, so what
/// NET_SEND parses is what the sender laid out.
pub proof fn lemma_datagram_wire_roundtrip(d: NetDatagram, b: Seq<u8>)
    requires
        b.len() == 16,
        forall|k: int| 0 <= k < 4 ==> b[k] == #[trigger] d.addr@[k],
        forall|k: u32| k < 4 ==> b[4 + k] == #[trigger] byte_of_u32(d.port, k),
        forall|k: u64| k < 8 ==> b[8 + k] == #[trigger] byte_of_u64(d.length, k),
    ensures
        b.subrange(0, 4) == d.addr@,
        u32_from_le(b[4], b[5], b[6], b[7]) == d.port,
        u64_from_le(b.subrange(8, 16)) == d.length,
{
    assert(b.subrange(0, 4) =~= d.addr@);
    assert(b[4] == byte_of_u32(d.port, 0));
    assert(b[4 + 1u32] == byte_of_u32(d.port, 1));
    assert(b[4 + 2u32] == byte_of_u32(d.port, 2));
    assert(b[4 + 3u32] == byte_of_u32(d.port, 3));
    lemma_u32_le_roundtrip(d.port);
    let s = b.subrange(8, 16);
    assert(s[0] == byte_of_u64(d.length, 0)) by { assert(b[8 + 0u64] == byte_of_u64(d.length, 0)); }
    assert(s[1] == byte_of_u64(d.length, 1)) by { assert(b[8 + 1u64] == byte_of_u64(d.length, 1)); }
    assert(s[2] == byte_of_u64(d.length, 2)) by { assert(b[8 + 2u64] == byte_of_u64(d.length, 2)); }
    assert(s[3] == byte_of_u64(d.length, 3)) by { assert(b[8 + 3u64] == byte_of_u64(d.length, 3)); }
    assert(s[4] == byte_of_u64(d.length, 4)) by { assert(b[8 + 4u64] == byte_of_u64(d.length, 4)); }
    assert(s[5] == byte_of_u64(d.length, 5)) by { assert(b[8 + 5u64] == byte_of_u64(d.length, 5)); }
    assert(s[6] == byte_of_u64(d.length, 6)) by { assert(b[8 + 6u64] == byte_of_u64(d.length, 6)); }
    assert(s[7] == byte_of_u64(d.length, 7)) by { assert(b[8 + 7u64] == byte_of_u64(d.length, 7)); }
    lemma_u64_le_roundtrip(d.length);
    assert(s =~= seq![byte_of_u64(d.length, 0), byte_of_u64(d.length, 1), byte_of_u64(d.length, 2), byte_of_u64(d.length, 3),
        byte_of_u64(d.length, 4), byte_of_u64(d.length, 5), byte_of_u64(d.length, 6), byte_of_u64(d.length, 7)]);
}

} // verus!
