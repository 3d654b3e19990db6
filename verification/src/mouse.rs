//! PS/2 mouse packet assembly: three-byte packets on IRQ12 update the
//! tracked position and buttons. The controller handshake is port I/O at the
//! hardware edge.

use vstd::prelude::*;

verus! {

/// Packet-assembly and pointer state.
pub struct MouseState {
    /// Byte position within the current packet (0..=2).
    pub phase: u8,
    /// Bytes 0 and 1 of the packet being assembled.
    pub packet: [u8; 2],
    pub x: i64,
    pub y: i64,
    pub buttons: u8,
    /// Complete packets received.
    pub packets: u64,
}

impl MouseState {
    /// At rest at the origin, waiting for the first byte of a packet.
    pub fn new() -> (m: MouseState)
        ensures
            m.phase == 0 && m.x == 0 && m.y == 0 && m.buttons == 0 && m.packets == 0,
            m.packet@ == seq![0u8, 0u8],
    {
        let m = MouseState { phase: 0, packet: [0, 0], x: 0, y: 0, buttons: 0, packets: 0 };
        assert(m.packet@ =~= seq![0u8, 0u8]);
        m
    }
}

/// The signed 9-bit movement of a packet byte with its sign bit.
pub open spec fn delta(byte: u8, negative: bool) -> int {
    byte as int - if negative { 256int } else { 0int }
}

/// IRQ12 handler body: assemble 3-byte packets. A first byte without bit 3
/// set is dropped (resynchronisation). The third byte completes the packet:
/// x moves by the signed dx, y by the negated dy (screen y grows downward),
/// buttons take the low three flag bits.
pub fn handle_byte(m: &mut MouseState, byte: u8)
    ensures
        old(m).phase == 0 && byte & 0x08 == 0 ==> *final(m) == *old(m),
        old(m).phase == 0 && byte & 0x08 != 0 ==> final(m).phase == 1 && final(m).packet@[0] == byte
            && final(m).packet@[1] == old(m).packet@[1] && final(m).x == old(m).x && final(m).y == old(m).y
            && final(m).buttons == old(m).buttons && final(m).packets == old(m).packets,
        old(m).phase == 1 ==> final(m).phase == 2 && final(m).packet@[1] == byte
            && final(m).packet@[0] == old(m).packet@[0] && final(m).x == old(m).x && final(m).y == old(m).y
            && final(m).buttons == old(m).buttons && final(m).packets == old(m).packets,
        old(m).phase >= 2 ==> ({
            let flags = old(m).packet@[0];
            &&& final(m).phase == 0
            &&& final(m).packet == old(m).packet
            &&& final(m).x == old(m).x.wrapping_add(delta(old(m).packet@[1], flags & 0x10 != 0) as i64)
            &&& final(m).y == old(m).y.wrapping_sub(delta(byte, flags & 0x20 != 0) as i64)
            &&& final(m).buttons == flags & 0x07
            &&& final(m).packets == old(m).packets.wrapping_add(1)
        }),
{
    if m.phase == 0 {
        if byte & 0x08 == 0 {
            return;
        }
        m.packet = [byte, m.packet[1]];
        m.phase = 1;
    } else if m.phase == 1 {
        m.packet = [m.packet[0], byte];
        m.phase = 2;
    } else {
        m.phase = 0;
        let flags = m.packet[0];
        let dx: i64 = m.packet[1] as i64 - if flags & 0x10 != 0 { 256 } else { 0 };
        let dy: i64 = byte as i64 - if flags & 0x20 != 0 { 256 } else { 0 };
        m.x = m.x.wrapping_add(dx);
        m.y = m.y.wrapping_sub(dy);
        m.buttons = flags & 0x07;
        m.packets = m.packets.wrapping_add(1);
    }
}

/// (x, y, buttons, packet count) — for diagnostics and the compositor.
pub fn state(m: &MouseState) -> (s: (i64, i64, u8, u64))
    ensures
        s == (m.x, m.y, m.buttons, m.packets),
{
    (m.x, m.y, m.buttons, m.packets)
}

} // verus!
