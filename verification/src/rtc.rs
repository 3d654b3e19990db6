//! CMOS real-time clock decoding: turns a raw register snapshot into a
//! calendar time, handling BCD and binary encodings and 12/24-hour modes.
//! The port reads themselves happen at the hardware edge.

use vstd::prelude::*;

verus! {

/// One CMOS register value decoded from BCD (when `bcd`) or taken as binary.
pub open spec fn conv_spec(v: u8, bcd: bool) -> u8 {
    if bcd { ((v & 0x0F) + (v >> 4) * 10) as u8 } else { v }
}

fn conv(v: u8, bcd: bool) -> (r: u8)
    ensures
        r == conv_spec(v, bcd),
{
    if bcd {
        assert((v & 0x0F) <= 15 && (v >> 4) <= 15) by (bit_vector);
        (v & 0x0F) + (v >> 4) * 10
    } else {
        v
    }
}

/// The decoded hour on a 24-hour clock: in 12-hour mode (status B bit 1
/// clear) the register counts 12, 1, ..., 11 and bit 7 flags PM, so the hour
/// is `h % 12`, plus 12 after noon; in 24-hour mode it is the register.
pub open spec fn hour_spec(hour_raw: u8, statb: u8) -> u8 {
    let bcd = statb & 0x04 == 0;
    let h = conv_spec(hour_raw & 0x7F, bcd);
    if statb & 0x02 == 0 {
        if hour_raw & 0x80 != 0 { ((h % 12) + 12) as u8 } else { (h % 12) as u8 }
    } else {
        h
    }
}

/// The full year: the century register is used when it reads 19..=21,
/// otherwise the 2000s are assumed.
pub open spec fn year_spec(year: u8, century: u8, statb: u8) -> u16 {
    let bcd = statb & 0x04 == 0;
    let yy = conv_spec(year, bcd) as u16;
    let cc = conv_spec(century, bcd) as u16;
    if 19 <= cc <= 21 { (cc * 100 + yy) as u16 } else { (2000 + yy) as u16 }
}

/// Decode a raw register snapshot `(sec, min, hour, day, month, year,
/// century, statusB)` into `(year, month, day, hour, minute, second)`.
pub fn decode(raw: (u8, u8, u8, u8, u8, u8, u8, u8)) -> (t: (u16, u8, u8, u8, u8, u8))
    ensures
        ({
            let (sec, min, hour_raw, day, month, year, century, statb) = raw;
            let bcd = statb & 0x04 == 0;
            t == (year_spec(year, century, statb), conv_spec(month, bcd), conv_spec(day, bcd),
                hour_spec(hour_raw, statb), conv_spec(min, bcd), conv_spec(sec, bcd))
        }),
{
    let (sec, min, hour_raw, day, month, year, century, statb) = raw;
    let bcd = statb & 0x04 == 0;
    let mut hour = conv(hour_raw & 0x7F, bcd);
    if statb & 0x02 == 0 {
        hour = if hour_raw & 0x80 != 0 { (hour % 12) + 12 } else { hour % 12 };
    }
    let yy = conv(year, bcd) as u16;
    let cc = conv(century, bcd) as u16;
    let full_year = if 19 <= cc && cc <= 21 { cc * 100 + yy } else { 2000 + yy };
    (full_year, conv(month, bcd), conv(day, bcd), hour, conv(min, bcd), conv(sec, bcd))
}

/// Just (hour, minute) of a decoded time — what the taskbar tray clock needs.
pub fn read_hm(t: (u16, u8, u8, u8, u8, u8)) -> (hm: (u8, u8))
    ensures
        hm == (t.3, t.4),
{
    (t.3, t.4)
}

fn same_raw(a: (u8, u8, u8, u8, u8, u8, u8, u8), b: (u8, u8, u8, u8, u8, u8, u8, u8)) -> (r: bool)
    ensures
        r == (a == b),
{
    a.0 == b.0 && a.1 == b.1 && a.2 == b.2 && a.3 == b.3 && a.4 == b.4 && a.5 == b.5 && a.6 == b.6 && a.7 == b.7
}

/// The settled sample from position `i` on: the first sample equal to its
/// predecessor, else the last one.
pub open spec fn settle_from(s: Seq<(u8, u8, u8, u8, u8, u8, u8, u8)>, i: int) -> (u8, u8, u8, u8, u8, u8, u8, u8)
    decreases s.len() - i,
{
    if i >= s.len() || i < 1 {
        s.last()
    } else if s[i] == s[i - 1] {
        s[i]
    } else {
        settle_from(s, i + 1)
    }
}

/// A stable reading: the first sample equal to its predecessor, else the
/// last sample (the hardware edge re-reads until two consecutive samples
/// agree so an update cannot tear the value).
pub fn settle(samples: &Vec<(u8, u8, u8, u8, u8, u8, u8, u8)>) -> (r: Option<(u8, u8, u8, u8, u8, u8, u8, u8)>)
    ensures
        samples@.len() == 0 ==> r is None,
        samples@.len() > 0 ==> r == Some(settle_from(samples@, 1)),
{
    if samples.len() == 0 {
        return None;
    }
    let mut i: usize = 1;
    while i < samples.len()
        invariant
            1 <= i <= samples@.len(),
            settle_from(samples@, 1) == settle_from(samples@, i as int),
        decreases samples@.len() - i,
    {
        if same_raw(samples[i], samples[i - 1]) {
            return Some(samples[i]);
        }
        i = i + 1;
    }
    Some(samples[samples.len() - 1])
}

} // verus!
