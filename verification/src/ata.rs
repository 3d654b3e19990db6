//! IDE/PATA disks in PIO mode with LBA28: the decisions of the driver (what
//! a status byte means, what IDENTIFY DEVICE reports, which register values
//! a sector read programs, how a disk is named). The port I/O is the
//! machine's part.

use vstd::prelude::*;
use vstd::string::*;
use crate::shell::space;
use crate::text::{owned, push_str, string_push};

verus! {

/// Status: busy.
pub const STATUS_BSY: u8 = 0x80;
/// Status: data request.
pub const STATUS_DRQ: u8 = 0x08;
/// Status: error.
pub const STATUS_ERR: u8 = 0x01;
/// READ SECTORS (PIO).
pub const CMD_READ_SECTORS: u8 = 0x20;
/// IDENTIFY DEVICE.
pub const CMD_IDENTIFY: u8 = 0xEC;

/// A status byte read right after IDENTIFY: 0 or 0xFF means no device.
pub fn device_present(status: u8) -> (b: bool)
    ensures
        b == (status != 0 && status != 0xFF),
{
    status != 0 && status != 0xFF
}

/// A device whose signature registers (LBA mid and high) are zero is a
/// plain ATA disk; anything else (ATAPI, SATA) is skipped.
pub fn plain_ata(mid: u8, hi: u8) -> (b: bool)
    ensures
        b == (mid == 0 && hi == 0),
{
    mid == 0 && hi == 0
}

/// Whether the busy bit is clear.
pub fn not_busy(status: u8) -> (b: bool)
    ensures
        b == (status & STATUS_BSY == 0),
{
    status & STATUS_BSY == 0
}

/// What one poll of the status register means while waiting for data.
#[derive(Clone, Copy, PartialEq, Eq, Debug, Structural)]
pub enum DataWait {
    /// The device reported an error.
    Failed,
    /// Data is ready to transfer.
    Ready,
    /// Poll again.
    Again,
}

/// One poll while waiting for data: the error bit fails; not busy with the
/// data-request bit set is ready; anything else polls again.
pub fn data_wait(status: u8) -> (w: DataWait)
    ensures
        status & STATUS_ERR != 0 ==> w == DataWait::Failed,
        status & STATUS_ERR == 0 && status & STATUS_BSY == 0 && status & STATUS_DRQ != 0 ==> w == DataWait::Ready,
        status & STATUS_ERR == 0 && !(status & STATUS_BSY == 0 && status & STATUS_DRQ != 0) ==> w == DataWait::Again,
{
    if status & STATUS_ERR != 0 {
        DataWait::Failed
    } else if status & STATUS_BSY == 0 && status & STATUS_DRQ != 0 {
        DataWait::Ready
    } else {
        DataWait::Again
    }
}

/// The drive/head register value: LBA mode, the drive, and LBA bits 24..28.
pub fn drive_select(slave: bool, lba_bits: u8) -> (v: u8)
    ensures
        v == (0xE0u8 | (if slave { 0x10u8 } else { 0u8 }) | (lba_bits & 0x0F)),
{
    0xE0 | (if slave { 0x10u8 } else { 0u8 }) | (lba_bits & 0x0F)
}

/// The task-file bytes of an LBA28 sector read: LBA bits 0..8, 8..16,
/// 16..24 and 24..28 (for the drive register); "LBA28 limit exceeded" at
/// 2^28 and beyond.
pub fn lba_registers(lba: u64) -> (r: Result<[u8; 4], &'static str>)
    ensures
        lba >= 0x1000_0000 ==> r == Err::<[u8; 4], &'static str>("LBA28 limit exceeded"),
        lba < 0x1000_0000 ==> (r matches Ok(b) && b@ == seq![(lba % 256) as u8, ((lba / 256) % 256) as u8,
            ((lba / 65536) % 256) as u8, (lba / 0x100_0000) as u8]),
{
    if lba >= 0x1000_0000 {
        return Err("LBA28 limit exceeded");
    }
    let b = [(lba % 256) as u8, ((lba / 256) % 256) as u8, ((lba / 65536) % 256) as u8, (lba / 0x100_0000) as u8];
    assert(b@ =~= seq![(lba % 256) as u8, ((lba / 256) % 256) as u8, ((lba / 65536) % 256) as u8,
        (lba / 0x100_0000) as u8]);
    Ok(b)
}

/// The sector count IDENTIFY reports (words 60 and 61, low word first).
pub open spec fn identify_sectors(id: Seq<u16>) -> nat {
    (id[60] as nat) + (id[61] as nat) * 65536
}

/// The model characters of IDENTIFY words 27..47, each word's high byte
/// first, every byte read as a Latin-1 character.
pub open spec fn model_chars(id: Seq<u16>) -> Seq<char> {
    Seq::new(40, |k: int| {
        let w = id[27 + k / 2];
        (if k % 2 == 0 { (w / 256) as u8 } else { (w % 256) as u8 }) as char
    })
}

/// `s` without leading and trailing whitespace.
pub open spec fn trimmed(s: Seq<char>) -> Seq<char>
    decreases s.len(),
{
    if s.len() > 0 && space(s[0]) {
        trimmed(s.drop_first())
    } else if s.len() > 0 && space(s.last()) {
        trimmed(s.drop_last())
    } else {
        s
    }
}

/// What a disk's IDENTIFY data says: its trimmed model string and sector
/// count, or `None` when it reports no sectors.
pub open spec fn identify_spec(id: Seq<u16>) -> Option<(Seq<char>, nat)> {
    if identify_sectors(id) == 0 { None } else { Some((trimmed(model_chars(id)), identify_sectors(id))) }
}

fn trim_bounds(s: &Vec<char>) -> (r: (usize, usize))
    ensures
        r.0 <= r.1 <= s@.len(),
        s@.subrange(r.0 as int, r.1 as int) == trimmed(s@),
{
    let mut a: usize = 0;
    let mut b: usize = s.len();
    assert(s@.subrange(0, s@.len() as int) =~= s@);
    loop
        invariant
            a <= b <= s@.len(),
            trimmed(s@.subrange(a as int, b as int)) == trimmed(s@),
        decreases b - a,
    {
        let t = Ghost(s@.subrange(a as int, b as int));
        if a < b && crate::shell::is_space(s[a]) {
            assert(t@.drop_first() =~= s@.subrange(a + 1, b as int));
            a = a + 1;
        } else if a < b && crate::shell::is_space(s[b - 1]) {
            assert(t@.drop_last() =~= s@.subrange(a as int, b - 1));
            b = b - 1;
        } else {
            return (a, b);
        }
    }
}

/// Parse IDENTIFY DEVICE data (256 words) into the model and sector count.
pub fn parse_identify(id: &[u16]) -> (r: Option<(String, u64)>)
    requires
        id@.len() == 256,
    ensures
        match identify_spec(id@) {
            None => r is None,
            Some((m, n)) => (r matches Some((s, k)) && s@ == m && k == n),
        },
{
    let sectors = id[60] as u64 + (id[61] as u64) * 65536;
    if sectors == 0 {
        return None;
    }
    let mut chars: Vec<char> = Vec::new();
    let mut k: usize = 0;
    while k < 20
        invariant
            k <= 20,
            id@.len() == 256,
            chars@ == model_chars(id@).take(2 * k as int),
        decreases 20 - k,
    {
        let w = id[27 + k];
        let hi = (w / 256) as u8 as char;
        let lo = (w % 256) as u8 as char;
        chars.push(hi);
        chars.push(lo);
        assert(chars@ =~= model_chars(id@).take(2 * k + 2));
        k = k + 1;
    }
    assert(chars@ =~= model_chars(id@));
    let (a, b) = trim_bounds(&chars);
    let mut model = String::new();
    let mut i = a;
    while i < b
        invariant
            a <= i <= b <= chars@.len(),
            model@ == chars@.subrange(a as int, i as int),
        decreases b - i,
    {
        string_push(&mut model, chars[i]);
        assert(model@ =~= chars@.subrange(a as int, i + 1));
        i = i + 1;
    }
    Some((model, sectors))
}

/// A disk's name: `ata<channel><.0|.1> (<model>)`, channel 0 for the
/// primary controller.
pub fn disk_name(primary: bool, slave: bool, model: &str) -> (s: String)
    ensures
        s@ == "ata"@ + (if primary { "0"@ } else { "1"@ }) + (if slave { ".1"@ } else { ".0"@ }) + " ("@ + model@
            + ")"@,
{
    let mut s = owned("ata");
    push_str(&mut s, if primary { "0" } else { "1" });
    push_str(&mut s, if slave { ".1" } else { ".0" });
    push_str(&mut s, " (");
    push_str(&mut s, model);
    push_str(&mut s, ")");
    s
}

/// The probe positions, in order: the primary then the secondary channel
/// (I/O and control base ports), each master then slave.
pub const PROBES: [(u16, u16, bool); 4] = [(0x1F0, 0x3F6, false), (0x1F0, 0x3F6, true), (0x170, 0x376, false),
    (0x170, 0x376, true)];

} // verus!
