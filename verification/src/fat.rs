//! FAT12/16/32 access over a [`BlockDevice`]: MBR partitions or a
//! superfloppy, the root directory, 8.3 names, and writing root-directory
//! files on FAT12 volumes.
//!
//! The contracts speak of the device's sectors (`dev.sectors()`): what the
//! volume header says, which directory entries are visible, and which bytes
//! a cluster chain holds.

use vstd::prelude::*;
use vstd::string::StringSliceAdditionalSpecFns;
use crate::bytes::{le16, le32, u16_at, u32_at};
use crate::driver::{BlockDevice, SECTOR_SIZE};

verus! {

/// The FAT variant, decided by the cluster count.
#[derive(Debug, Clone, Copy, PartialEq, Eq, Structural)]
pub enum FatKind {
    Fat12,
    Fat16,
    Fat32,
}

/// A mounted FAT volume: where its regions start on the device.
#[derive(Clone, Copy)]
pub struct FatVolume {
    pub partition_start: u64,
    pub bytes_per_sector: u64,
    pub sectors_per_cluster: u64,
    pub fat_start: u64,
    /// Sectors in one copy of the FAT (BPB offset 22, or 36 on FAT32).
    pub fat_size: u64,
    /// FAT12/16: first sector of the root directory; FAT32: unused.
    pub root_dir_start: u64,
    /// FAT12/16 only.
    pub root_dir_sectors: u64,
    pub data_start: u64,
    /// FAT32 only.
    pub root_cluster: u32,
    pub kind: FatKind,
}

/// Sectors per cluster is a power of two (at most 128 in a byte).
pub open spec fn pow2_byte(x: int) -> bool {
    x == 1 || x == 2 || x == 4 || x == 8 || x == 16 || x == 32 || x == 64 || x == 128
}

/// Why a volume boot record is rejected, if it is.
pub open spec fn vbr_fault(b: Seq<u8>) -> Option<&'static str> {
    let spc = b[13] as int;
    let reserved = le16(b, 14);
    let num_fats = b[16] as int;
    let fat_size = if le16(b, 22) == 0 { le32(b, 36) } else { le16(b, 22) };
    let total = if le16(b, 19) == 0 { le32(b, 32) } else { le16(b, 19) };
    let root_dir_sectors = (le16(b, 17) * 32 + 511) / 512;
    if b[0] != 0xEB && b[0] != 0xE9 {
        Some("not a FAT VBR (no jump instruction)")
    } else if le16(b, 11) != 512 {
        Some("unsupported sector size")
    } else if !pow2_byte(spc) {
        Some("invalid sectors per cluster")
    } else if fat_size == 0 || total == 0 || total < reserved + num_fats * fat_size + root_dir_sectors {
        Some("invalid FAT BPB")
    } else {
        None
    }
}

/// The variant for a cluster count.
pub open spec fn kind_for(clusters: int) -> FatKind {
    if clusters < 4085 {
        FatKind::Fat12
    } else if clusters < 65525 {
        FatKind::Fat16
    } else {
        FatKind::Fat32
    }
}

/// The volume described by the boot record `b` found at sector `start`.
pub open spec fn vbr_volume(b: Seq<u8>, start: u64) -> FatVolume {
    let spc = b[13] as int;
    let reserved = le16(b, 14);
    let num_fats = b[16] as int;
    let fat_size = if le16(b, 22) == 0 { le32(b, 36) } else { le16(b, 22) };
    let total = if le16(b, 19) == 0 { le32(b, 32) } else { le16(b, 19) };
    let root_dir_sectors = (le16(b, 17) * 32 + 511) / 512;
    let fat_start = start + reserved;
    let root_dir_start = fat_start + num_fats * fat_size;
    FatVolume {
        partition_start: start,
        bytes_per_sector: 512,
        sectors_per_cluster: spc as u64,
        fat_start: fat_start as u64,
        fat_size: fat_size as u64,
        root_dir_start: root_dir_start as u64,
        root_dir_sectors: root_dir_sectors as u64,
        data_start: (root_dir_start + root_dir_sectors) as u64,
        root_cluster: le32(b, 44) as u32,
        kind: kind_for((total - reserved - num_fats * fat_size - root_dir_sectors) / spc),
    }
}

impl FatVolume {
    /// The region layout is consistent and fits comfortably in 64 bits.
    pub open spec fn wf(&self) -> bool {
        &&& self.bytes_per_sector == 512
        &&& pow2_byte(self.sectors_per_cluster as int)
        &&& self.partition_start <= self.fat_start <= self.root_dir_start <= self.data_start
        &&& self.root_dir_start + self.root_dir_sectors == self.data_start
        &&& self.root_dir_sectors <= 0x1000
        &&& self.data_start <= 0x200_0000_0000
        &&& self.fat_size <= 0xFFFF_FFFF
    }
}

/// The start sectors `mount` tries: each used MBR slot among the first `k`,
/// in slot order.
pub open spec fn mbr_slots(b: Seq<u8>, k: int) -> Seq<u64>
    decreases k,
{
    if k <= 0 {
        seq![]
    } else {
        let p = mbr_slots(b, k - 1);
        let off = 0x1BE + (k - 1) * 16;
        if b[off + 4] != 0 { p.push(le32(b, off + 8) as u64) } else { p }
    }
}

/// The start sectors `mount` tries: the used MBR slots, then 0 (superfloppy).
pub open spec fn mount_candidates(b: Seq<u8>) -> Seq<u64> {
    mbr_slots(b, 4).push(0u64)
}

/// Sector `start` of the device holds a valid FAT boot record.
pub open spec fn valid_vbr_at(s: Seq<Seq<u8>>, start: u64) -> bool {
    start < s.len() && vbr_fault(s[start as int]) is None
}

/// Whether `x` is one of 1, 2, 4, ..., 128.
fn is_pow2_byte(x: u8) -> (r: bool)
    ensures
        r == pow2_byte(x as int),
{
    x == 1 || x == 2 || x == 4 || x == 8 || x == 16 || x == 32 || x == 64 || x == 128
}


/// ASCII upper-casing of one byte.
pub open spec fn upper(b: u8) -> u8 {
    if 97 <= b <= 122 { (b - 32) as u8 } else { b }
}

/// No `.` in `b`.
pub open spec fn no_dot(b: Seq<u8>) -> bool {
    forall|i: int| 0 <= i < b.len() ==> #[trigger] b[i] != 46u8
}

/// Index of the first `.` in `b`, or -1.
pub open spec fn first_dot(b: Seq<u8>) -> int {
    if no_dot(b) {
        -1
    } else {
        choose|d: int| 0 <= d < b.len() && b[d] == 46u8 && no_dot(b.take(d))
    }
}

/// The 11-byte, space-padded directory form of a file name such as
/// "BATANG.TXT": base up to 8 bytes, optional extension up to 3, ASCII
/// upper-cased; `None` when the name is not a valid 8.3 name.
pub open spec fn encode83(b: Seq<u8>) -> Option<Seq<u8>> {
    let d = first_dot(b);
    let base = if d < 0 { b } else { b.take(d) };
    let ext = if d < 0 { Seq::<u8>::empty() } else { b.skip(d + 1) };
    if base.len() == 0 || base.len() > 8 || ext.len() > 3 || !no_dot(ext) {
        None
    } else {
        Some(Seq::new(11, |k: int|
            if k < 8 {
                if k < base.len() { upper(base[k]) } else { 32u8 }
            } else {
                if k - 8 < ext.len() { upper(ext[k - 8]) } else { 32u8 }
            }))
    }
}

/// A byte whose character is whitespace.
pub open spec fn ws_byte(b: u8) -> bool {
    b == 32 || (9 <= b <= 13) || b == 0x85 || b == 0xA0
}

/// Length of `b.take(n)` without its trailing whitespace.
pub open spec fn trimmed_len(b: Seq<u8>, n: int) -> int
    decreases n,
{
    if n > 0 && ws_byte(b[n - 1]) { trimmed_len(b, n - 1) } else { n }
}

/// Each byte as the character with that code.
pub open spec fn latin1(b: Seq<u8>) -> Seq<char> {
    b.map_values(|x: u8| x as char)
}

/// The display form of an 11-byte directory name: base and extension with
/// trailing whitespace removed, joined by `.` when there is an extension.
pub open spec fn decode83(raw: Seq<u8>) -> Seq<char> {
    let bl = trimmed_len(raw, 8);
    let el = trimmed_len(raw.subrange(8, 11), 3);
    if el == 0 {
        latin1(raw.take(bl))
    } else {
        latin1(raw.take(bl)).push('.') + latin1(raw.subrange(8, 8 + el))
    }
}

/// Encode a name into its directory form (see [`encode83`]).
fn encode_83(name: &str) -> (r: Result<[u8; 11], &'static str>)
    ensures
        encode83(name.spec_bytes()) is None ==> r == Err::<[u8; 11], &'static str>("not a valid 8.3 name"),
        encode83(name.spec_bytes()) is Some ==> r is Ok && r->Ok_0@ == encode83(name.spec_bytes())->0,
{
    let b = name.as_bytes();
    let ghost bs = name.spec_bytes();
    let mut d: usize = 0;
    while d < b.len() && b[d] != 46u8
        invariant
            b@ == bs,
            d <= b@.len(),
            no_dot(b@.take(d as int)),
        decreases b@.len() - d,
    {
        assert(b@.take(d as int + 1) =~= b@.take(d as int).push(b@[d as int]));
        d = d + 1;
    }
    let has_dot = d < b.len();
    proof {
        if has_dot {
            assert(first_dot(bs) == d as int) by {
                let c = choose|c: int| 0 <= c < bs.len() && bs[c] == 46u8 && no_dot(bs.take(c));
                assert(!no_dot(bs));
                if c < d { assert(bs.take(d as int)[c] == 46u8); }
                if c > d as int { assert(bs.take(c)[d as int] == 46u8); }
            }
        } else {
            assert(bs.take(d as int) =~= bs);
        }
    }
    let base_len = d;
    let ext_start = if has_dot { d + 1 } else { b.len() };
    let ext_len = b.len() - ext_start;
    let mut e: usize = ext_start;
    while e < b.len() && b[e] != 46u8
        invariant
            b@ == bs,
            ext_start <= e <= b@.len(),
            forall|i: int| ext_start <= i < e ==> #[trigger] b@[i] != 46u8,
        decreases b@.len() - e,
    {
        e = e + 1;
    }
    let ghost ext = if has_dot { bs.skip(d as int + 1) } else { Seq::<u8>::empty() };
    proof {
        if has_dot {
            assert(ext.len() == ext_len);
            if e < b.len() {
                assert(ext[e - ext_start] == 46u8);
            } else {
                assert forall|i: int| 0 <= i < ext.len() implies #[trigger] ext[i] != 46u8 by {
                    assert(ext[i] == bs[ext_start + i]);
                }
            }
        }
    }
    if base_len == 0 || base_len > 8 || ext_len > 3 || e < b.len() {
        return Err("not a valid 8.3 name");
    }
    let mut out = [32u8; 11];
    let mut i: usize = 0;
    while i < base_len
        invariant
            b@ == bs,
            base_len <= 8,
            base_len <= b@.len(),
            i <= base_len,
            forall|k: int| 0 <= k < i ==> out@[k] == upper(b@[k]),
            forall|k: int| i <= k < 11 ==> out@[k] == 32u8,
        decreases base_len - i,
    {
        let c = b[i];
        out[i] = if 97 <= c && c <= 122 { c - 32 } else { c };
        i = i + 1;
    }
    let mut j: usize = 0;
    while j < ext_len
        invariant
            b@ == bs,
            base_len <= 8,
            ext_len <= 3,
            ext_start + ext_len == b@.len(),
            b@.len() <= usize::MAX,
            j <= ext_len,
            forall|k: int| 0 <= k < base_len ==> out@[k] == upper(b@[k]),
            forall|k: int| base_len <= k < 8 ==> out@[k] == 32u8,
            forall|k: int| 8 <= k < 8 + j ==> #[trigger] out@[k] == upper(b@[ext_start + k - 8]),
            forall|k: int| 8 + j <= k < 11 ==> out@[k] == 32u8,
        decreases ext_len - j,
    {
        let c = b[ext_start + j];
        out[8 + j] = if 97 <= c && c <= 122 { c - 32 } else { c };
        j = j + 1;
    }
    proof {
        let want = encode83(bs)->0;
        assert forall|k: int| 0 <= k < 11 implies out@[k] == want[k] by {
            if k >= 8 && k - 8 < ext_len {
                assert(ext[k - 8] == bs[ext_start + k - 8]);
            }
        }
        assert(out@ =~= want);
    }
    Ok(out)
}

/// Length of `b[..n]` without trailing whitespace.
fn trim_len(b: &[u8], n: usize) -> (r: usize)
    requires
        n <= b@.len(),
    ensures
        r == trimmed_len(b@, n as int),
        r <= n,
{
    let mut m = n;
    while m > 0 && ws(b[m - 1])
        invariant
            m <= n,
            n <= b@.len(),
            trimmed_len(b@, m as int) == trimmed_len(b@, n as int),
        decreases m,
    {
        m = m - 1;
    }
    m
}

/// Whether a byte's character is whitespace.
fn ws(b: u8) -> (r: bool)
    ensures
        r == ws_byte(b),
{
    b == 32 || (9 <= b && b <= 13) || b == 0x85 || b == 0xA0
}

/// Append the characters of bytes `b[from..to]`.
fn push_latin1(s: &mut String, b: &[u8], from: usize, to: usize)
    requires
        from <= to <= b@.len(),
    ensures
        final(s)@ == old(s)@ + latin1(b@.subrange(from as int, to as int)),
{
    let ghost s0 = s@;
    let mut i = from;
    while i < to
        invariant
            from <= i <= to,
            to <= b@.len(),
            s@ == s0 + latin1(b@.subrange(from as int, i as int)),
        decreases to - i,
    {
        crate::text::string_push(s, b[i] as char);
        assert(latin1(b@.subrange(from as int, i as int + 1)) =~= latin1(b@.subrange(from as int, i as int)).push(b@[i as int] as char));
        i = i + 1;
    }
}

/// The display form of an 11-byte directory name (see [`decode83`]).
fn decode_83(raw: &[u8]) -> (s: String)
    requires
        raw@.len() >= 11,
    ensures
        s@ == decode83(raw@),
{
    let bl = trim_len(raw, 8);
    let ext = [raw[8], raw[9], raw[10]];
    assert(ext@ =~= raw@.subrange(8, 11));
    let el = trim_len(&ext, 3);
    let mut s = String::new();
    push_latin1(&mut s, raw, 0, bl);
    assert(raw@.subrange(0, bl as int) =~= raw@.take(bl as int));
    if el > 0 {
        crate::text::string_push(&mut s, '.');
        push_latin1(&mut s, raw, 8, 8 + el);
    }
    s
}


/// The sixteen 32-byte directory entries of a sector.
pub open spec fn sector_entries(sec: Seq<u8>) -> Seq<Seq<u8>> {
    Seq::new(16, |e: int| sec.subrange(e * 32, e * 32 + 32))
}

/// The end-of-directory marker.
pub open spec fn is_end_entry(e: Seq<u8>) -> bool {
    e[0] == 0u8
}

/// A deleted entry or a long-file-name entry: skipped.
pub open spec fn is_hidden_entry(e: Seq<u8>) -> bool {
    e[0] == 0xE5u8 || e[11] & 0x0Fu8 == 0x0Fu8
}

/// Scanning the first `n` raw entries: whether the end marker was met, and
/// the used entries seen before it, in order.
pub open spec fn scan(raw: Seq<Seq<u8>>, n: int) -> (bool, Seq<Seq<u8>>)
    decreases n,
{
    if n <= 0 {
        (false, Seq::empty())
    } else {
        let p = scan(raw, n - 1);
        if p.0 {
            p
        } else if is_end_entry(raw[n - 1]) {
            (true, p.1)
        } else if is_hidden_entry(raw[n - 1]) {
            p
        } else {
            (false, p.1.push(raw[n - 1]))
        }
    }
}

/// The scan of all of `raw`.
pub open spec fn visible(raw: Seq<Seq<u8>>) -> Seq<Seq<u8>> {
    scan(raw, raw.len() as int).1
}

/// The display names of directory entries.
pub open spec fn names_of(vis: Seq<Seq<u8>>) -> Seq<Seq<char>> {
    vis.map_values(|e: Seq<u8>| decode83(e))
}

/// An entry's 11-byte name is `wanted`.
pub open spec fn names_match(e: Seq<u8>, wanted: Seq<u8>) -> bool {
    e.take(11) == wanted
}

/// `vis[k]` is the first entry named `wanted`.
pub open spec fn first_match(vis: Seq<Seq<u8>>, wanted: Seq<u8>, k: int) -> bool {
    &&& 0 <= k < vis.len()
    &&& names_match(vis[k], wanted)
    &&& forall|j: int| 0 <= j < k ==> !names_match(#[trigger] vis[j], wanted)
}

/// No entry is named `wanted`.
pub open spec fn no_match(vis: Seq<Seq<u8>>, wanted: Seq<u8>) -> bool {
    forall|j: int| 0 <= j < vis.len() ==> !names_match(#[trigger] vis[j], wanted)
}

/// First cluster of a directory entry (high word at 20, low word at 26).
pub open spec fn entry_cluster(e: Seq<u8>) -> u32 {
    ((le16(e, 20) as u32) << 16u32) | (le16(e, 26) as u32)
}

/// File size of a directory entry.
pub open spec fn entry_size(e: Seq<u8>) -> u64 {
    le32(e, 28) as u64
}

/// The scan only depends on the entries it has read.
proof fn lemma_scan_prefix(a: Seq<Seq<u8>>, b: Seq<Seq<u8>>, n: int)
    requires
        0 <= n <= a.len(),
        n <= b.len(),
        forall|i: int| 0 <= i < n ==> a[i] == b[i],
    ensures
        scan(a, n) == scan(b, n),
    decreases n,
{
    if n > 0 {
        lemma_scan_prefix(a, b, n - 1);
    }
}

/// Once the end marker is met, scanning further changes nothing.
proof fn lemma_scan_ended(raw: Seq<Seq<u8>>, i: int, n: int)
    requires
        0 <= i <= n,
        scan(raw, i).0,
    ensures
        scan(raw, n) == scan(raw, i),
    decreases n - i,
{
    if n > i {
        lemma_scan_ended(raw, i, n - 1);
    }
}

/// Scanning further only appends entries.
proof fn lemma_scan_grows(raw: Seq<Seq<u8>>, i: int, n: int)
    requires
        0 <= i <= n,
    ensures
        scan(raw, i).1.len() <= scan(raw, n).1.len(),
        scan(raw, n).1.take(scan(raw, i).1.len() as int) == scan(raw, i).1,
    decreases n - i,
{
    if n > i {
        lemma_scan_grows(raw, i, n - 1);
        let a = scan(raw, i).1;
        let b = scan(raw, n - 1).1;
        let c = scan(raw, n).1;
        assert(c.take(b.len() as int) =~= b);
        assert(c.take(a.len() as int) =~= b.take(a.len() as int));
    }
}

/// How a sector visit ended.
pub enum Visit {
    /// Every entry was seen; the directory may go on.
    Continue,
    /// The end-of-directory marker was met.
    End,
    /// The wanted entry: its first cluster and size.
    Found(u32, u64),
}

/// Entry `e` of a sector as its own 32 bytes.
fn entry_at(sector: &[u8; 512], e: usize) -> (ent: [u8; 32])
    requires
        e < 16,
    ensures
        ent@ == sector@.subrange(e as int * 32, e as int * 32 + 32),
        ent@ == sector_entries(sector@)[e as int],
{
    let mut ent = [0u8; 32];
    let mut t: usize = 0;
    while t < 32
        invariant
            e < 16,
            t <= 32,
            forall|k: int| 0 <= k < t ==> ent@[k] == sector@[e * 32 + k],
        decreases 32 - t,
    {
        ent[t] = sector[e * 32 + t];
        t = t + 1;
    }
    assert(ent@ =~= sector@.subrange(e as int * 32, e as int * 32 + 32));
    ent
}

/// Whether the first 11 bytes of `ent` are `wanted`.
fn name_is(ent: &[u8; 32], wanted: &[u8; 11]) -> (r: bool)
    ensures
        r == names_match(ent@, wanted@),
{
    let mut t: usize = 0;
    while t < 11
        invariant
            t <= 11,
            forall|k: int| 0 <= k < t ==> ent@[k] == wanted@[k],
        decreases 11 - t,
    {
        if ent[t] != wanted[t] {
            assert(ent@.take(11)[t as int] != wanted@[t as int]);
            return false;
        }
        t = t + 1;
    }
    assert(ent@.take(11) =~= wanted@);
    true
}

/// Read sector `lba` and scan its entries after those already scanned
/// (`raw`), collecting display names, or stopping at the wanted entry.
fn visit_sector<D: BlockDevice>(dev: &mut D, lba: u64, target: Option<[u8; 11]>, names: &mut Vec<String>, Ghost(raw): Ghost<Seq<Seq<u8>>>)
    -> (r: Result<Visit, &'static str>)
    requires
        old(dev).wf(),
        !scan(raw, raw.len() as int).0,
        crate::text::texts(old(names)@) == names_of(visible(raw)),
        target is Some ==> no_match(visible(raw), target->0@),
    ensures
        final(dev).wf(),
        final(dev).sectors() == old(dev).sectors(),
        final(dev).reads_ok() == old(dev).reads_ok(),
        old(dev).reads_ok() && lba < old(dev).sectors().len() ==> r is Ok,
        r is Ok ==> lba < old(dev).sectors().len() && ({
            let raw2 = raw + sector_entries(old(dev).sectors()[lba as int]);
            let sc = scan(raw2, raw2.len() as int);
            match r->Ok_0 {
                Visit::Continue => !sc.0 && crate::text::texts(final(names)@) == names_of(sc.1)
                    && (target is Some ==> no_match(sc.1, target->0@)),
                Visit::End => sc.0 && crate::text::texts(final(names)@) == names_of(sc.1)
                    && (target is Some ==> no_match(sc.1, target->0@)),
                Visit::Found(c, z) => target is Some && exists|k: int| #[trigger] first_match(sc.1, target->0@, k)
                    && c == entry_cluster(sc.1[k]) && z == entry_size(sc.1[k])
                    && crate::text::texts(final(names)@) == names_of(sc.1.take(k)),
            }
        }),
{
    let ghost s0 = dev.sectors();
    let mut sector = [0u8; SECTOR_SIZE];
    match dev.read_sector(lba, &mut sector) {
        Ok(()) => {},
        Err(e) => {
            return Err(e);
        },
    }
    let ghost raw2 = raw + sector_entries(sector@);
    let ghost n0 = raw.len() as int;
    proof {
        lemma_scan_prefix(raw, raw2, n0);
    }
    let mut e: usize = 0;
    let mut outcome = Visit::Continue;
    let mut stop = false;
    while e < 16 && !stop
        invariant
            e <= 16,
            lba < s0.len(),
            sector@ == s0[lba as int],
            raw2 == raw + sector_entries(sector@),
            raw2.len() == n0 + 16,
            n0 == raw.len(),
            !stop ==> outcome is Continue,
            !stop ==> !scan(raw2, n0 + e).0
                && crate::text::texts(names@) == names_of(scan(raw2, n0 + e).1)
                && (target is Some ==> no_match(scan(raw2, n0 + e).1, target->0@)),
            stop ==> {
                let sc = scan(raw2, raw2.len() as int);
                match outcome {
                    Visit::Continue => false,
                    Visit::End => sc.0 && crate::text::texts(names@) == names_of(sc.1)
                        && (target is Some ==> no_match(sc.1, target->0@)),
                    Visit::Found(c, z) => target is Some && exists|k: int| #[trigger] first_match(sc.1, target->0@, k)
                        && c == entry_cluster(sc.1[k]) && z == entry_size(sc.1[k])
                        && crate::text::texts(names@) == names_of(sc.1.take(k)),
                }
            },
        decreases 16 - e,
    {
        let ent = entry_at(&sector, e);
        assert(raw2[n0 + e] == ent@);
        if ent[0] == 0 {
            proof {
                lemma_scan_ended(raw2, n0 + e + 1, raw2.len() as int);
            }
            outcome = Visit::End;
            stop = true;
            e = e + 1;
        } else if ent[0] == 0xE5 || ent[11] & 0x0F == 0x0F {
            e = e + 1;
        } else {
            let ghost before = scan(raw2, n0 + e).1;
            let found = match target {
                Some(w) => name_is(&ent, &w),
                None => false,
            };
            if found {
                let hi = u16_at(&ent, 20) as u32;
                let lo = u16_at(&ent, 26) as u32;
                let cluster = (hi << 16) | lo;
                let size = u32_at(&ent, 28);
                proof {
                    let w = target->0@;
                    let sc = scan(raw2, n0 + e + 1).1;
                    assert(sc == before.push(ent@));
                    lemma_scan_grows(raw2, n0 + e + 1, raw2.len() as int);
                    let full = scan(raw2, raw2.len() as int).1;
                    assert(full.take(sc.len() as int) == sc);
                    assert(sc[before.len() as int] == ent@);
                    assert(full.take(sc.len() as int)[before.len() as int] == full[before.len() as int]);
                    assert(full[before.len() as int] == ent@);
                    assert(first_match(full, w, before.len() as int)) by {
                        assert forall|j: int| 0 <= j < before.len() implies !names_match(#[trigger] full[j], w) by {
                            assert(sc[j] == before[j]);
                            assert(full.take(sc.len() as int)[j] == full[j]);
                        }
                    }
                    assert(full.take(before.len() as int) =~= before);
                }
                outcome = Visit::Found(cluster, size);
                stop = true;
                e = e + 1;
            } else {
                let nm = decode_83(&ent);
                let ghost nb = names@;
                names.push(nm);
                proof {
                    let sc = scan(raw2, n0 + e + 1).1;
                    assert(sc == before.push(ent@));
                    assert(names@ == nb.push(nm));
                    assert(crate::text::texts(names@) =~= crate::text::texts(nb).push(nm@));
                    assert(names_of(sc) =~= names_of(before).push(decode83(ent@)));
                }
                e = e + 1;
            }
        }
    }
    Ok(outcome)
}

impl FatVolume {
    /// Mount `dev`: try every MBR partition, then LBA 0 as a superfloppy,
    /// and accept the first sector that validates as a FAT boot record.
    pub fn mount<D: BlockDevice>(dev: &mut D) -> (r: Result<FatVolume, &'static str>)
        requires
            old(dev).wf(),
        ensures
            final(dev).wf(),
            final(dev).sectors() == old(dev).sectors(),
            r is Ok ==> {
                let s = old(dev).sectors();
                &&& s.len() > 0
                &&& s[0][510] == 0x55 && s[0][511] == 0xAA
                &&& r->Ok_0.wf()
                &&& exists|k: int| 0 <= k < mount_candidates(s[0]).len()
                    && #[trigger] valid_vbr_at(s, mount_candidates(s[0])[k])
                    && r->Ok_0 == vbr_volume(s[mount_candidates(s[0])[k] as int], mount_candidates(s[0])[k])
            },
            old(dev).sectors().len() > 0 && (old(dev).sectors()[0][510] != 0x55 || old(dev).sectors()[0][511] != 0xAA) ==> r is Err,
            final(dev).reads_ok() == old(dev).reads_ok(),
            ({
                let s = old(dev).sectors();
                let sig = s[0][510] == 0x55 && s[0][511] == 0xAA;
                let some_valid = exists|k: int| 0 <= k < mount_candidates(s[0]).len()
                    && #[trigger] valid_vbr_at(s, mount_candidates(s[0])[k]);
                &&& old(dev).reads_ok() && s.len() > 0 && !sig ==>
                    r == Err::<FatVolume, &'static str>("no boot signature in sector 0")
                &&& old(dev).reads_ok() && s.len() > 0 && sig && some_valid ==> r is Ok
                &&& old(dev).reads_ok() && s.len() > 0 && sig && !some_valid ==>
                    r == Err::<FatVolume, &'static str>("no FAT volume found on device")
            }),
    {
        let mut sector = [0u8; SECTOR_SIZE];
        let ghost s = dev.sectors();
        match dev.read_sector(0, &mut sector) {
            Ok(()) => {},
            Err(e) => {
                return Err(e);
            },
        }
        if sector[510] != 0x55 || sector[511] != 0xAA {
            return Err("no boot signature in sector 0");
        }
        let mut candidates: Vec<u64> = Vec::new();
        let mut entry: usize = 0;
        while entry < 4
            invariant
                entry <= 4,
                dev.wf(),
                dev.sectors() == s,
                s.len() > 0,
                s[0][510] == 0x55 && s[0][511] == 0xAA,
                sector@ == s[0],
                candidates@ == mbr_slots(s[0], entry as int),
                forall|k: int| 0 <= k < candidates@.len() ==> #[trigger] candidates@[k] < 0x1_0000_0000,
            decreases 4 - entry,
        {
            let off = 0x1BE + entry * 16;
            if sector[off + 4] != 0 {
                candidates.push(u32_at(&sector, off + 8));
            }
            entry = entry + 1;
        }
        candidates.push(0);
        let mut i: usize = 0;
        let mut found: Option<FatVolume> = None;
        while i < candidates.len() && found.is_none()
            invariant
                dev.wf(),
                dev.sectors() == s,
                s.len() > 0,
                s[0][510] == 0x55 && s[0][511] == 0xAA,
                candidates@ == mount_candidates(s[0]),
                forall|k: int| 0 <= k < candidates@.len() ==> #[trigger] candidates@[k] < 0x1_0000_0000,
                i <= candidates@.len(),
                dev.reads_ok() == old(dev).reads_ok(),
                found is None && old(dev).reads_ok() ==> forall|k: int| 0 <= k < i ==> !(#[trigger] valid_vbr_at(s, mount_candidates(s[0])[k])),
                found is Some ==> found->0.wf() && exists|k: int| 0 <= k < mount_candidates(s[0]).len()
                    && #[trigger] valid_vbr_at(s, mount_candidates(s[0])[k])
                    && found->0 == vbr_volume(s[mount_candidates(s[0])[k] as int], mount_candidates(s[0])[k]),
            decreases candidates@.len() - i,
        {
            match FatVolume::parse_vbr(dev, candidates[i]) {
                Ok(vol) => {
                    assert(valid_vbr_at(s, mount_candidates(s[0])[i as int]));
                    found = Some(vol);
                },
                Err(_) => {},
            }
            i = i + 1;
        }
        match found {
            Some(vol) => Ok(vol),
            None => Err("no FAT volume found on device"),
        }
    }

    /// Parse the boot record at sector `partition_start`.
    fn parse_vbr<D: BlockDevice>(dev: &mut D, partition_start: u64) -> (r: Result<FatVolume, &'static str>)
        requires
            old(dev).wf(),
            partition_start < 0x1_0000_0000,
        ensures
            final(dev).wf(),
            final(dev).sectors() == old(dev).sectors(),
            r is Ok ==> valid_vbr_at(old(dev).sectors(), partition_start)
                && r->Ok_0 == vbr_volume(old(dev).sectors()[partition_start as int], partition_start)
                && r->Ok_0.wf(),
            partition_start < old(dev).sectors().len() && vbr_fault(old(dev).sectors()[partition_start as int]) is Some ==> r is Err,
            final(dev).reads_ok() == old(dev).reads_ok(),
            old(dev).reads_ok() && partition_start < old(dev).sectors().len() ==>
                r == match vbr_fault(old(dev).sectors()[partition_start as int]) {
                    Some(m) => Err::<FatVolume, &'static str>(m),
                    None => Ok::<FatVolume, &'static str>(vbr_volume(old(dev).sectors()[partition_start as int], partition_start)),
                },
    {
        let mut vbr = [0u8; SECTOR_SIZE];
        match dev.read_sector(partition_start, &mut vbr) {
            Ok(()) => {},
            Err(e) => {
                return Err(e);
            },
        }
        if vbr[0] != 0xEB && vbr[0] != 0xE9 {
            return Err("not a FAT VBR (no jump instruction)");
        }
        let bytes_per_sector = u16_at(&vbr, 11);
        if bytes_per_sector != 512 {
            return Err("unsupported sector size");
        }
        if !is_pow2_byte(vbr[13]) {
            return Err("invalid sectors per cluster");
        }
        let sectors_per_cluster = vbr[13] as u64;
        let reserved = u16_at(&vbr, 14);
        let num_fats = vbr[16] as u64;
        let root_entries = u16_at(&vbr, 17);
        let fat16 = u16_at(&vbr, 22);
        let fat_size = if fat16 == 0 { u32_at(&vbr, 36) } else { fat16 };
        let total16 = u16_at(&vbr, 19);
        let total_sectors = if total16 == 0 { u32_at(&vbr, 32) } else { total16 };
        let root_dir_sectors = (root_entries * 32 + 511) / 512;
        assert(num_fats * fat_size <= 255 * 0xFFFF_FFFF) by (nonlinear_arith)
            requires num_fats <= 255, fat_size <= 0xFFFF_FFFF;
        let meta = reserved + num_fats * fat_size + root_dir_sectors;
        if fat_size == 0 || total_sectors == 0 || total_sectors < meta {
            return Err("invalid FAT BPB");
        }
        let fat_start = partition_start + reserved;
        let root_dir_start = fat_start + num_fats * fat_size;
        let data_start = root_dir_start + root_dir_sectors;
        let cluster_count = (total_sectors - meta) / sectors_per_cluster;
        let kind = if cluster_count < 4085 {
            FatKind::Fat12
        } else if cluster_count < 65525 {
            FatKind::Fat16
        } else {
            FatKind::Fat32
        };
        let root_cluster = u32_at(&vbr, 44) as u32;
        let vol = FatVolume {
            partition_start,
            bytes_per_sector,
            sectors_per_cluster,
            fat_start,
            fat_size,
            root_dir_start,
            root_dir_sectors,
            data_start,
            root_cluster,
            kind,
        };
        assert(vol == vbr_volume(vbr@, partition_start));
        Ok(vol)
    }

    /// "FAT12", "FAT16" or "FAT32".
    pub fn kind_name(&self) -> (s: &'static str)
        ensures
            self.kind == FatKind::Fat12 ==> s == "FAT12",
            self.kind == FatKind::Fat16 ==> s == "FAT16",
            self.kind == FatKind::Fat32 ==> s == "FAT32",
    {
        match self.kind {
            FatKind::Fat12 => "FAT12",
            FatKind::Fat16 => "FAT16",
            FatKind::Fat32 => "FAT32",
        }
    }

    /// The first sector of data cluster `cluster`.
    pub open spec fn cluster_lba(&self, cluster: u32) -> int {
        self.data_start + (cluster - 2) * self.sectors_per_cluster
    }

    /// First sector of a data cluster (clusters are numbered from 2).
    fn cluster_to_sector(&self, cluster: u32) -> (lba: u64)
        requires
            self.wf(),
            cluster >= 2,
        ensures
            lba == self.cluster_lba(cluster),
            lba + self.sectors_per_cluster <= 0x300_0000_0000,
    {
        assert((cluster - 2) * self.sectors_per_cluster <= 0xFFFF_FFFF * 128) by (nonlinear_arith)
            requires cluster - 2 <= 0xFFFF_FFFF, self.sectors_per_cluster <= 128, cluster >= 2;
        self.data_start + (cluster as u64 - 2) * self.sectors_per_cluster
    }

    /// The 12-bit FAT entry of `cluster` in the first FAT (it may straddle
    /// two sectors).
    pub open spec fn fat12_entry(&self, s: Seq<Seq<u8>>, cluster: u32) -> u32 {
        let off = cluster + cluster / 2;
        let sec = self.fat_start + off / 512;
        let idx = off % 512;
        let lo = s[sec][idx] as u32;
        let hi = if idx + 1 < 512 { s[sec][idx + 1] as u32 } else { s[sec + 1][0] as u32 };
        let raw = lo | (hi << 8u32);
        if cluster & 1 == 0 { raw & 0xFFF } else { raw >> 4u32 }
    }

    /// The FAT entry of `cluster` decoded for this variant, before end-of-chain
    /// and reserved values are filtered.
    pub open spec fn fat_value(&self, s: Seq<Seq<u8>>, cluster: u32) -> (u32, u32) {
        match self.kind {
            FatKind::Fat12 => (self.fat12_entry(s, cluster), 0xFF8),
            FatKind::Fat16 => {
                let off = cluster * 2;
                (le16(s[self.fat_start + off / 512], off % 512) as u32, 0xFFF8)
            },
            FatKind::Fat32 => {
                let off = cluster * 4;
                ((le32(s[self.fat_start + off / 512], off % 512) as u32) & 0x0FFF_FFFF, 0x0FFF_FFF8)
            },
        }
    }

    /// The cluster after `cluster` in its chain: `None` at end of chain or
    /// when the entry names no data cluster.
    pub open spec fn fat_next(&self, s: Seq<Seq<u8>>, cluster: u32) -> Option<u32> {
        let (v, eoc) = self.fat_value(s, cluster);
        if v >= eoc || v < 2 { None } else { Some(v) }
    }

    /// The sectors holding `cluster`'s FAT entry all exist.
    pub open spec fn fat_readable(&self, s: Seq<Seq<u8>>, cluster: u32) -> bool {
        match self.kind {
            FatKind::Fat12 => {
                let off = cluster + cluster / 2;
                self.fat_start + off / 512 + (if off % 512 == 511 { 1int } else { 0int }) < s.len()
            },
            FatKind::Fat16 => self.fat_start + (cluster * 2) / 512 < s.len(),
            FatKind::Fat32 => self.fat_start + (cluster * 4) / 512 < s.len(),
        }
    }

    /// Follow the FAT from `cluster`.
    fn next_cluster<D: BlockDevice>(&self, dev: &mut D, cluster: u32) -> (r: Result<Option<u32>, &'static str>)
        requires
            self.wf(),
            old(dev).wf(),
        ensures
            final(dev).wf(),
            final(dev).sectors() == old(dev).sectors(),
            final(dev).reads_ok() == old(dev).reads_ok(),
            r is Ok ==> self.fat_readable(old(dev).sectors(), cluster) && r->Ok_0 == self.fat_next(old(dev).sectors(), cluster),
            old(dev).reads_ok() && self.fat_readable(old(dev).sectors(), cluster) ==> r is Ok,
    {
        let ghost s = dev.sectors();
        let mut sector = [0u8; SECTOR_SIZE];
        let (val, eoc): (u32, u32) = match self.kind {
            FatKind::Fat12 => {
                let offset = cluster as u64 + cluster as u64 / 2;
                let sec = self.fat_start + offset / 512;
                let idx = (offset % 512) as usize;
                match dev.read_sector(sec, &mut sector) {
                    Ok(()) => {},
                    Err(e) => {
                        return Err(e);
                    },
                }
                let lo = sector[idx] as u32;
                let hi = if idx + 1 < SECTOR_SIZE {
                    sector[idx + 1] as u32
                } else {
                    match dev.read_sector(sec + 1, &mut sector) {
                        Ok(()) => {},
                        Err(e) => {
                            return Err(e);
                        },
                    }
                    sector[0] as u32
                };
                let raw = lo | (hi << 8);
                (if cluster & 1 == 0 { raw & 0xFFF } else { raw >> 4 }, 0xFF8)
            },
            FatKind::Fat16 => {
                let offset = cluster as u64 * 2;
                let sec = self.fat_start + offset / 512;
                match dev.read_sector(sec, &mut sector) {
                    Ok(()) => {},
                    Err(e) => {
                        return Err(e);
                    },
                }
                let idx = (offset % 512) as usize;
                (u16_at(&sector, idx) as u32, 0xFFF8)
            },
            FatKind::Fat32 => {
                let offset = cluster as u64 * 4;
                let sec = self.fat_start + offset / 512;
                match dev.read_sector(sec, &mut sector) {
                    Ok(()) => {},
                    Err(e) => {
                        return Err(e);
                    },
                }
                let idx = (offset % 512) as usize;
                ((u32_at(&sector, idx) as u32) & 0x0FFF_FFFF, 0x0FFF_FFF8)
            },
        };
        if val >= eoc || val < 2 {
            Ok(None)
        } else {
            Ok(Some(val))
        }
    }

    /// The partition's first sector.
    pub fn partition_start(&self) -> (p: u64)
        ensures
            p == self.partition_start,
    {
        self.partition_start
    }
}

impl FatVolume {
    /// The raw entries of a FAT12/16 root directory, in order.
    pub open spec fn root_raw(&self, s: Seq<Seq<u8>>) -> Seq<Seq<u8>> {
        Seq::new((self.root_dir_sectors * 16) as nat, |i: int| sector_entries(s[self.root_dir_start + i / 16])[i % 16])
    }

    /// The used entries of a FAT12/16 root directory, in order.
    pub open spec fn root_visible(&self, s: Seq<Seq<u8>>) -> Seq<Seq<u8>> {
        visible(self.root_raw(s))
    }

    /// The bytes of data cluster `c`.
    pub open spec fn cluster_bytes(&self, s: Seq<Seq<u8>>, c: u32) -> Seq<u8> {
        Seq::new((self.sectors_per_cluster * 512) as nat, |i: int| s[self.cluster_lba(c) + i / 512][i % 512])
    }

    /// Reading a file of `size` bytes whose chain starts at `c0`, after `k`
    /// clusters: the current cluster, the bytes read, and whether the chain
    /// has ended.
    pub open spec fn chain_read(&self, s: Seq<Seq<u8>>, c0: u32, size: nat, k: nat) -> (u32, Seq<u8>, bool)
        decreases k,
    {
        if k == 0 {
            (c0, Seq::empty(), false)
        } else {
            let p = self.chain_read(s, c0, size, (k - 1) as nat);
            if p.2 || p.1.len() >= size {
                p
            } else {
                let want = size - p.1.len();
                let cb = self.cluster_bytes(s, p.0);
                let d = p.1 + cb.take(if want < cb.len() { want } else { cb.len() as int });
                match self.fat_next(s, p.0) {
                    Some(n) => (n, d, false),
                    None => (p.0, d, true),
                }
            }
        }
    }
}

impl FatVolume {
    /// Step `j` of reading the chain from `c0` can proceed: the read is
    /// over, or the current cluster is a data cluster on the disk whose FAT
    /// entry is on the disk too.
    pub open spec fn chain_step_ok(&self, s: Seq<Seq<u8>>, c0: u32, size: nat, j: nat) -> bool {
        let p = self.chain_read(s, c0, size, j);
        ||| p.2 || p.1.len() >= size
        ||| p.0 >= 2 && self.cluster_lba(p.0) + self.sectors_per_cluster <= s.len() && self.fat_readable(s, p.0)
    }

    /// The chain from `c0` holds `size` bytes and every cluster on the way
    /// can be read: a file there reads back whole.
    pub open spec fn chain_ok(&self, s: Seq<Seq<u8>>, c0: u32, size: nat) -> bool {
        exists|n: nat| #[trigger] self.chain_read(s, c0, size, n).1.len() == size
            && forall|j: nat| j < n ==> #[trigger] self.chain_step_ok(s, c0, size, j)
    }
}

/// Once the chain has ended or the wanted bytes are in, further steps
/// change nothing.
proof fn lemma_chain_stable(v: FatVolume, s: Seq<Seq<u8>>, c0: u32, size: nat, k: nat, j: nat)
    requires
        k <= j,
        v.chain_read(s, c0, size, k).2 || v.chain_read(s, c0, size, k).1.len() >= size,
    ensures
        v.chain_read(s, c0, size, j) == v.chain_read(s, c0, size, k),
    decreases j - k,
{
    if j > k {
        lemma_chain_stable(v, s, c0, size, k, (j - 1) as nat);
    }
}

/// One more root sector extends the raw entries by that sector's entries.
proof fn lemma_root_raw_step(v: FatVolume, s: Seq<Seq<u8>>, k: int)
    requires
        0 <= k < v.root_dir_sectors,
    ensures
        v.root_raw(s).take(16 * (k + 1)) == v.root_raw(s).take(16 * k) + sector_entries(s[v.root_dir_start + k]),
{
    let a = v.root_raw(s).take(16 * (k + 1));
    let b = v.root_raw(s).take(16 * k) + sector_entries(s[v.root_dir_start + k]);
    assert forall|i: int| 0 <= i < 16 * (k + 1) implies a[i] == b[i] by {
        if i >= 16 * k {
            assert(i / 16 == k && i % 16 == i - 16 * k) by (nonlinear_arith)
                requires 16 * k <= i < 16 * k + 16;
        }
    }
    assert(a =~= b);
}

/// Copy `b[..n]` onto the end of `out`.
fn push_prefix(out: &mut Vec<u8>, b: &[u8; 512], n: usize)
    requires
        n <= 512,
    ensures
        final(out)@ == old(out)@ + b@.take(n as int),
{
    let ghost o0 = out@;
    let mut i: usize = 0;
    while i < n
        invariant
            i <= n <= 512,
            out@ == o0 + b@.take(i as int),
        decreases n - i,
    {
        out.push(b[i]);
        assert(b@.take(i as int + 1) =~= b@.take(i as int).push(b@[i as int]));
        i = i + 1;
    }
}

impl FatVolume {
    /// Visit every used root-directory entry in order, collecting display
    /// names into `names`, and stop early at the entry named `target`, if
    /// one is given: its first cluster and size come back.
    fn walk_root<D: BlockDevice>(&self, dev: &mut D, target: Option<[u8; 11]>, names: &mut Vec<String>)
        -> (r: Result<Option<(u32, u64)>, &'static str>)
        requires
            self.wf(),
            old(dev).wf(),
            old(names)@.len() == 0,
        ensures
            final(dev).wf(),
            final(dev).sectors() == old(dev).sectors(),
            final(dev).reads_ok() == old(dev).reads_ok(),
            r is Ok && r->Ok_0 is Some ==> target is Some,
            self.kind != FatKind::Fat32 && old(dev).reads_ok() && self.data_start <= old(dev).sectors().len() ==> r is Ok,
            self.kind != FatKind::Fat32 && r is Ok ==> {
                let vis = self.root_visible(old(dev).sectors());
                match r->Ok_0 {
                    None => crate::text::texts(final(names)@) == names_of(vis)
                        && (target is Some ==> no_match(vis, target->0@)),
                    Some(found) => exists|k: int| #[trigger] first_match(vis, target->0@, k)
                        && found.0 == entry_cluster(vis[k]) && found.1 == entry_size(vis[k])
                        && crate::text::texts(final(names)@) == names_of(vis.take(k)),
                }
            },
    {
        let ghost s0 = dev.sectors();
        let mut out: Option<Result<Option<(u32, u64)>, &'static str>> = None;
        match self.kind {
            FatKind::Fat32 => {
                let mut cluster = self.root_cluster;
                let mut steps: u32 = 0;
                let ghost mut raw: Seq<Seq<u8>> = Seq::empty();
                assert(crate::text::texts(names@) =~= names_of(visible(raw)));
                while out.is_none() && steps < 0x0FFF_FFF8
                    invariant
                        self.wf(),
                        dev.wf(),
                        dev.sectors() == s0,
                        dev.reads_ok() == old(dev).reads_ok(),
                        self.kind == FatKind::Fat32,
                        out is Some && out->0 is Ok && out->0->Ok_0 is Some ==> target is Some,
                        out is None ==> !scan(raw, raw.len() as int).0
                            && crate::text::texts(names@) == names_of(visible(raw))
                            && (target is Some ==> no_match(visible(raw), target->0@)),
                    decreases 0x0FFF_FFF8 - steps,
                {
                    if cluster < 2 {
                        out = Some(Err("corrupt cluster chain"));
                    } else {
                        let first = self.cluster_to_sector(cluster);
                        let mut j: u64 = 0;
                        while j < self.sectors_per_cluster && out.is_none()
                            invariant
                                self.wf(),
                                dev.wf(),
                                dev.sectors() == s0,
                                dev.reads_ok() == old(dev).reads_ok(),
                                self.kind == FatKind::Fat32,
                        self.kind == FatKind::Fat32,
                        dev.reads_ok() == old(dev).reads_ok(),
                        self.kind == FatKind::Fat32,
                                first + self.sectors_per_cluster <= 0x300_0000_0000,
                                out is Some && out->0 is Ok && out->0->Ok_0 is Some ==> target is Some,
                                out is None ==> !scan(raw, raw.len() as int).0
                                    && crate::text::texts(names@) == names_of(visible(raw))
                                    && (target is Some ==> no_match(visible(raw), target->0@)),
                            decreases self.sectors_per_cluster - j,
                        {
                            let ghost sec = dev.sectors()[(first + j) as int];
                            match visit_sector(dev, first + j, target, names, Ghost(raw)) {
                                Ok(Visit::Continue) => {
                                    proof {
                                        raw = raw + sector_entries(sec);
                                    }
                                },
                                Ok(Visit::End) => {
                                    out = Some(Ok(None));
                                },
                                Ok(Visit::Found(c, z)) => {
                                    out = Some(Ok(Some((c, z))));
                                },
                                Err(e) => {
                                    out = Some(Err(e));
                                },
                            }
                            j = j + 1;
                        }
                        if out.is_none() {
                            match self.next_cluster(dev, cluster) {
                                Ok(Some(next)) => {
                                    cluster = next;
                                },
                                Ok(None) => {
                                    out = Some(Ok(None));
                                },
                                Err(e) => {
                                    out = Some(Err(e));
                                },
                            }
                        }
                    }
                    steps = steps + 1;
                }
            },
            _ => {
                let mut k: u64 = 0;
                let ghost rr = self.root_raw(s0);
                assert(rr.take(0) =~= Seq::<Seq<u8>>::empty());
                assert(crate::text::texts(names@) =~= names_of(visible(rr.take(0))));
                while k < self.root_dir_sectors && out.is_none()
                    invariant
                        self.wf(),
                        self.kind != FatKind::Fat32,
                        dev.wf(),
                        dev.sectors() == s0,
                        dev.reads_ok() == old(dev).reads_ok(),
                        old(dev).reads_ok() && self.data_start <= s0.len() ==> (out is Some ==> out->0 is Ok),
                        rr == self.root_raw(s0),
                        k <= self.root_dir_sectors,
                        rr.len() == 16 * self.root_dir_sectors,
                        out is Some && out->0 is Ok && out->0->Ok_0 is Some ==> target is Some,
                        out is None ==> !scan(rr.take(16 * k), 16 * k).0
                            && crate::text::texts(names@) == names_of(visible(rr.take(16 * k)))
                            && (target is Some ==> no_match(visible(rr.take(16 * k)), target->0@)),
                        out is Some && out->0 is Ok ==> {
                            let vis = visible(rr);
                            match out->0->Ok_0 {
                                None => crate::text::texts(names@) == names_of(vis)
                                    && (target is Some ==> no_match(vis, target->0@)),
                                Some(found) => exists|i: int| #[trigger] first_match(vis, target->0@, i)
                                    && found.0 == entry_cluster(vis[i]) && found.1 == entry_size(vis[i])
                                    && crate::text::texts(names@) == names_of(vis.take(i)),
                            }
                        },
                    decreases self.root_dir_sectors - k,
                {
                    let ghost raw = rr.take(16 * k);
                    let ghost n = 16 * (k + 1);
                    proof {
                        lemma_root_raw_step(*self, s0, k as int);
                        assert(raw.len() == 16 * k);
                    }
                    match visit_sector(dev, self.root_dir_start + k, target, names, Ghost(raw)) {
                        Ok(Visit::Continue) => {},
                        Ok(v) => {
                            let ghost raw2 = rr.take(n);
                            proof {
                                lemma_scan_prefix(rr, raw2, n);
                                let sc = scan(raw2, n);
                                assert(scan(rr, n) == sc);
                                match v {
                                    Visit::End => {
                                        lemma_scan_ended(rr, n, rr.len() as int);
                                    },
                                    Visit::Found(c, z) => {
                                        lemma_scan_grows(rr, n, rr.len() as int);
                                        let full = visible(rr);
                                        let w = target->0@;
                                        let i = choose|i: int| #[trigger] first_match(sc.1, w, i)
                                            && c == entry_cluster(sc.1[i]) && z == entry_size(sc.1[i])
                                            && crate::text::texts(names@) == names_of(sc.1.take(i));
                                        assert(full.take(sc.1.len() as int) == sc.1);
                                        assert forall|j: int| 0 <= j <= i implies full[j] == sc.1[j] by {
                                            assert(full.take(sc.1.len() as int)[j] == full[j]);
                                        }
                                        assert(first_match(full, w, i));
                                        assert(full.take(i) =~= sc.1.take(i));
                                    },
                                    Visit::Continue => {},
                                }
                            }
                            match v {
                                Visit::Found(c, z) => {
                                    out = Some(Ok(Some((c, z))));
                                },
                                _ => {
                                    out = Some(Ok(None));
                                },
                            }
                        },
                        Err(e) => {
                            out = Some(Err(e));
                        },
                    }
                    k = k + 1;
                }
                proof {
                    if out is None {
                        assert(rr.take(16 * k) =~= rr);
                    }
                }
                if out.is_none() {
                    out = Some(Ok(None));
                }
            },
        }
        proof {
            if self.kind != FatKind::Fat32 {
                if out is Some && out->0 is Ok && out->0->Ok_0 is Some {
                    let found = out->0->Ok_0->0;
                    let vis = visible(self.root_raw(s0));
                    let w = target->0@;
                    let i = choose|i: int| #[trigger] first_match(vis, w, i)
                        && found.0 == entry_cluster(vis[i]) && found.1 == entry_size(vis[i])
                        && crate::text::texts(names@) == names_of(vis.take(i));
                    assert(first_match(self.root_visible(s0), w, i));
                }
            }
        }
        match out {
            Some(r) => r,
            None => Err("corrupt cluster chain"),
        }
    }

    /// List the root directory's display names (see [`decode83`]).
    pub fn list_root<D: BlockDevice>(&self, dev: &mut D) -> (r: Result<Vec<String>, &'static str>)
        requires
            self.wf(),
            old(dev).wf(),
        ensures
            final(dev).wf(),
            final(dev).sectors() == old(dev).sectors(),
            self.kind != FatKind::Fat32 && r is Ok ==>
                crate::text::texts(r->Ok_0@) == names_of(self.root_visible(old(dev).sectors())),
            final(dev).reads_ok() == old(dev).reads_ok(),
            self.kind != FatKind::Fat32 && old(dev).reads_ok() && self.data_start <= old(dev).sectors().len() ==> r is Ok,
    {
        let mut names: Vec<String> = Vec::new();
        match self.walk_root(dev, None, &mut names) {
            Ok(_) => Ok(names),
            Err(e) => Err(e),
        }
    }

    /// Read the file at `size` bytes from the cluster chain starting at `c0`.
    fn read_chain<D: BlockDevice>(&self, dev: &mut D, c0: u32, size: u64) -> (r: Result<Vec<u8>, &'static str>)
        requires
            self.wf(),
            old(dev).wf(),
        ensures
            final(dev).wf(),
            final(dev).sectors() == old(dev).sectors(),
            r is Ok ==> r->Ok_0@.len() == size && exists|k: nat| #[trigger] self.chain_read(old(dev).sectors(), c0, size as nat, k).1 == r->Ok_0@,
            final(dev).reads_ok() == old(dev).reads_ok(),
            old(dev).reads_ok() && self.chain_ok(old(dev).sectors(), c0, size as nat) ==> r is Ok,
    {
        let ghost ok = dev.reads_ok() && self.chain_ok(dev.sectors(), c0, size as nat);
        let ghost n: nat = if ok { choose|n: nat| #[trigger] self.chain_read(dev.sectors(), c0, size as nat, n).1.len() == size
            && forall|j: nat| j < n ==> #[trigger] self.chain_step_ok(dev.sectors(), c0, size as nat, j) } else { 0 };
        let ghost s0 = dev.sectors();
        let mut data: Vec<u8> = Vec::new();
        let mut cluster = c0;
        let mut ended = false;
        let mut err: Option<&'static str> = None;
        let ghost mut k: nat = 0;
        let mut sector = [0u8; SECTOR_SIZE];
        while (data.len() as u64) < size && !ended && err.is_none()
            invariant
                self.wf(),
                dev.wf(),
                dev.sectors() == s0,
                dev.reads_ok() == old(dev).reads_ok(),
                data@.len() <= size,
                err is None ==> self.chain_read(s0, c0, size as nat, k) == (cluster, data@, ended),
                ok == (old(dev).reads_ok() && self.chain_ok(s0, c0, size as nat)),
                ok ==> self.chain_read(s0, c0, size as nat, n).1.len() == size
                    && (forall|j: nat| j < n ==> #[trigger] self.chain_step_ok(s0, c0, size as nat, j)),
                ok ==> err is None,
            decreases (size - data@.len()) * 2 + (if err is None && !ended { 1int } else { 0int }),
        {
            proof {
                if ok {
                    if k >= n {
                        lemma_chain_stable(*self, s0, c0, size as nat, n, k);
                    }
                    assert(k < n);
                    assert(self.chain_step_ok(s0, c0, size as nat, k));
                }
            }
            if cluster < 2 {
                err = Some("corrupt cluster chain");
            } else {
                let first = self.cluster_to_sector(cluster);
                let ghost d0 = data@;
                let ghost cb = self.cluster_bytes(s0, cluster);
                let ghost want = size - d0.len();
                let mut j: u64 = 0;
                while j < self.sectors_per_cluster && (data.len() as u64) < size && err.is_none()
                    invariant
                        self.wf(),
                        dev.wf(),
                        dev.sectors() == s0,
                        first == self.cluster_lba(cluster),
                        first + self.sectors_per_cluster <= 0x300_0000_0000,
                        cb == self.cluster_bytes(s0, cluster),
                        cb.len() == self.sectors_per_cluster * 512,
                        want == size - d0.len(),
                        want > 0,
                        data@.len() <= size,
                        data@.len() >= d0.len(),
                        j <= self.sectors_per_cluster,
                        err is None ==> data@ == d0 + cb.take(if j * 512 < want { j * 512 } else { want }),
                        err is None ==> (data@.len() < size <==> j * 512 < want),
                        dev.reads_ok() == old(dev).reads_ok(),
                        ok ==> err is None && first + self.sectors_per_cluster <= s0.len() && old(dev).reads_ok(),
                    decreases self.sectors_per_cluster - j,
                {
                    match dev.read_sector(first + j, &mut sector) {
                        Ok(()) => {
                            let remaining = size - data.len() as u64;
                            let n: usize = if remaining < 512 { remaining as usize } else { 512 };
                            let ghost before = data@;
                            push_prefix(&mut data, &sector, n);
                            proof {
                                let lo = j * 512;
                                assert(lo < want);
                                assert(data@ =~= d0 + cb.take(lo + n)) by {
                                    assert forall|t: int| 0 <= t < n implies cb[lo + t] == sector@[t] by {
                                        assert((lo + t) / 512 == j && (lo + t) % 512 == t) by (nonlinear_arith)
                                            requires lo == j * 512, 0 <= t < 512;
                                    }
                                    assert(before == d0 + cb.take(lo));
                                    assert(cb.take(lo + n) =~= cb.take(lo) + sector@.take(n as int));
                                }
                                assert((j + 1) * 512 == lo + 512);
                            }
                        },
                        Err(e) => {
                            err = Some(e);
                        },
                    }
                    j = j + 1;
                }
                proof {
                    if err is None {
                        let m = if want < cb.len() { want } else { cb.len() as int };
                        if j * 512 < want {
                            assert(j == self.sectors_per_cluster);
                        }
                        assert(data@ == d0 + cb.take(m));
                        assert(m >= 1);
                        assert(data@.len() > d0.len());
                    }
                }
                if err.is_none() {
                    match self.next_cluster(dev, cluster) {
                        Ok(Some(next)) => {
                            cluster = next;
                        },
                        Ok(None) => {
                            ended = true;
                        },
                        Err(e) => {
                            err = Some(e);
                        },
                    }
                    proof {
                        k = k + 1;
                    }
                }
            }
        }
        proof {
            if ok && data@.len() < size {
                assert(ended);
                lemma_chain_stable(*self, s0, c0, size as nat, k, n + k);
                if n <= k {
                    lemma_chain_stable(*self, s0, c0, size as nat, n, k);
                } else {
                    lemma_chain_stable(*self, s0, c0, size as nat, k, n);
                }
            }
        }
        match err {
            Some(e) => Err(e),
            None => {
                if (data.len() as u64) < size {
                    Err("cluster chain ended early")
                } else {
                    assert(self.chain_read(s0, c0, size as nat, k).1 == data@);
                    Ok(data)
                }
            },
        }
    }

    /// `data` is what reading the root file named `nm` gives on disk `s`:
    /// on FAT12/16, the first `size` bytes along the cluster chain of the
    /// first used root entry with that 8.3 name.
    pub open spec fn read_result(&self, s: Seq<Seq<u8>>, nm: Seq<u8>, data: Seq<u8>) -> bool {
        &&& encode83(nm) is Some
        &&& self.kind != FatKind::Fat32 ==> {
            let vis = self.root_visible(s);
            let w = encode83(nm)->0;
            exists|i: int, k: nat| #[trigger] first_match(vis, w, i)
                && data.len() == entry_size(vis[i])
                && #[trigger] self.chain_read(s, entry_cluster(vis[i]), entry_size(vis[i]) as nat, k).1 == data
        }
    }

    /// What reading the root file named `nm` from disk `s` may give, when
    /// the device answers every read of an existing sector exactly if `ok`:
    /// a name that is not 8.3 is refused; what comes back is the file's
    /// bytes; and on a FAT12/16 volume that lies on the disk, a name no
    /// root entry has is "file not found in root directory", while a file
    /// whose chain can be read whole is read.
    pub open spec fn read_outcome(&self, s: Seq<Seq<u8>>, ok: bool, nm: Seq<u8>, r: Result<Vec<u8>, &'static str>) -> bool {
        let vis = self.root_visible(s);
        let w = encode83(nm)->0;
        let readable = ok && self.kind != FatKind::Fat32 && self.data_start <= s.len() && encode83(nm) is Some;
        &&& encode83(nm) is None ==> r == Err::<Vec<u8>, &'static str>("not a valid 8.3 name")
        &&& r is Ok ==> self.read_result(s, nm, r->Ok_0@)
        &&& readable && no_match(vis, w) ==> r == Err::<Vec<u8>, &'static str>("file not found in root directory")
        &&& readable && (exists|i: int| #[trigger] first_match(vis, w, i)
                && self.chain_ok(s, entry_cluster(vis[i]), entry_size(vis[i]) as nat)) ==> r is Ok
    }

    /// Read a root-directory file by 8.3 name (e.g. "BATANG.TXT").
    pub fn read_file<D: BlockDevice>(&self, dev: &mut D, name: &str) -> (r: Result<Vec<u8>, &'static str>)
        requires
            self.wf(),
            old(dev).wf(),
        ensures
            final(dev).wf(),
            final(dev).sectors() == old(dev).sectors(),
            final(dev).reads_ok() == old(dev).reads_ok(),
            self.read_outcome(old(dev).sectors(), old(dev).reads_ok(), name.spec_bytes(), r),
    {
        let wanted = match encode_83(name) {
            Ok(w) => w,
            Err(e) => {
                return Err(e);
            },
        };
        let mut names: Vec<String> = Vec::new();
        let found = match self.walk_root(dev, Some(wanted), &mut names) {
            Ok(f) => f,
            Err(e) => {
                return Err(e);
            },
        };
        match found {
            None => Err("file not found in root directory"),
            Some((cluster, size)) => self.read_chain(dev, cluster, size),
        }
    }
}

/// The disk after writing `value` as the 12-bit entry of cluster `c` in the
/// FAT copy that starts at sector `base`.
pub open spec fn fat12_patch(s: Seq<Seq<u8>>, base: int, c: u32, value: u32) -> Seq<Seq<u8>> {
    let off = c + c / 2;
    let sec = base + off / 512;
    let idx = off % 512;
    let straddle = idx + 1 >= 512;
    let b0 = s[sec][idx];
    let b1 = if straddle { s[sec + 1][0] } else { s[sec][idx + 1] };
    let nb0: u8 = if c & 1 == 0 { (value & 0xFF) as u8 } else { (b0 & 0x0F) | (((value << 4u32) & 0xF0) as u8) };
    let nb1: u8 = if c & 1 == 0 { (b1 & 0xF0) | (((value >> 8u32) & 0x0F) as u8) } else { ((value >> 4u32) & 0xFF) as u8 };
    if straddle {
        s.update(sec, s[sec].update(idx, nb0)).update(sec + 1, s[sec + 1].update(0, nb1))
    } else {
        s.update(sec, s[sec].update(idx, nb0).update(idx + 1, nb1))
    }
}

/// The 32-byte directory entry for `wanted`, first cluster `fc` (low word
/// only) and `size`, archive attribute set.
pub open spec fn dir_entry_bytes(wanted: Seq<u8>, fc: u32, size: u32) -> Seq<u8> {
    Seq::new(32, |t: int|
        if t < 11 { wanted[t] }
        else if t == 11 { 0x20u8 }
        else if t == 26 { (fc & 0xFF) as u8 }
        else if t == 27 { ((fc >> 8u32) & 0xFF) as u8 }
        else if t == 28 { (size & 0xFF) as u8 }
        else if t == 29 { ((size >> 8u32) & 0xFF) as u8 }
        else if t == 30 { ((size >> 16u32) & 0xFF) as u8 }
        else if t == 31 { ((size >> 24u32) & 0xFF) as u8 }
        else { 0u8 })
}

/// A raw entry that `put_dir_entry` may take: unused, deleted, or already
/// named `wanted`.
pub open spec fn slot_usable(e: Seq<u8>, wanted: Seq<u8>) -> bool {
    e[0] == 0u8 || e[0] == 0xE5u8 || names_match(e, wanted)
}

/// Sector `sec` with entry `e` replaced by `ent`.
pub open spec fn with_entry(sec: Seq<u8>, e: int, ent: Seq<u8>) -> Seq<u8> {
    Seq::new(512, |t: int| if e * 32 <= t < e * 32 + 32 { ent[t - e * 32] } else { sec[t] })
}

impl FatVolume {
    /// The disk after `fat12_set(cluster, value)`: both FAT copies patched,
    /// the second one starting `fat_size` sectors after the first.
    pub open spec fn fat12_set_spec(&self, s: Seq<Seq<u8>>, cluster: u32, value: u32) -> Seq<Seq<u8>> {
        fat12_patch(fat12_patch(s, self.fat_start as int, cluster, value), self.fat_start + self.fat_size, cluster, value)
    }

    /// Read one FAT12 entry.
    fn fat12_get<D: BlockDevice>(&self, dev: &mut D, cluster: u32) -> (r: Result<u32, &'static str>)
        requires
            self.wf(),
            old(dev).wf(),
        ensures
            final(dev).wf(),
            final(dev).sectors() == old(dev).sectors(),
            r is Ok ==> r->Ok_0 == self.fat12_entry(old(dev).sectors(), cluster),
            final(dev).reads_ok() == old(dev).reads_ok(),
            old(dev).reads_ok() && self.fat12_readable(old(dev).sectors(), cluster) ==> r is Ok,
    {
        let offset = cluster as u64 + cluster as u64 / 2;
        let sec = self.fat_start + offset / 512;
        let idx = (offset % 512) as usize;
        let mut s0 = [0u8; SECTOR_SIZE];
        match dev.read_sector(sec, &mut s0) {
            Ok(()) => {},
            Err(e) => {
                return Err(e);
            },
        }
        let lo = s0[idx] as u32;
        let hi = if idx + 1 < SECTOR_SIZE {
            s0[idx + 1] as u32
        } else {
            let mut s1 = [0u8; SECTOR_SIZE];
            match dev.read_sector(sec + 1, &mut s1) {
                Ok(()) => {},
                Err(e) => {
                    return Err(e);
                },
            }
            s1[0] as u32
        };
        let raw = lo | (hi << 8);
        Ok(if cluster & 1 == 0 { raw & 0xFFF } else { raw >> 4 })
    }

    /// Patch one FAT copy starting at `base` (see [`fat12_patch`]).
    fn fat12_patch_copy<D: BlockDevice>(dev: &mut D, base: u64, cluster: u32, value: u32) -> (r: Result<(), &'static str>)
        requires
            old(dev).wf(),
            base <= 0x300_0000_0000,
        ensures
            final(dev).wf(),
            r is Ok ==> final(dev).sectors() == fat12_patch(old(dev).sectors(), base as int, cluster, value),
    {
        let offset = cluster as u64 + cluster as u64 / 2;
        let sec = base + offset / 512;
        let idx = (offset % 512) as usize;
        let mut s0 = [0u8; SECTOR_SIZE];
        match dev.read_sector(sec, &mut s0) {
            Ok(()) => {},
            Err(e) => {
                return Err(e);
            },
        }
        let mut s1 = [0u8; SECTOR_SIZE];
        let straddle = idx + 1 >= SECTOR_SIZE;
        if straddle {
            match dev.read_sector(sec + 1, &mut s1) {
                Ok(()) => {},
                Err(e) => {
                    return Err(e);
                },
            }
        }
        let b0 = s0[idx];
        let b1 = if straddle { s1[0] } else { s0[idx + 1] };
        let (nb0, nb1): (u8, u8) = if cluster & 1 == 0 {
            ((value & 0xFF) as u8, (b1 & 0xF0) | ((value >> 8) & 0x0F) as u8)
        } else {
            ((b0 & 0x0F) | ((value << 4) & 0xF0) as u8, ((value >> 4) & 0xFF) as u8)
        };
        let ghost s = dev.sectors();
        s0[idx] = nb0;
        if straddle {
            s1[0] = nb1;
            match dev.write_sector(sec, &s0) {
                Ok(()) => {},
                Err(e) => {
                    return Err(e);
                },
            }
            match dev.write_sector(sec + 1, &s1) {
                Ok(()) => {},
                Err(e) => {
                    return Err(e);
                },
            }
            proof {
                assert(s0@ =~= s[sec as int].update(idx as int, nb0));
                assert(s1@ =~= s[sec + 1].update(0, nb1));
            }
        } else {
            s0[idx + 1] = nb1;
            match dev.write_sector(sec, &s0) {
                Ok(()) => {},
                Err(e) => {
                    return Err(e);
                },
            }
            proof {
                assert(s0@ =~= s[sec as int].update(idx as int, nb0).update(idx + 1, nb1));
            }
        }
        Ok(())
    }

    /// Write one FAT12 entry into both FAT copies.
    fn fat12_set<D: BlockDevice>(&self, dev: &mut D, cluster: u32, value: u32) -> (r: Result<(), &'static str>)
        requires
            self.wf(),
            old(dev).wf(),
        ensures
            final(dev).wf(),
            r is Ok ==> final(dev).sectors() == self.fat12_set_spec(old(dev).sectors(), cluster, value),
    {
        match Self::fat12_patch_copy(dev, self.fat_start, cluster, value) {
            Ok(()) => {},
            Err(e) => {
                return Err(e);
            },
        }
        Self::fat12_patch_copy(dev, self.fat_start + self.fat_size, cluster, value)
    }

    /// The index into the root's raw entries of the first slot that
    /// `put_dir_entry` takes for `wanted`, if there is one.
    pub open spec fn first_slot(&self, s: Seq<Seq<u8>>, wanted: Seq<u8>, i: int) -> bool {
        let raw = self.root_raw(s);
        &&& 0 <= i < raw.len()
        &&& slot_usable(raw[i], wanted)
        &&& forall|j: int| 0 <= j < i ==> !slot_usable(#[trigger] raw[j], wanted)
    }

    /// Create or overwrite the root-directory entry for `name`: the first
    /// unused, deleted or same-named slot gets the name, the archive
    /// attribute, the first cluster's low word and the size.
    fn put_dir_entry<D: BlockDevice>(&self, dev: &mut D, name: &str, first_cluster: u32, size: u32) -> (r: Result<(), &'static str>)
        requires
            self.wf(),
            old(dev).wf(),
        ensures
            final(dev).wf(),
            r is Err ==> true,
            encode83(name.spec_bytes()) is None ==> r is Err && final(dev).sectors() == old(dev).sectors(),
            r is Ok ==> {
                let s = old(dev).sectors();
                let w = encode83(name.spec_bytes())->0;
                &&& encode83(name.spec_bytes()) is Some
                &&& exists|i: int| #[trigger] self.first_slot(s, w, i)
                    && final(dev).sectors() == s.update(self.root_dir_start + i / 16,
                        with_entry(s[self.root_dir_start + i / 16], i % 16, dir_entry_bytes(w, first_cluster, size)))
            },
    {
        let wanted = match encode_83(name) {
            Ok(w) => w,
            Err(e) => {
                return Err(e);
            },
        };
        let ghost s = dev.sectors();
        let ghost w = wanted@;
        let ghost rr = self.root_raw(s);
        let mut out: Option<Result<(), &'static str>> = None;
        let mut k: u64 = 0;
        while k < self.root_dir_sectors && out.is_none()
            invariant
                self.wf(),
                dev.wf(),
                wanted@ == w,
                w == encode83(name.spec_bytes())->0,
                encode83(name.spec_bytes()) is Some,
                rr == self.root_raw(s),
                k <= self.root_dir_sectors,
                out is None ==> dev.sectors() == s && forall|j: int| 0 <= j < 16 * k ==> !slot_usable(#[trigger] rr[j], w),
                out is Some && out->0 is Ok ==> exists|i: int| #[trigger] self.first_slot(s, w, i)
                    && dev.sectors() == s.update(self.root_dir_start + i / 16,
                        with_entry(s[self.root_dir_start + i / 16], i % 16, dir_entry_bytes(w, first_cluster, size))),
            decreases self.root_dir_sectors - k,
        {
            let lba = self.root_dir_start + k;
            let mut sector = [0u8; SECTOR_SIZE];
            match dev.read_sector(lba, &mut sector) {
                Ok(()) => {
                    let mut e: usize = 0;
                    while e < 16 && out.is_none()
                        invariant
                            self.wf(),
                            dev.wf(),
                            wanted@ == w,
                            rr == self.root_raw(s),
                            k < self.root_dir_sectors,
                            lba == self.root_dir_start + k,
                            lba < s.len(),
                            out is None ==> sector@ == s[lba as int],
                            e <= 16,
                            out is None ==> dev.sectors() == s && forall|j: int| 0 <= j < 16 * k + e ==> !slot_usable(#[trigger] rr[j], w),
                            out is Some && out->0 is Ok ==> exists|i: int| #[trigger] self.first_slot(s, w, i)
                                && dev.sectors() == s.update(self.root_dir_start + i / 16,
                                    with_entry(s[self.root_dir_start + i / 16], i % 16, dir_entry_bytes(w, first_cluster, size))),
                        decreases 16 - e,
                    {
                        let ent = entry_at(&sector, e);
                        let ghost i = 16 * k + e;
                        proof {
                            assert(i / 16 == k && i % 16 == e) by (nonlinear_arith)
                                requires i == 16 * k + e, 0 <= e < 16;
                            assert(rr[i] == ent@);
                        }
                        if ent[0] == 0 || ent[0] == 0xE5 || name_is(&ent, &wanted) {
                            let off = e * 32;
                            let mut t: usize = 0;
                            while t < 32
                                invariant
                                    off == e * 32,
                                    e < 16,
                                    t <= 32,
                                    forall|q: int| 0 <= q < 512 && !(off <= q < off + t) ==> sector@[q] == s[lba as int][q],
                                    forall|q: int| off <= q < off + t ==> sector@[q] == 0u8,
                                decreases 32 - t,
                            {
                                sector[off + t] = 0;
                                t = t + 1;
                            }
                            let mut t: usize = 0;
                            while t < 11
                                invariant
                                    off == e * 32,
                                    e < 16,
                                    t <= 11,
                                    wanted@ == w,
                                    forall|q: int| 0 <= q < 512 && !(off <= q < off + 32) ==> sector@[q] == s[lba as int][q],
                                    forall|q: int| off <= q < off + t ==> sector@[q] == w[q - off],
                                    forall|q: int| off + t <= q < off + 32 ==> sector@[q] == 0u8,
                                decreases 11 - t,
                            {
                                sector[off + t] = wanted[t];
                                t = t + 1;
                            }
                            sector[off + 11] = 0x20;
                            sector[off + 26] = (first_cluster & 0xFF) as u8;
                            sector[off + 27] = ((first_cluster >> 8) & 0xFF) as u8;
                            sector[off + 28] = (size & 0xFF) as u8;
                            sector[off + 29] = ((size >> 8) & 0xFF) as u8;
                            sector[off + 30] = ((size >> 16) & 0xFF) as u8;
                            sector[off + 31] = ((size >> 24) & 0xFF) as u8;
                            proof {
                                let want = with_entry(s[lba as int], e as int, dir_entry_bytes(w, first_cluster, size));
                                assert(sector@ =~= want);
                                assert(self.first_slot(s, w, i));
                            }
                            match dev.write_sector(lba, &sector) {
                                Ok(()) => {
                                    out = Some(Ok(()));
                                },
                                Err(err) => {
                                    out = Some(Err(err));
                                },
                            }
                        }
                        e = e + 1;
                    }
                },
                Err(err) => {
                    out = Some(Err(err));
                },
            }
            k = k + 1;
        }
        match out {
            Some(r) => r,
            None => Err("root directory is full"),
        }
    }
}

/// The first 62 bytes of the boot record written by `format_fat12`
/// (bytes 19 and 20, the total sector count, are filled in separately).
pub open spec fn boot_head() -> Seq<u8> {
    seq![
        0xEBu8, 0x3C, 0x90, 0x42, 0x5A, 0x44, 0x41, 0x48, 0x41, 0x4E, 0x20, 0x00, 0x02, 0x01, 0x01, 0x00,
        0x02, 0x00, 0x02, 0x00, 0x00, 0xF8, 0x0C, 0x00, 0x20, 0x00, 0x02, 0x00, 0x00, 0x00, 0x00, 0x00,
        0x00, 0x00, 0x00, 0x00, 0x00, 0x00, 0x29, 0x00, 0x00, 0x00, 0x00, 0x42, 0x5A, 0x20, 0x52, 0x41,
        0x4D, 0x44, 0x49, 0x53, 0x4B, 0x20, 0x46, 0x41, 0x54, 0x31, 0x32, 0x20, 0x20, 0x20
    ]
}

/// The boot record of a fresh FAT12 volume of `total` sectors: 512-byte
/// sectors, 1 sector per cluster, 1 reserved sector, 2 FATs of 12 sectors,
/// 512 root entries, media 0xF8, label "BZ RAMDISK", signature 55 AA.
pub open spec fn fat12_boot_record(total: u64) -> Seq<u8> {
    Seq::new(512, |i: int|
        if i == 19 { (total & 0xFF) as u8 }
        else if i == 20 { ((total >> 8u64) & 0xFF) as u8 }
        else if i < 62 { boot_head()[i] }
        else if i == 510 { 0x55u8 }
        else if i == 511 { 0xAAu8 }
        else { 0u8 })
}

/// The first sector of each fresh FAT: entries 0 and 1 reserved (F8 FF FF).
pub open spec fn fat12_first_sector() -> Seq<u8> {
    Seq::new(512, |t: int| if t == 0 { 0xF8u8 } else if t < 3 { 0xFFu8 } else { 0u8 })
}

/// The disk after formatting: boot record, zeroed FATs (with their first
/// entries reserved) and root directory; the rest unchanged.
pub open spec fn formatted(s: Seq<Seq<u8>>) -> Seq<Seq<u8>> {
    Seq::new(s.len(), |i: int|
        if i == 0 { fat12_boot_record(s.len() as u64) }
        else if i == 1 || i == 13 { fat12_first_sector() }
        else if i < 57 { Seq::new(512, |t: int| 0u8) }
        else { s[i] })
}

/// Law: a freshly formatted disk is found by `mount`: sector 0 carries the
/// boot signature, no partition table entry is used, and the boot record at
/// sector 0 describes a valid FAT volume.
pub proof fn lemma_formatted_mounts(s: Seq<Seq<u8>>)
    requires
        64 <= s.len() <= 0xFFFF,
    ensures
        formatted(s)[0][510] == 0x55 && formatted(s)[0][511] == 0xAA,
        mount_candidates(formatted(s)[0]) == seq![0u64],
        valid_vbr_at(formatted(s), 0),
{
    let t = s.len() as u64;
    let b = formatted(s)[0];
    assert(b == fat12_boot_record(t));
    let h = boot_head();
    assert(h[0] == 0xEB && h[11] == 0 && h[12] == 2 && h[13] == 1 && h[14] == 1 && h[15] == 0 && h[16] == 2);
    assert(h[17] == 0 && h[18] == 2 && h[22] == 0x0C && h[23] == 0);
    assert(b[19] + 256 * b[20] == t) by {
        let lo = (t & 0xFF) as u8;
        let hi = ((t >> 8u64) & 0xFF) as u8;
        assert(b[19] == lo && b[20] == hi);
        assert(lo as u64 + 256 * (hi as u64) == t) by (bit_vector)
            requires t <= 0xFFFF, lo == (t & 0xFF) as u8, hi == ((t >> 8u64) & 0xFF) as u8;
    }
    assert(le16(b, 11) == 512 && le16(b, 14) == 1 && le16(b, 17) == 512 && le16(b, 22) == 12);
    assert(le16(b, 19) == t);
    assert(pow2_byte(b[13] as int));
    assert(b[0x1C2int] == 0 && b[0x1D2int] == 0 && b[0x1E2int] == 0 && b[0x1F2int] == 0);
    assert(mbr_slots(b, 4) =~= Seq::<u64>::empty()) by {
        assert(mbr_slots(b, 0) == Seq::<u64>::empty());
        assert(mbr_slots(b, 1) == Seq::<u64>::empty());
        assert(mbr_slots(b, 2) == Seq::<u64>::empty());
        assert(mbr_slots(b, 3) == Seq::<u64>::empty());
    }
    assert(mount_candidates(b) =~= seq![0u64]);
    assert(vbr_fault(b) is None);
}

/// Format a device as an empty FAT12 volume (superfloppy, boot record at
/// LBA 0). Devices of fewer than 64 or more than 65535 sectors are refused.
pub fn format_fat12<D: BlockDevice>(dev: &mut D) -> (r: Result<(), &'static str>)
    requires
        old(dev).wf(),
    ensures
        final(dev).wf(),
        old(dev).sectors().len() < 64 || old(dev).sectors().len() > 0xFFFF ==>
            r == Err::<(), &'static str>("ramdisk size unsuitable for FAT12") && final(dev).sectors() == old(dev).sectors(),
        r is Ok ==> 64 <= old(dev).sectors().len() <= 0xFFFF && final(dev).sectors() == formatted(old(dev).sectors()),
{
    let total = dev.sector_count();
    if total < 64 || total > 0xFFFF {
        return Err("ramdisk size unsuitable for FAT12");
    }
    let ghost s = dev.sectors();
    let mut vbr: [u8; 512] = [0u8; 512];
    let head: [u8; 62] = [
        0xEB, 0x3C, 0x90, 0x42, 0x5A, 0x44, 0x41, 0x48, 0x41, 0x4E, 0x20, 0x00, 0x02, 0x01, 0x01, 0x00,
        0x02, 0x00, 0x02, 0x00, 0x00, 0xF8, 0x0C, 0x00, 0x20, 0x00, 0x02, 0x00, 0x00, 0x00, 0x00, 0x00,
        0x00, 0x00, 0x00, 0x00, 0x00, 0x00, 0x29, 0x00, 0x00, 0x00, 0x00, 0x42, 0x5A, 0x20, 0x52, 0x41,
        0x4D, 0x44, 0x49, 0x53, 0x4B, 0x20, 0x46, 0x41, 0x54, 0x31, 0x32, 0x20, 0x20, 0x20,
    ];
    assert(head@ =~= boot_head());
    let mut i: usize = 0;
    while i < 62
        invariant
            i <= 62,
            head@ == boot_head(),
            forall|k: int| 0 <= k < i ==> vbr@[k] == head@[k],
            forall|k: int| i <= k < 512 ==> vbr@[k] == 0u8,
        decreases 62 - i,
    {
        vbr[i] = head[i];
        i = i + 1;
    }
    vbr[19] = (total & 0xFF) as u8;
    vbr[20] = ((total >> 8) & 0xFF) as u8;
    vbr[510] = 0x55;
    vbr[511] = 0xAA;
    assert(vbr@ =~= fat12_boot_record(total));
    match dev.write_sector(0, &vbr) {
        Ok(()) => {},
        Err(e) => {
            return Err(e);
        },
    }
    let zero = [0u8; SECTOR_SIZE];
    let mut lba: u64 = 1;
    while lba < 57
        invariant
            1 <= lba <= 57,
            dev.wf(),
            s == old(dev).sectors(),
            s.len() == total,
            64 <= total <= 0xFFFF,
            zero@ == Seq::new(512, |t: int| 0u8),
            dev.sectors() == Seq::new(s.len(), |k: int|
                if k == 0 { fat12_boot_record(total) } else if k < lba { Seq::new(512, |t: int| 0u8) } else { s[k] }),
        decreases 57 - lba,
    {
        let ghost before = dev.sectors();
        match dev.write_sector(lba, &zero) {
            Ok(()) => {},
            Err(e) => {
                return Err(e);
            },
        }
        assert(dev.sectors() =~= Seq::new(s.len(), |k: int|
            if k == 0 { fat12_boot_record(total) } else if k < lba + 1 { Seq::new(512, |t: int| 0u8) } else { s[k] }));
        lba = lba + 1;
    }
    let mut fat0 = [0u8; SECTOR_SIZE];
    fat0[0] = 0xF8;
    fat0[1] = 0xFF;
    fat0[2] = 0xFF;
    assert(fat0@ =~= fat12_first_sector());
    match dev.write_sector(1, &fat0) {
        Ok(()) => {},
        Err(e) => {
            return Err(e);
        },
    }
    match dev.write_sector(13, &fat0) {
        Ok(()) => {},
        Err(e) => {
            return Err(e);
        },
    }
    assert(dev.sectors() =~= formatted(s));
    Ok(())
}

/// The 512 bytes of a file's data starting at `off`, zero-padded.
pub open spec fn data_sector(data: Seq<u8>, off: int) -> Seq<u8> {
    Seq::new(512, |t: int| if off + t < data.len() { data[off + t] } else { 0u8 })
}

/// Clusters a file of `len` bytes occupies (at least one).
pub open spec fn clusters_needed(len: int, cluster_bytes: int) -> int {
    if len == 0 { 1 } else { (len + cluster_bytes - 1) / cluster_bytes }
}

impl FatVolume {
    /// The sectors holding `cluster`'s FAT12 entry exist on a disk of
    /// `s.len()` sectors.
    pub open spec fn fat12_readable(&self, s: Seq<Seq<u8>>, cluster: u32) -> bool {
        let off = cluster + cluster / 2;
        self.fat_start + off / 512 + (if off % 512 == 511 { 1int } else { 0int }) < s.len()
    }

    /// One past the last cluster `write_file` considers on a disk of `n`
    /// sectors: the clusters that fit after the data start.
    pub open spec fn scan_end(&self, n: int) -> u32 {
        (((n - self.data_start) / self.sectors_per_cluster as int) as u32).wrapping_add(2)
    }

    /// On a FAT12 disk of `s`, whose FAT can be read for every cluster that
    /// fits, fewer clusters are free than a file of `len` bytes needs.
    pub open spec fn lacks_free_clusters(&self, s: Seq<Seq<u8>>, len: int) -> bool {
        let end = self.scan_end(s.len() as int);
        &&& self.kind == FatKind::Fat12
        &&& s.len() >= self.data_start
        &&& end >= 2
        &&& forall|c: u32| 2 <= c < end ==> #[trigger] self.fat12_readable(s, c)
        &&& self.free_scan(s, (end - 2) as nat).len() < clusters_needed(len, self.sectors_per_cluster * 512)
    }

    /// Free clusters only accumulate as the scan goes on.
    pub proof fn lemma_free_scan_grows(&self, s: Seq<Seq<u8>>, a: nat, b: nat)
        requires
            a <= b,
        ensures
            self.free_scan(s, a).len() <= self.free_scan(s, b).len(),
        decreases b - a,
    {
        if a < b {
            self.lemma_free_scan_grows(s, a, (b - 1) as nat);
        }
    }
}

impl FatVolume {
    /// The free clusters (FAT12 entry 0) among `2 .. 2 + n`, in order.
    pub open spec fn free_scan(&self, s: Seq<Seq<u8>>, n: nat) -> Seq<u32>
        decreases n,
    {
        if n == 0 {
            Seq::empty()
        } else {
            let p = self.free_scan(s, (n - 1) as nat);
            let c = (2 + n - 1) as u32;
            if self.fat12_entry(s, c) == 0 { p.push(c) } else { p }
        }
    }

    /// The disk after writing the first `n` data sectors of `data` into the
    /// clusters of `chain`, cluster by cluster.
    pub open spec fn data_written(&self, s: Seq<Seq<u8>>, chain: Seq<u32>, data: Seq<u8>, n: nat) -> Seq<Seq<u8>>
        decreases n,
    {
        if n == 0 {
            s
        } else {
            let p = self.data_written(s, chain, data, (n - 1) as nat);
            let spc = self.sectors_per_cluster as int;
            let m = n - 1;
            p.update(self.cluster_lba(chain[m / spc]) + m % spc, data_sector(data, m * 512))
        }
    }

    /// The disk after linking the first `n` clusters of `chain` in the FAT:
    /// each to the next, the last to end-of-chain (0xFFF).
    pub open spec fn linked(&self, s: Seq<Seq<u8>>, chain: Seq<u32>, n: nat) -> Seq<Seq<u8>>
        decreases n,
    {
        if n == 0 {
            s
        } else {
            let p = self.linked(s, chain, (n - 1) as nat);
            let i = n - 1;
            self.fat12_set_spec(p, chain[i], if i + 1 < chain.len() { chain[i + 1] } else { 0xFFFu32 })
        }
    }

    /// `fin` is the disk `s` after writing `data` as the root file named
    /// `nm`: `chain` is the first `m` clusters' free ones, just enough for the
    /// data; the data went into them; they were linked in both FATs; and the
    /// directory entry took root slot `i`.
    pub open spec fn file_written(&self, s: Seq<Seq<u8>>, nm: Seq<u8>, data: Seq<u8>, fin: Seq<Seq<u8>>,
        chain: Seq<u32>, m: nat, i: int) -> bool
    {
        let spc = self.sectors_per_cluster as int;
        let w = encode83(nm)->0;
        let s2 = self.data_written(s, chain, data, (chain.len() * spc) as nat);
        let s3 = self.linked(s2, chain, chain.len());
        &&& self.free_scan(s, m) == chain
        &&& chain.len() == clusters_needed(data.len() as int, spc * 512)
        &&& forall|m2: nat| m2 < m ==> (#[trigger] self.free_scan(s, m2)).len() < chain.len()
        &&& self.first_slot(s3, w, i)
        &&& fin == s3.update(self.root_dir_start + i / 16,
            with_entry(s3[self.root_dir_start + i / 16], i % 16, dir_entry_bytes(w, chain[0], data.len() as u32)))
    }

    /// Create or overwrite a root-directory file with `data` (FAT12 volumes):
    /// allocate the first free clusters, write the data into them, link them
    /// in both FATs, then write the directory entry.
    pub fn write_file<D: BlockDevice>(&self, dev: &mut D, name: &str, data: &[u8]) -> (r: Result<(), &'static str>)
        requires
            self.wf(),
            old(dev).wf(),
            data@.len() < 0x1_0000_0000_0000,
        ensures
            final(dev).wf(),
            self.kind != FatKind::Fat12 ==> r == Err::<(), &'static str>("write only implemented for FAT12")
                && final(dev).sectors() == old(dev).sectors(),
            self.kind == FatKind::Fat12 && old(dev).sectors().len() < self.data_start ==>
                r == Err::<(), &'static str>("not enough free clusters") && final(dev).sectors() == old(dev).sectors(),
            old(dev).reads_ok() && self.lacks_free_clusters(old(dev).sectors(), data@.len() as int) ==>
                r == Err::<(), &'static str>("not enough free clusters") && final(dev).sectors() == old(dev).sectors(),
            r is Ok ==> self.kind == FatKind::Fat12 && encode83(name.spec_bytes()) is Some
                && exists|chain: Seq<u32>, m: nat, i: int|
                    #[trigger] self.file_written(old(dev).sectors(), name.spec_bytes(), data@, final(dev).sectors(), chain, m, i),
    {
        if self.kind != FatKind::Fat12 {
            return Err("write only implemented for FAT12");
        }
        let ghost s = dev.sectors();
        let spc = self.sectors_per_cluster;
        let cluster_bytes = spc * 512;
        let len = data.len() as u64;
        let needed = if len == 0 { 1 } else { (len + cluster_bytes - 1) / cluster_bytes };
        let count = dev.sector_count();
        if count < self.data_start {
            return Err("not enough free clusters");
        }
        let span = (count - self.data_start) / spc;
        let max_cluster = (span as u32).wrapping_add(2);
        assert(max_cluster == self.scan_end(s.len() as int));
        assert(needed == clusters_needed(data@.len() as int, self.sectors_per_cluster * 512));
        let ghost short = old(dev).reads_ok() && self.lacks_free_clusters(s, data@.len() as int);
        let mut chain: Vec<u32> = Vec::new();
        let mut c: u32 = 2;
        while (chain.len() as u64) < needed && c < max_cluster
            invariant
                short == (old(dev).reads_ok() && self.lacks_free_clusters(s, data@.len() as int)),
                max_cluster == self.scan_end(s.len() as int),
                needed == clusters_needed(data@.len() as int, self.sectors_per_cluster * 512),
                short ==> c <= max_cluster,
                dev.reads_ok() == old(dev).reads_ok(),
                self.data_start <= old(dev).sectors().len(),
                self.wf(),
                self.kind == FatKind::Fat12,
                dev.wf(),
                dev.sectors() == s,
                s == old(dev).sectors(),
                2 <= c,
                chain@ == self.free_scan(s, (c - 2) as nat),
                chain@.len() <= c - 2,
                chain@.len() <= needed,
                forall|m2: nat| m2 < c - 2 ==> (#[trigger] self.free_scan(s, m2)).len() < needed,
                forall|k: int| 0 <= k < chain@.len() ==> 2 <= #[trigger] chain@[k] < c,
            decreases max_cluster - c,
        {
            let ghost m = (c - 2) as nat;
            match self.fat12_get(dev, c) {
                Ok(v) => {
                    if v == 0 {
                        chain.push(c);
                    }
                },
                Err(e) => {
                    return Err(e);
                },
            }
            proof {
                assert(self.free_scan(s, (m + 1) as nat) == chain@);
                assert forall|m2: nat| m2 < m + 1 implies (#[trigger] self.free_scan(s, m2)).len() < needed by {
                    if m2 < m {
                    } else {
                        assert(m2 == m);
                    }
                }
            }
            c = c + 1;
        }
        proof {
            if short {
                self.lemma_free_scan_grows(s, (c - 2) as nat, (max_cluster - 2) as nat);
            }
        }
        if (chain.len() as u64) < needed {
            return Err("not enough free clusters");
        }
        assert(!short);
        let ghost m = (c - 2) as nat;
        let ghost ch = chain@;
        let n_chain = chain.len();
        assert(needed >= 1) by (nonlinear_arith)
            requires len == 0 ==> needed == 1, len > 0 ==> needed as int == (len + cluster_bytes - 1) as int / cluster_bytes as int, cluster_bytes >= 512;
        assert(ch.len() == needed);
        assert(n_chain * spc <= 0x1_0000_0000 * 128) by (nonlinear_arith)
            requires n_chain <= 0x1_0000_0000, spc <= 128;
        // Write data into the cluster chain.
        let mut i: usize = 0;
        while i < n_chain
            invariant
                self.data_start <= old(dev).sectors().len(),
                self.wf(),
                dev.wf(),
                chain@ == ch,
                n_chain == ch.len(),
                self.kind == FatKind::Fat12,
                len == data@.len(),
                data@.len() <= usize::MAX,
                1 <= spc <= 128,
                spc == self.sectors_per_cluster,
                forall|k: int| 0 <= k < ch.len() ==> 2 <= #[trigger] ch[k],
                i <= n_chain,
                n_chain <= 0x1_0000_0000,
                data@.len() < 0x1_0000_0000_0000,
                !(old(dev).reads_ok() && self.lacks_free_clusters(old(dev).sectors(), data@.len() as int)),
                dev.sectors() == self.data_written(s, ch, data@, (i * spc) as nat),
            decreases n_chain - i,
        {
            let cl = chain[i];
            let first = self.cluster_to_sector(cl);
            let mut j: u64 = 0;
            while j < spc
                invariant
                    !(old(dev).reads_ok() && self.lacks_free_clusters(old(dev).sectors(), data@.len() as int)),
                    self.data_start <= old(dev).sectors().len(),
                    self.wf(),
                    dev.wf(),
                    chain@ == ch,
                    i < n_chain,
                    n_chain == ch.len(),
                    self.kind == FatKind::Fat12,
                    len == data@.len(),
                    data@.len() <= usize::MAX,
                    cl == ch[i as int],
                    first == self.cluster_lba(cl),
                    first + spc <= 0x300_0000_0000,
                    1 <= spc <= 128,
                    spc == self.sectors_per_cluster,
                    j <= spc,
                    n_chain <= 0x1_0000_0000,
                    data@.len() < 0x1_0000_0000_0000,
                    dev.sectors() == self.data_written(s, ch, data@, (i * spc + j) as nat),
                decreases spc - j,
            {
                let ghost n = (i * spc + j) as nat;
                assert(i * spc + j < 0x1_0000_0000 * 128 + 128) by (nonlinear_arith)
                    requires i < 0x1_0000_0000, spc <= 128, j < spc;
                let file_off: u64 = (i as u64 * spc + j) * 512;
                let mut sector = [0u8; SECTOR_SIZE];
                if file_off < len {
                    assert(file_off < data@.len());
                    let rest = len - file_off;
                    let l: u64 = if rest < 512 { rest } else { 512 };
                    let fo = file_off as usize;
                    let mut t: usize = 0;
                    while t < l as usize
                        invariant
                            self.data_start <= old(dev).sectors().len(),
                            t <= l <= 512,
                            fo == file_off,
                            fo + l <= data@.len(),
                            data@.len() <= usize::MAX,
                            forall|q: int| 0 <= q < t ==> sector@[q] == data@[fo + q],
                            forall|q: int| t <= q < 512 ==> sector@[q] == 0u8,
                        decreases l - t,
                    {
                        sector[t] = data[fo + t];
                        t = t + 1;
                    }
                }
                assert(sector@ =~= data_sector(data@, n as int * 512));
                proof {
                    assert((n as int) / (spc as int) == i && (n as int) % (spc as int) == j) by (nonlinear_arith)
                        requires n == i * spc + j, 0 <= j < spc;
                }
                match dev.write_sector(first + j, &sector) {
                    Ok(()) => {},
                    Err(e) => {
                        return Err(e);
                    },
                }
                j = j + 1;
            }
            assert(i * spc + spc == (i + 1) * spc) by (nonlinear_arith);
            i = i + 1;
        }
        let ghost s2 = dev.sectors();
        // Link the FAT chain (each entry -> next, last -> end of chain).
        let mut i: usize = 0;
        while i < n_chain
            invariant
                self.data_start <= old(dev).sectors().len(),
                self.wf(),
                dev.wf(),
                chain@ == ch,
                n_chain == ch.len(),
                self.kind == FatKind::Fat12,
                i <= n_chain,
                !(old(dev).reads_ok() && self.lacks_free_clusters(old(dev).sectors(), data@.len() as int)),
                dev.sectors() == self.linked(s2, ch, i as nat),
            decreases n_chain - i,
        {
            let value = if i + 1 < n_chain { chain[i + 1] } else { 0xFFF };
            match self.fat12_set(dev, chain[i], value) {
                Ok(()) => {},
                Err(e) => {
                    return Err(e);
                },
            }
            i = i + 1;
        }
        let ghost s3 = dev.sectors();
        // Write the directory entry (create or overwrite in the root dir).
        match self.put_dir_entry(dev, name, chain[0], data.len() as u32) {
            Ok(()) => {},
            Err(e) => {
                return Err(e);
            },
        }
        proof {
            let w = encode83(name.spec_bytes())->0;
            let i = choose|i: int| #[trigger] self.first_slot(s3, w, i)
                && dev.sectors() == s3.update(self.root_dir_start + i / 16,
                    with_entry(s3[self.root_dir_start + i / 16], i % 16, dir_entry_bytes(w, ch[0], data@.len() as u32)));
            assert(self.free_scan(s, m) == ch);
            assert(ch.len() == clusters_needed(data@.len() as int, spc * 512));
            assert(self.file_written(s, name.spec_bytes(), data@, dev.sectors(), ch, m, i));
        }
        Ok(())
    }
}

} // verus!
