//! Power management: what ACPI tables say about shutdown and reset (the
//! FADT's PM1 control blocks and reset register, and the `\_S5` sleep type
//! scanned from the DSDT's AML), and the port writes that power the machine
//! off or restart it, with QEMU/VirtualBox fallbacks. Reading physical
//! memory and writing the ports is the platform's job.

use vstd::prelude::*;
use crate::bytes::{le32, le64, u32_at, u64_at};

verus! {

/// The SLP_EN bit of a PM1 control register.
pub const SLP_EN: u16 = 0x2000;

/// The RSDT/XSDT entries: after the 36-byte header, `(length - 36) /
/// entry_size` addresses of `entry_size` bytes (4 for the RSDT, 8 for the
/// XSDT), as far as `sdt` holds them.
pub open spec fn sdt_entry(sdt: Seq<u8>, entry_size: int, i: int) -> int {
    if entry_size == 8 { le64(sdt, 36 + 8 * i) } else { le32(sdt, 36 + 4 * i) }
}

/// How many entries the table header announces.
pub open spec fn sdt_count(sdt: Seq<u8>, entry_size: int) -> int {
    let len = le32(sdt, 4);
    (if len > 36 { len - 36 } else { 0 }) / entry_size
}

/// The entry addresses of an RSDT (`entry_size` 4) or XSDT (8).
pub fn sdt_entries(sdt: &[u8], entry_size: usize) -> (r: Vec<u64>)
    requires
        entry_size == 4 || entry_size == 8,
        sdt@.len() >= 8,
        36 + entry_size * sdt_count(sdt@, entry_size as int) <= sdt@.len(),
    ensures
        r@.len() == sdt_count(sdt@, entry_size as int),
        forall|i: int| 0 <= i < r@.len() ==> r@[i] == sdt_entry(sdt@, entry_size as int, i),
{
    let _n = sdt.len();
    let len = u32_at(sdt, 4);
    let count = (if len > 36 { len - 36 } else { 0 }) / entry_size as u64;
    let mut r: Vec<u64> = Vec::new();
    let mut i: u64 = 0;
    while i < count
        invariant
            entry_size == 4 || entry_size == 8,
            count == sdt_count(sdt@, entry_size as int),
            36 + entry_size * count <= sdt@.len() <= usize::MAX,
            i <= count,
            r@.len() == i,
            forall|k: int| 0 <= k < i ==> r@[k] == sdt_entry(sdt@, entry_size as int, k),
        decreases count - i,
    {
        assert(entry_size * i + entry_size <= entry_size * count) by (nonlinear_arith)
            requires i < count, entry_size >= 0;
        let iu = i as usize;
        assert(36 + iu * entry_size + entry_size <= sdt@.len()) by (nonlinear_arith)
            requires entry_size * i + entry_size <= entry_size * count, 36 + entry_size * count <= sdt@.len(), iu == i;
        let off = 36 + iu * entry_size;
        proof {
            if entry_size == 8 { assert(off == 36 + 8 * i); } else { assert(off == 36 + 4 * i); }
        }
        let e = if entry_size == 8 { u64_at(sdt, off) } else { u32_at(sdt, off) };
        r.push(e);
        i = i + 1;
    }
    r
}

/// The first entry whose table signature is "FACP" (0 when none).
pub open spec fn fadt_of(entries: Seq<u64>, sigs: Seq<[u8; 4]>) -> u64
    decreases entries.len(),
{
    if entries.len() == 0 || sigs.len() == 0 {
        0
    } else if sigs[0]@ == seq![0x46u8, 0x41u8, 0x43u8, 0x50u8] {
        entries[0]
    } else {
        fadt_of(entries.drop_first(), sigs.drop_first())
    }
}

/// Pick the FADT among the tables (`sigs[i]` is the signature of the table
/// at `entries[i]`).
pub fn pick_fadt(entries: &Vec<u64>, sigs: &Vec<[u8; 4]>) -> (r: u64)
    requires
        entries@.len() == sigs@.len(),
    ensures
        r == fadt_of(entries@, sigs@),
{
    let mut i: usize = 0;
    assert(entries@.subrange(0, entries@.len() as int) =~= entries@);
    assert(sigs@.subrange(0, sigs@.len() as int) =~= sigs@);
    while i < entries.len()
        invariant
            entries@.len() == sigs@.len(),
            i <= entries@.len(),
            fadt_of(entries@, sigs@) == fadt_of(entries@.subrange(i as int, entries@.len() as int),
                sigs@.subrange(i as int, sigs@.len() as int)),
        decreases entries@.len() - i,
    {
        let ghost (e, s) = (entries@.subrange(i as int, entries@.len() as int), sigs@.subrange(i as int, sigs@.len() as int));
        assert(e.drop_first() =~= entries@.subrange(i + 1, entries@.len() as int));
        assert(s.drop_first() =~= sigs@.subrange(i + 1, sigs@.len() as int));
        let sg = sigs[i];
        if sg[0] == 0x46 && sg[1] == 0x41 && sg[2] == 0x43 && sg[3] == 0x50 {
            assert(sg@ =~= seq![0x46u8, 0x41u8, 0x43u8, 0x50u8]);
            return entries[i];
        }
        i = i + 1;
    }
    0
}

/// What the FADT says: PM1a/PM1b control ports, the system-I/O reset port
/// and value (0 when unusable), and the DSDT address.
#[derive(Clone, Copy, PartialEq, Eq, Debug, Structural)]
pub struct FadtInfo {
    pub pm1a: u16,
    pub pm1b: u16,
    pub reset_port: u16,
    pub reset_value: u16,
    pub dsdt: u64,
}

/// The FADT fields: PM1a_CNT_BLK (+64) and PM1b_CNT_BLK (+68) truncated to
/// 16 bits; when the table is longer than 128 bytes, the reset register
/// (+116) if it is in system-I/O space at a port below 0xFFFF, with
/// RESET_VALUE (+128); the DSDT from X_DSDT (+140, when the table is longer
/// than 148 bytes and it is nonzero) or DSDT (+40).
pub open spec fn fadt_info(t: Seq<u8>) -> FadtInfo {
    let len = le32(t, 4);
    let rr_ok = len > 128 && t[116] == 1 && le64(t, 120) != 0 && le64(t, 120) < 0xFFFF;
    let x = if len > 148 { le64(t, 140) } else { 0 };
    FadtInfo {
        pm1a: (le32(t, 64) % 0x10000) as u16,
        pm1b: (le32(t, 68) % 0x10000) as u16,
        reset_port: if rr_ok { le64(t, 120) as u16 } else { 0 },
        reset_value: if rr_ok { t[128] as u16 } else { 0 },
        dsdt: if x != 0 { x as u64 } else { le32(t, 40) as u64 },
    }
}

/// Read the FADT (its first 156 bytes at least).
pub fn parse_fadt(t: &[u8]) -> (r: FadtInfo)
    requires
        t@.len() >= 156,
    ensures
        r == fadt_info(t@),
{
    let pm1a = (u32_at(t, 64) % 0x10000) as u16;
    let pm1b = (u32_at(t, 68) % 0x10000) as u16;
    let len = u32_at(t, 4);
    let mut reset_port: u16 = 0;
    let mut reset_value: u16 = 0;
    if len > 128 {
        let rr_space = t[116];
        let rr_addr = u64_at(t, 120);
        if rr_space == 1 && rr_addr != 0 && rr_addr < 0xFFFF {
            reset_port = rr_addr as u16;
            reset_value = t[128] as u16;
        }
    }
    let x = if len > 148 { u64_at(t, 140) } else { 0 };
    let dsdt = if x != 0 { x } else { u32_at(t, 40) };
    FadtInfo { pm1a, pm1b, reset_port, reset_value, dsdt }
}

/// One AML integer at `k`: `0x0A v` (byte prefix), or an opcode up to 0x0F
/// standing for itself (Zero, One, small constants); anything else reads
/// as 0. The value and the position after it.
pub open spec fn aml_byte(b: Seq<u8>, k: int) -> (u8, int) {
    if k >= b.len() {
        (0, k)
    } else if b[k] == 0x0A {
        (if k + 1 < b.len() { b[k + 1] } else { 0 }, k + 2)
    } else if b[k] <= 0x0F {
        (b[k], k + 1)
    } else {
        (0, k + 1)
    }
}

/// Read one AML integer (see [`aml_byte`]), advancing `k`.
pub fn read_aml_byte(bytes: &[u8], k: &mut usize) -> (v: u8)
    requires
        *old(k) <= bytes@.len() < usize::MAX,
    ensures
        (v, *final(k) as int) == aml_byte(bytes@, *old(k) as int),
{
    let _n = bytes.len();
    if *k >= bytes.len() {
        return 0;
    }
    let op = bytes[*k];
    if op == 0x0A {
        *k = *k + 1;
        let v = if *k < bytes.len() { bytes[*k] } else { 0 };
        *k = *k + 1;
        v
    } else if op <= 0x0F {
        *k = *k + 1;
        op
    } else {
        *k = *k + 1;
        0
    }
}

/// "_S5_" stands at `i`.
pub open spec fn s5_name_at(b: Seq<u8>, i: int) -> bool {
    b[i] == 0x5F && b[i + 1] == 0x53 && b[i + 2] == 0x35 && b[i + 3] == 0x5F
}

/// Where the look for a PackageOp (0x12) after the name at `i` stops:
/// at the first 0x12 from `j`, or at `i + 8`, or at the end.
pub open spec fn pkg_scan_end(b: Seq<u8>, j: int, i: int) -> int
    decreases i + 8 - j,
{
    if j < i + 8 && j < b.len() && b[j] != 0x12 { pkg_scan_end(b, j + 1, i) } else { j }
}

/// The PackageOp after the name at `i`, looked for in the five bytes from
/// `i + 4`.
pub open spec fn package_at(b: Seq<u8>, i: int) -> Option<int> {
    let j = pkg_scan_end(b, i + 4, i);
    if 0 <= j < b.len() && b[j] == 0x12 { Some(j) } else { None }
}

/// The sleep types (SLP_TYPa, SLP_TYPb) of the first `\_S5_` package found
/// scanning the DSDT from `i`: the name, a PackageOp within four bytes,
/// then (after a one-byte package length and the element count) two AML
/// integers.
pub open spec fn s5_from(b: Seq<u8>, i: int) -> Option<(u8, u8)>
    decreases b.len() - i,
{
    if i < 0 || !(i + 6 < b.len()) {
        None
    } else if s5_name_at(b, i) && package_at(b, i) is Some {
        let j = package_at(b, i)->0;
        let (a, k1) = aml_byte(b, j + 3);
        let (c, k2) = aml_byte(b, k1);
        Some((a, c))
    } else {
        s5_from(b, i + 1)
    }
}

/// Scan DSDT bytes for the `\_S5` sleep types (see [`s5_from`]).
pub fn scan_s5(bytes: &[u8]) -> (r: Option<(u8, u8)>)
    requires
        bytes@.len() <= 0x20000,
    ensures
        r == s5_from(bytes@, 0),
{
    let n = bytes.len();
    let mut i: usize = 0;
    while n >= 7 && i < n - 6
        invariant
            n == bytes@.len() <= 0x20000,
            s5_from(bytes@, 0) == s5_from(bytes@, i as int),
        decreases n - i,
    {
        if bytes[i] == 0x5F && bytes[i + 1] == 0x53 && bytes[i + 2] == 0x35 && bytes[i + 3] == 0x5F {
            let mut j = i + 4;
            while j < i + 8 && j < n && bytes[j] != 0x12
                invariant
                    i + 4 <= j <= i + 8,
                    i + 6 < n == bytes@.len() <= 0x20000,
                    pkg_scan_end(bytes@, i + 4, i as int) == pkg_scan_end(bytes@, j as int, i as int),
                decreases i + 8 - j,
            {
                j = j + 1;
            }
            if j < n && bytes[j] == 0x12 {
                assert(pkg_scan_end(bytes@, j as int, i as int) == j);
                let mut k = if j + 3 <= n { j + 3 } else { n };
                let ghost k0 = (j + 3) as int;
                proof {
                    if j + 3 > n {
                        assert(aml_byte(bytes@, k0) == (0u8, k0));
                    }
                }
                let a = read_aml_byte(bytes, &mut k);
                let ghost ka = k;
                let c = if k <= n { read_aml_byte(bytes, &mut k) } else { 0 };
                proof {
                    let (sa, s1) = aml_byte(bytes@, k0);
                    let (sc, s2) = aml_byte(bytes@, s1);
                    assert(package_at(bytes@, i as int) == Some(j as int));
                    if j + 3 <= n {
                        assert(ka == s1);
                    } else {
                        assert(s1 == k0);
                        assert(ka == n);
                    }
                    assert(a == sa);
                    assert(c == sc);
                }
                return Some((a, c));
            }
        }
        i = i + 1;
    }
    None
}

/// The parsed ACPI power state.
#[derive(Clone, Copy, PartialEq, Eq, Debug, Structural)]
pub struct Power {
    pub pm1a_cnt: u16,
    pub pm1b_cnt: u16,
    pub slp_typa: u16,
    pub slp_typb: u16,
    pub reset_port: u16,
    pub reset_value: u16,
    pub acpi_ok: bool,
}

impl Power {
    /// No ACPI information.
    pub fn none() -> (p: Power)
        ensures
            p == (Power { pm1a_cnt: 0, pm1b_cnt: 0, slp_typa: 0, slp_typb: 0, reset_port: 0, reset_value: 0,
                acpi_ok: false }),
    {
        Power { pm1a_cnt: 0, pm1b_cnt: 0, slp_typa: 0, slp_typb: 0, reset_port: 0, reset_value: 0, acpi_ok: false }
    }

    /// Take in the FADT and, if one was found, the DSDT's sleep types
    /// (shifted into the SLP_TYP field, bit 10). ACPI is usable when PM1a
    /// is known; the result says so.
    pub fn apply_fadt(&mut self, f: FadtInfo, s5: Option<(u8, u8)>) -> (ok: bool)
        ensures
            final(self).pm1a_cnt == f.pm1a && final(self).pm1b_cnt == f.pm1b,
            f.reset_port != 0 ==> final(self).reset_port == f.reset_port && final(self).reset_value == f.reset_value,
            f.reset_port == 0 ==> final(self).reset_port == old(self).reset_port
                && final(self).reset_value == old(self).reset_value,
            match s5 {
                Some((a, b)) => final(self).slp_typa == ((a as u16) << 10u16)
                    && final(self).slp_typb == ((b as u16) << 10u16),
                None => final(self).slp_typa == old(self).slp_typa && final(self).slp_typb == old(self).slp_typb,
            },
            ok == (f.pm1a != 0),
            final(self).acpi_ok == ok,
    {
        self.pm1a_cnt = f.pm1a;
        self.pm1b_cnt = f.pm1b;
        if f.reset_port != 0 {
            self.reset_port = f.reset_port;
            self.reset_value = f.reset_value;
        }
        match s5 {
            Some((a, b)) => {
                self.slp_typa = (a as u16) << 10u16;
                self.slp_typb = (b as u16) << 10u16;
            },
            None => {},
        }
        self.acpi_ok = f.pm1a != 0;
        self.acpi_ok
    }

    /// Whether ACPI power-off is available.
    pub fn acpi_available(&self) -> (r: bool)
        ensures
            r == self.acpi_ok,
    {
        self.acpi_ok
    }

    /// (ACPI usable, PM1a port, SLP_TYPa, reset port) for diagnostics.
    pub fn summary(&self) -> (r: (bool, u16, u16, u16))
        ensures
            r == (self.acpi_ok, self.pm1a_cnt, self.slp_typa >> 10u16, self.reset_port),
    {
        (self.acpi_ok, self.pm1a_cnt, self.slp_typa >> 10, self.reset_port)
    }

    /// The 16-bit port writes that power off: SLP_TYPa|SLP_EN to PM1a (and
    /// SLP_TYPb|SLP_EN to PM1b when present) when ACPI is usable, then the
    /// QEMU, Bochs and VirtualBox fallbacks.
    pub fn shutdown_writes(&self) -> (w: Vec<(u16, u16)>)
        ensures
            w@ == (if self.acpi_ok && self.pm1a_cnt != 0 {
                seq![(self.pm1a_cnt, self.slp_typa | SLP_EN)] + (if self.pm1b_cnt != 0 {
                    seq![(self.pm1b_cnt, self.slp_typb | SLP_EN)]
                } else {
                    Seq::empty()
                })
            } else {
                Seq::empty()
            }) + seq![(0x604u16, 0x2000u16), (0xB004u16, 0x2000u16), (0x4004u16, 0x3400u16)],
    {
        let mut w: Vec<(u16, u16)> = Vec::new();
        if self.acpi_ok && self.pm1a_cnt != 0 {
            w.push((self.pm1a_cnt, self.slp_typa | SLP_EN));
            if self.pm1b_cnt != 0 {
                w.push((self.pm1b_cnt, self.slp_typb | SLP_EN));
            }
        }
        w.push((0x604, 0x2000));
        w.push((0xB004, 0x2000));
        w.push((0x4004, 0x3400));
        assert(w@ =~= (if self.acpi_ok && self.pm1a_cnt != 0 {
                seq![(self.pm1a_cnt, self.slp_typa | SLP_EN)] + (if self.pm1b_cnt != 0 {
                    seq![(self.pm1b_cnt, self.slp_typb | SLP_EN)]
                } else {
                    Seq::empty()
                })
            } else {
                Seq::empty()
            }) + seq![(0x604u16, 0x2000u16), (0xB004u16, 0x2000u16), (0x4004u16, 0x3400u16)]);
        w
    }

    /// The 8-bit port writes that restart: the ACPI reset register (when
    /// the FADT gave one), then ten 0xFE pulses to the keyboard controller.
    pub fn restart_writes(&self) -> (w: Vec<(u16, u8)>)
        ensures
            w@.len() == (if self.reset_port != 0 { 11int } else { 10int }),
            self.reset_port != 0 ==> w@[0] == (self.reset_port, (self.reset_value % 256) as u8),
            forall|i: int| (if self.reset_port != 0 { 1int } else { 0int }) <= i < w@.len() ==> w@[i] == (0x64u16, 0xFEu8),
    {
        let mut w: Vec<(u16, u8)> = Vec::new();
        if self.reset_port != 0 {
            w.push((self.reset_port, (self.reset_value % 256) as u8));
        }
        let base = w.len();
        let mut i: usize = 0;
        while i < 10
            invariant
                base == (if self.reset_port != 0 { 1int } else { 0int }),
                w@.len() == base + i,
                i <= 10,
                self.reset_port != 0 ==> w@[0] == (self.reset_port, (self.reset_value % 256) as u8),
                forall|k: int| base <= k < w@.len() ==> w@[k] == (0x64u16, 0xFEu8),
            decreases 10 - i,
        {
            w.push((0x64, 0xFE));
            i = i + 1;
        }
        w
    }
}

} // verus!
