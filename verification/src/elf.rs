//! Minimal static ELF64 loader for ring-3 programs: the header is checked
//! (ELF64, ET_EXEC, x86-64), the PT_LOAD segments are collected, and each
//! segment is planned page by page: which bytes of the image land where in
//! each 4 KiB page (the rest of the page is zero). Allocating frames and
//! installing the mappings is the paging code's job.

use vstd::prelude::*;
use crate::bytes::{le16, le32, le64, u16_at, u32_at, u64_at};

verus! {

pub const PT_LOAD: u32 = 1;
/// Segment flag: executable.
pub const PF_X: u32 = 1;
/// Segment flag: writable.
pub const PF_W: u32 = 2;
pub const PAGE: u64 = 4096;

/// A loadable segment.
#[derive(Clone, Copy, PartialEq, Eq, Debug, Structural)]
pub struct Segment {
    pub flags: u32,
    pub offset: usize,
    pub vaddr: u64,
    pub filesz: usize,
    pub memsz: usize,
}

/// The checked header: entry point and loadable segments.
pub struct ElfInfo {
    pub entry: u64,
    pub segments: Vec<Segment>,
}

/// Why an image is refused by the header checks, if it is.
pub open spec fn header_fault(b: Seq<u8>) -> Option<&'static str> {
    if b.len() < 64 || !(b[0] == 0x7F && b[1] == 0x45 && b[2] == 0x4C && b[3] == 0x46) {
        Some("not an ELF file")
    } else if b[4] != 2 {
        Some("not ELF64")
    } else if le16(b, 16) != 2 {
        Some("not ET_EXEC")
    } else if le16(b, 18) != 0x3E {
        Some("not x86-64")
    } else {
        None
    }
}

/// Offset of program header `i`.
pub open spec fn ph_at(b: Seq<u8>, i: int) -> int {
    le64(b, 32) + i * le16(b, 54)
}

/// Every program header can be read: its type, and for a PT_LOAD header
/// its whole 48 bytes, lie in the image and their offsets fit in `usize`.
pub open spec fn phdrs_readable(b: Seq<u8>) -> bool {
    &&& le64(b, 32) <= usize::MAX
    &&& forall|i: int| 0 <= i < le16(b, 56) ==> #[trigger] phdr_readable(b, i)
}

/// The segment described by the PT_LOAD header at `ph`.
pub open spec fn segment_at(b: Seq<u8>, ph: int) -> Segment {
    Segment {
        flags: le32(b, ph + 4) as u32,
        offset: le64(b, ph + 8) as usize,
        vaddr: le64(b, ph + 16) as u64,
        filesz: le64(b, ph + 32) as usize,
        memsz: le64(b, ph + 40) as usize,
    }
}

/// The PT_LOAD segments among the first `n` program headers, in order.
pub open spec fn load_segments(b: Seq<u8>, n: nat) -> Seq<Segment>
    decreases n,
{
    if n == 0 {
        Seq::empty()
    } else {
        let prev = load_segments(b, (n - 1) as nat);
        let ph = ph_at(b, n - 1);
        if le32(b, ph) == PT_LOAD { prev.push(segment_at(b, ph)) } else { prev }
    }
}

/// Program header `i` can be read (see [`phdrs_readable`]).
pub open spec fn phdr_readable(b: Seq<u8>, i: int) -> bool {
    let ph = ph_at(b, i);
    &&& ph + 48 <= usize::MAX
    &&& ph + 4 <= b.len()
    &&& le32(b, ph) == PT_LOAD ==> ph + 48 <= b.len()
}

/// Whether the program headers of a 64-byte-or-longer image can be read,
/// which the loader needs before it reads them: a truncated image is
/// refused here.
pub fn phdrs_in_bounds(image: &[u8]) -> (ok: bool)
    requires
        image@.len() >= 64,
    ensures
        ok == phdrs_readable(image@),
{
    let phoff = u64_at(image, 32);
    let phentsize = u16_at(image, 54);
    let phnum = u16_at(image, 56);
    if phoff as u128 > usize::MAX as u128 {
        return false;
    }
    let len = image.len() as u128;
    let mut i: u64 = 0;
    while i < phnum
        invariant
            i <= phnum == le16(image@, 56),
            phoff == le64(image@, 32) <= usize::MAX,
            phentsize == le16(image@, 54) < 0x1_0000,
            len == image@.len(),
            forall|j: int| 0 <= j < i ==> #[trigger] phdr_readable(image@, j),
        decreases phnum - i,
    {
        assert(i * phentsize <= 0x1_0000 * 0x1_0000) by (nonlinear_arith)
            requires i < 0x1_0000, phentsize < 0x1_0000;
        let ph: u128 = phoff as u128 + i as u128 * phentsize as u128;
        assert(ph == ph_at(image@, i as int));
        if ph + 48 > usize::MAX as u128 || ph + 4 > len {
            assert(!phdr_readable(image@, i as int));
            return false;
        }
        let kind = u32_at(image, ph as usize);
        if kind == PT_LOAD as u64 && ph + 48 > len {
            assert(!phdr_readable(image@, i as int));
            return false;
        }
        i = i + 1;
    }
    true
}

/// Check the header and collect the loadable segments.
pub fn parse_elf(image: &[u8]) -> (r: Result<ElfInfo, &'static str>)
    requires
        header_fault(image@) is None ==> phdrs_readable(image@),
    ensures
        match header_fault(image@) {
            Some(m) => r == Err::<ElfInfo, &'static str>(m),
            None => r matches Ok(info) && info.entry == le64(image@, 24)
                && info.segments@ == load_segments(image@, le16(image@, 56) as nat),
        },
{
    if image.len() < 64 || !(image[0] == 0x7F && image[1] == 0x45 && image[2] == 0x4C && image[3] == 0x46) {
        return Err("not an ELF file");
    }
    if image[4] != 2 {
        return Err("not ELF64");
    }
    if u16_at(image, 16) != 2 {
        return Err("not ET_EXEC");
    }
    if u16_at(image, 18) != 0x3E {
        return Err("not x86-64");
    }
    let entry = u64_at(image, 24);
    let phoff = u64_at(image, 32) as usize;
    let phentsize = u16_at(image, 54) as usize;
    let phnum = u16_at(image, 56) as usize;
    let mut segments: Vec<Segment> = Vec::new();
    let mut i: usize = 0;
    while i < phnum
        invariant
            phdrs_readable(image@),
            i <= phnum == le16(image@, 56),
            phoff == le64(image@, 32),
            phentsize == le16(image@, 54),
            segments@ == load_segments(image@, i as nat),
        decreases phnum - i,
    {
        let ghost phs = ph_at(image@, i as int);
        assert(phdr_readable(image@, i as int));
        assert(phs + 48 <= usize::MAX && phs + 4 <= image@.len());
        assert(i * phentsize <= phs) by (nonlinear_arith)
            requires phs == phoff + i * phentsize, phoff >= 0;
        let ph = phoff + i * phentsize;
        if u32_at(image, ph) == PT_LOAD as u64 {
            let flags = u32_at(image, ph + 4) as u32;
            let offset = u64_at(image, ph + 8) as usize;
            let vaddr = u64_at(image, ph + 16);
            let filesz = u64_at(image, ph + 32) as usize;
            let memsz = u64_at(image, ph + 40) as usize;
            segments.push(Segment { flags, offset, vaddr, filesz, memsz });
        }
        i = i + 1;
    }
    Ok(ElfInfo { entry, segments })
}

/// One page of a segment: its address, and the image bytes
/// `[file_off, file_off + len)` copied to `dst_off` in it (`len` 0 when the
/// page is all zero).
#[derive(Clone, Copy, PartialEq, Eq, Debug, Structural)]
pub struct PageCopy {
    pub page: u64,
    pub file_off: usize,
    pub len: usize,
    pub dst_off: usize,
}

/// The first page of a segment.
pub open spec fn first_page(vaddr: u64) -> int {
    vaddr - vaddr % 4096
}

/// The part of page `p` the file bytes of segment `s` cover:
/// `[max(p, vaddr), min(p + 4096, vaddr + filesz))`.
pub open spec fn cover(s: Segment, p: int) -> (int, int) {
    let lo = if p > s.vaddr { p } else { s.vaddr as int };
    let hi = if p + 4096 < s.vaddr + s.filesz { p + 4096 } else { s.vaddr + s.filesz };
    (lo, hi)
}

/// The copy planned for page `p` of segment `s`.
pub open spec fn page_copy(s: Segment, p: int) -> PageCopy {
    let (lo, hi) = cover(s, p);
    if lo < hi {
        PageCopy { page: p as u64, file_off: (s.offset + (lo - s.vaddr)) as usize, len: (hi - lo) as usize,
            dst_off: (lo - p) as usize }
    } else {
        PageCopy { page: p as u64, file_off: 0, len: 0, dst_off: 0 }
    }
}

/// Each page reads the file bytes that belong at its addresses: the bytes
/// copied to offset `dst_off` of page `p` are those of the segment's file
/// image at `p + dst_off - vaddr`, inside the page and inside
/// `[vaddr, vaddr + filesz)`; so the copies of consecutive pages read
/// consecutive file ranges.
pub proof fn lemma_page_copy_places_bytes(s: Segment, p: int)
    requires
        segment_fits(s),
        first_page(s.vaddr) <= p,
        (p - first_page(s.vaddr)) % 4096 == 0,
        p + 4096 <= u64::MAX,
    ensures
        page_copy(s, p).page == p,
        page_copy(s, p).len > 0 ==> {
            let c = page_copy(s, p);
            &&& c.file_off - s.offset == p + c.dst_off - s.vaddr
            &&& s.vaddr <= p + c.dst_off
            &&& p + c.dst_off + c.len <= s.vaddr + s.filesz
            &&& c.dst_off + c.len <= 4096
        },
        page_copy(s, p).len > 0 && page_copy(s, p + 4096).len > 0 ==>
            page_copy(s, p).file_off + page_copy(s, p).len == page_copy(s, p + 4096).file_off
            && page_copy(s, p).dst_off + page_copy(s, p).len == 4096 && page_copy(s, p + 4096).dst_off == 0,
{
    assert(s.vaddr - s.vaddr % 4096 <= s.vaddr);
    assert(s.vaddr < first_page(s.vaddr) + 4096);
}

/// The arithmetic of planning segment `s` stays within 64 bits.
pub open spec fn segment_fits(s: Segment) -> bool {
    &&& s.vaddr + s.memsz + 4096 <= u64::MAX
    &&& s.vaddr + s.filesz <= u64::MAX
    &&& s.offset + s.filesz <= usize::MAX
}

/// Plan a segment over an image of `image_len` bytes: pages from the one
/// holding `vaddr` up to `vaddr + memsz`, each with its copy (see
/// [`page_copy`]). The plan stops, with an error, at the first page whose
/// bytes lie past the end of the image.
pub fn plan_segment(s: Segment, image_len: usize) -> (r: (Vec<PageCopy>, Option<&'static str>))
    requires
        segment_fits(s),
    ensures
        forall|k: int| 0 <= k < r.0@.len() ==> r.0@[k] == page_copy(s, first_page(s.vaddr) + 4096 * k)
            && first_page(s.vaddr) + 4096 * k < s.vaddr + s.memsz
            && r.0@[k].file_off + r.0@[k].len <= image_len,
        forall|k: int| 0 <= k < r.0@.len() && #[trigger] r.0@[k].len > 0 ==>
            r.0@[k].file_off - s.offset == r.0@[k].page + r.0@[k].dst_off - s.vaddr
            && r.0@[k].dst_off + r.0@[k].len <= 4096,
        r.1 is None ==> first_page(s.vaddr) + 4096 * r.0@.len() >= s.vaddr + s.memsz,
        r.1 is Some ==> r.1 == Some("segment file range out of bounds")
            && first_page(s.vaddr) + 4096 * r.0@.len() < s.vaddr + s.memsz
            && ({
                let c = page_copy(s, first_page(s.vaddr) + 4096 * r.0@.len());
                c.file_off + c.len > image_len
            }),
{
    proof {
        assert forall|k: int| 0 <= k && first_page(s.vaddr) + 4096 * k < s.vaddr + s.memsz implies
            (#[trigger] page_copy(s, first_page(s.vaddr) + 4096 * k)).len > 0 ==>
            page_copy(s, first_page(s.vaddr) + 4096 * k).file_off - s.offset
                == page_copy(s, first_page(s.vaddr) + 4096 * k).page + page_copy(s, first_page(s.vaddr) + 4096 * k).dst_off - s.vaddr
            && page_copy(s, first_page(s.vaddr) + 4096 * k).dst_off + page_copy(s, first_page(s.vaddr) + 4096 * k).len <= 4096 by {
            assert((first_page(s.vaddr) + 4096 * k - first_page(s.vaddr)) % 4096 == 0) by (nonlinear_arith)
                requires k >= 0;
            lemma_page_copy_places_bytes(s, first_page(s.vaddr) + 4096 * k);
        }
    }
    let start = s.vaddr - s.vaddr % 4096;
    let end = s.vaddr + s.memsz as u64;
    let fend = s.vaddr + s.filesz as u64;
    let mut pages: Vec<PageCopy> = Vec::new();
    let mut page_addr = start;
    while page_addr < end
        invariant
            segment_fits(s),
            start == first_page(s.vaddr),
            end == s.vaddr + s.memsz,
            fend == s.vaddr + s.filesz,
            page_addr == start + 4096 * pages@.len(),
            page_addr <= end + 4096,
            forall|k: int| 0 <= k < pages@.len() ==> pages@[k] == page_copy(s, start + 4096 * k)
                && start + 4096 * k < end && pages@[k].file_off + pages@[k].len <= image_len,
        decreases end + 4096 - page_addr,
    {
        let page_end = page_addr + 4096;
        let lo = if page_addr > s.vaddr { page_addr } else { s.vaddr };
        let hi = if page_end < fend { page_end } else { fend };
        let c = if lo < hi {
            let file_off = s.offset + (lo - s.vaddr) as usize;
            let len = (hi - lo) as usize;
            if file_off > image_len || len > image_len - file_off {
                return (pages, Some("segment file range out of bounds"));
            }
            PageCopy { page: page_addr, file_off, len, dst_off: (lo - page_addr) as usize }
        } else {
            PageCopy { page: page_addr, file_off: 0, len: 0, dst_off: 0 }
        };
        pages.push(c);
        page_addr = page_end;
    }
    assert forall|k: int| 0 <= k < pages@.len() implies #[trigger] pages@[k] == page_copy(s, first_page(s.vaddr) + 4096 * k)
        && first_page(s.vaddr) + 4096 * k < s.vaddr + s.memsz
        && pages@[k].file_off + pages@[k].len <= image_len by {}
    (pages, None)
}

/// Page-table permissions for a segment: (writable, no-execute).
pub fn segment_access(flags: u32) -> (r: (bool, bool))
    ensures
        r.0 == (flags & PF_W != 0),
        r.1 == (flags & PF_X == 0),
{
    (flags & PF_W != 0, flags & PF_X == 0)
}

} // verus!
