//! User memory rules: which user ranges a syscall may touch, given the leaf
//! page-table entries the walk found, and the per-process anonymous mmap
//! arena (reserve, commit, protect, unmap). Walking and editing the live page
//! tables is the machine's part.

use vstd::prelude::*;
use crate::abi::{mmap_prot, syserr};

verus! {

/// What the kernel knows of physical memory: where the bootloader mapped
/// all of it, and how much is usable.
pub struct MemInfo {
    pub phys_offset: u64,
    pub usable_mib: u64,
}

impl MemInfo {
    /// The virtual address at which physical address `phys` is mapped.
    pub fn phys_to_virt(&self, phys: u64) -> (v: u64)
        requires
            self.phys_offset + phys <= u64::MAX,
        ensures
            v == self.phys_offset + phys,
    {
        self.phys_offset + phys
    }

    /// Record the usable physical memory (MiB).
    pub fn set_total_usable_mib(&mut self, mib: u64)
        ensures
            final(self).usable_mib == mib,
            final(self).phys_offset == old(self).phys_offset,
    {
        self.usable_mib = mib;
    }

    /// The usable physical memory (MiB).
    pub fn total_usable_mib(&self) -> (m: u64)
        ensures
            m == self.usable_mib,
    {
        self.usable_mib
    }
}

/// Page-table entry: present.
pub const PTE_PRESENT: u64 = 1;
/// Page-table entry: writable.
pub const PTE_WRITABLE: u64 = 2;
/// Page-table entry: user-accessible.
pub const PTE_USER: u64 = 4;
/// Page-table entry: huge page (at the upper levels).
pub const PTE_HUGE: u64 = 0x80;
/// Page-table entry: no-execute.
pub const PTE_NX: u64 = 0x8000_0000_0000_0000;
/// Page-table entry: physical address bits.
pub const PTE_ADDR_MASK: u64 = 0x000F_FFFF_FFFF_F000;

/// Upper bound of the ring-3 address space; every kernel mapping lies above.
pub const USER_ADDR_MAX: u64 = 0x8000_0000;

/// First address of the mmap arena.
pub const USER_MMAP_BASE: u64 = 0x2000_0000;
/// End of the mmap arena (below the user stack).
pub const USER_MMAP_LIMIT: u64 = 0x6000_0000;

/// The index into a page table at `level` (shift 39, 30, 21 or 12) for `vaddr`.
pub fn table_index(vaddr: u64, level: u64) -> (i: usize)
    requires
        level < 64,
    ensures
        i == (vaddr >> level) & 0x1FF,
        i < 512,
{
    let v = (vaddr >> level) & 0x1FF;
    assert(v < 512) by (bit_vector)
        requires v == (vaddr >> level) & 0x1FF;
    v as usize
}

/// One step of a page walk.
#[derive(Clone, Copy, PartialEq, Eq, Debug, Structural)]
pub enum Walk {
    /// The entry is not present.
    Absent,
    /// The entry maps the page.
    Leaf(u64),
    /// Continue at the table at this physical address.
    Next(u64),
}

/// The step a walk takes on entry `val` at `level`: absent when the present
/// bit is clear; a leaf at the last level or on a huge page; else the next
/// table.
pub open spec fn walk_step(val: u64, level: u64) -> Walk {
    if val & PTE_PRESENT == 0 {
        Walk::Absent
    } else if level == 12 || val & PTE_HUGE != 0 {
        Walk::Leaf(val)
    } else {
        Walk::Next(val & PTE_ADDR_MASK)
    }
}

/// The step a walk takes on entry `val` at `level` (see [`walk_step`]).
pub fn step(val: u64, level: u64) -> (w: Walk)
    ensures
        w == walk_step(val, level),
{
    if val & PTE_PRESENT == 0 {
        Walk::Absent
    } else if level == 12 || val & PTE_HUGE != 0 {
        Walk::Leaf(val)
    } else {
        Walk::Next(val & PTE_ADDR_MASK)
    }
}

/// A leaf entry grants a ring-3 access (writes too when `need_write`).
pub open spec fn leaf_grants(entry: Option<u64>, need_write: bool) -> bool {
    match entry {
        None => false,
        Some(e) => e & PTE_USER != 0 && (!need_write || e & PTE_WRITABLE != 0),
    }
}

/// The first and last page of a non-empty user range, or the verdict when
/// no page needs looking at: an empty range is fine unless its pointer is
/// null; a null pointer, a wrapping range or one past [`USER_ADDR_MAX`] is
/// refused.
pub open spec fn range_pages(ptr: u64, len: u64) -> Result<(u64, u64), bool> {
    if len == 0 {
        Err(ptr != 0)
    } else if ptr == 0 || ptr + len > u64::MAX || ptr + len > USER_ADDR_MAX {
        Err(false)
    } else {
        Ok((ptr & !0xFFFu64, ((ptr + len - 1) as u64) & !0xFFFu64))
    }
}

/// The pages of a user range to check, or the verdict (see [`range_pages`]).
pub fn user_range_pages(ptr: u64, len: u64) -> (r: Result<(u64, u64), bool>)
    ensures
        r == range_pages(ptr, len),
        r matches Ok((first, last)) ==> first <= last < USER_ADDR_MAX && first % 4096 == 0 && last % 4096 == 0,
{
    if len == 0 {
        return Err(ptr != 0);
    }
    if ptr == 0 {
        return Err(false);
    }
    let end = match ptr.checked_add(len) {
        Some(e) => e,
        None => return Err(false),
    };
    if end > USER_ADDR_MAX {
        return Err(false);
    }
    let first = ptr & !0xFFF;
    let last = (end - 1) & !0xFFF;
    assert(first <= last && last <= end - 1 && first % 4096 == 0 && last % 4096 == 0) by (bit_vector)
        requires first == ptr & !0xFFFu64, last == ((end - 1) as u64) & !0xFFFu64, ptr <= end - 1;
    (Ok((first, last)))
}

/// Number of pages from `first` to `last` inclusive.
pub open spec fn page_count(first: u64, last: u64) -> nat {
    ((last - first) / 4096 + 1) as nat
}

/// Whether `[ptr, ptr+len)` is memory a ring-3 caller may hand to the kernel,
/// given the leaf entries of its pages in order (`None` where the walk found
/// nothing): inside the user half, and every page user-accessible (and
/// writable when `need_write`).
pub open spec fn range_valid(ptr: u64, len: u64, need_write: bool, leaves: Seq<Option<u64>>) -> bool {
    match range_pages(ptr, len) {
        Err(v) => v,
        Ok((first, last)) => forall|i: int| 0 <= i < page_count(first, last)
            ==> leaf_grants(#[trigger] leaves[i], need_write),
    }
}

/// Checks a user range against the leaf entries of its pages (see
/// [`range_valid`]); `leaves` holds one entry per page from the first.
pub fn validate_user_range(ptr: u64, len: u64, need_write: bool, leaves: &[Option<u64>]) -> (ok: bool)
    requires
        range_pages(ptr, len) matches Ok((first, last)) ==> leaves@.len() == page_count(first, last),
    ensures
        ok == range_valid(ptr, len, need_write, leaves@),
{
    let (first, last) = match user_range_pages(ptr, len) {
        Ok(p) => p,
        Err(v) => return v,
    };
    let count = (last - first) / 4096 + 1;
    let mut i: u64 = 0;
    while i < count
        invariant
            i <= count,
            count == page_count(first, last),
            range_pages(ptr, len) == Ok::<(u64, u64), bool>((first, last)),
            leaves@.len() == count,
            forall|k: int| 0 <= k < i ==> leaf_grants(#[trigger] leaves@[k], need_write),
        decreases count - i,
    {
        assert(i < leaves@.len());
        let e = leaves[i as usize];
        let ok = match e {
            None => false,
            Some(e) => e & PTE_USER != 0 && (!need_write || e & PTE_WRITABLE != 0),
        };
        if !ok {
            assert(!leaf_grants(leaves@[i as int], need_write));
            assert(range_pages(ptr, len) == Ok::<(u64, u64), bool>((first, last)));
            assert(!range_valid(ptr, len, need_write, leaves@));
            return false;
        }
        i = i + 1;
    }
    true
}

/// Whether the kernel may use a buffer pointer: on a call from ring 3 the
/// range must be valid; a call from kernel context is trusted but must not
/// pass null.
pub fn buffer_allowed(from_user: bool, ptr: u64, range_ok: bool) -> (ok: bool)
    ensures
        ok == if from_user { range_ok } else { ptr != 0 },
{
    if from_user { range_ok } else { ptr != 0 }
}

/// The page flags for an mmap protection: present and user, writable with
/// `WRITE`, no-execute without `EXEC`.
pub open spec fn prot_flags(prot: u64) -> u64 {
    (PTE_PRESENT + PTE_USER + (if prot & mmap_prot::WRITE != 0 { PTE_WRITABLE } else { 0 })
        + (if prot & mmap_prot::EXEC == 0 { PTE_NX } else { 0 })) as u64
}

/// The page flags for an mmap protection (see [`prot_flags`]).
pub fn flags_from_prot(prot: u64) -> (f: u64)
    ensures
        f == prot_flags(prot),
{
    let mut f = PTE_PRESENT + PTE_USER;
    if prot & mmap_prot::WRITE != 0 {
        f = f + PTE_WRITABLE;
    }
    if prot & mmap_prot::EXEC == 0 {
        f = f + PTE_NX;
    }
    f
}

/// The protection grants some access (read, write or execute).
pub open spec fn has_access(prot: u64) -> bool {
    prot & 7 != 0
}

/// Whether the protection grants some access.
pub fn prot_has_access(prot: u64) -> (b: bool)
    ensures
        b == has_access(prot),
{
    prot & 7 != 0
}

/// Pages needed for `size` bytes.
pub open spec fn pages_for(size: u64) -> int {
    (size + 4095) / 4096
}

/// The per-process anonymous mmap arena: the next free address (bumped by
/// every request) and the pages committed so far.
pub struct MmapArena {
    pub next: u64,
    pub pages: Vec<u64>,
}

/// What an mmap request comes to.
#[derive(Clone, Copy, PartialEq, Eq, Debug, Structural)]
pub enum MmapPlan {
    /// Refuse with this error code.
    Refuse(u64),
    /// Address range reserved at `base`; no frames.
    Reserve(u64),
    /// Map `count` fresh pages at `base` with `flags`, then [`MmapArena::commit`].
    MapPages { base: u64, count: u64, flags: u64 },
}

impl MmapArena {
    /// An empty arena at [`USER_MMAP_BASE`].
    pub fn new() -> (a: MmapArena)
        ensures
            a.next == USER_MMAP_BASE,
            a.pages@.len() == 0,
    {
        MmapArena { next: USER_MMAP_BASE, pages: Vec::new() }
    }

    /// Start over for a new process: returns the committed pages (for the
    /// machine to unmap) and rewinds to [`USER_MMAP_BASE`].
    pub fn reset_user_mmap(&mut self) -> (old_pages: Vec<u64>)
        ensures
            old_pages@ == old(self).pages@,
            final(self).next == USER_MMAP_BASE,
            final(self).pages@.len() == 0,
    {
        let mut taken: Vec<u64> = Vec::new();
        core::mem::swap(&mut taken, &mut self.pages);
        self.next = USER_MMAP_BASE;
        taken
    }

    /// MMAP: `size == 0` is refused; otherwise `ceil(size / 4096)` pages are
    /// taken from the arena (the bump happens even when the request then
    /// fails); past [`USER_MMAP_LIMIT`] it is refused; without access the
    /// range is only reserved; else the pages are to be mapped.
    pub fn user_mmap(&mut self, size: u64, prot: u64) -> (p: MmapPlan)
        requires
            size <= u64::MAX - 4095,
        ensures
            size == 0 ==> p == MmapPlan::Refuse(syserr::INVAL) && *final(self) == *old(self),
            size != 0 ==> {
                let bytes = pages_for(size) * 4096;
                let base = old(self).next;
                &&& final(self).next == (base + bytes) % 0x1_0000_0000_0000_0000
                &&& final(self).pages == old(self).pages
                &&& base + bytes > USER_MMAP_LIMIT ==> p == MmapPlan::Refuse(syserr::INVAL)
                &&& base + bytes <= USER_MMAP_LIMIT && !has_access(prot) ==> p == MmapPlan::Reserve(base)
                &&& base + bytes <= USER_MMAP_LIMIT && has_access(prot) ==> p == (MmapPlan::MapPages {
                    base: base, count: pages_for(size) as u64, flags: prot_flags(prot) })
            },
    {
        if size == 0 {
            return MmapPlan::Refuse(syserr::INVAL);
        }
        let count = (size + 4095) / 4096;
        assert(count * 4096 <= size + 4095) by (nonlinear_arith)
            requires count == (size + 4095) / 4096;
        let bytes = count * 4096;
        let base = self.next;
        self.next = base.wrapping_add(bytes);
        let end = match base.checked_add(bytes) {
            Some(e) => e,
            None => return MmapPlan::Refuse(syserr::INVAL),
        };
        if end > USER_MMAP_LIMIT {
            return MmapPlan::Refuse(syserr::INVAL);
        }
        if !prot_has_access(prot) {
            return MmapPlan::Reserve(base);
        }
        MmapPlan::MapPages { base, count, flags: flags_from_prot(prot) }
    }

    /// Record pages the machine committed.
    pub fn commit(&mut self, pages: &[u64])
        ensures
            final(self).next == old(self).next,
            final(self).pages@ == old(self).pages@ + pages@,
    {
        let mut i: usize = 0;
        while i < pages.len()
            invariant
                i <= pages@.len(),
                self.next == old(self).next,
                self.pages@ == old(self).pages@ + pages@.take(i as int),
            decreases pages@.len() - i,
        {
            self.pages.push(pages[i]);
            assert(pages@.take(i + 1) =~= pages@.take(i as int).push(pages@[i as int]));
            i = i + 1;
        }
        assert(pages@.take(pages@.len() as int) =~= pages@);
    }

    /// Forget pages the machine unmapped: keeps the others, in order.
    pub fn forget(&mut self, gone: &[u64])
        ensures
            final(self).next == old(self).next,
            final(self).pages@ == old(self).pages@.filter(|p: u64| !gone@.contains(p)),
    {
        let mut kept: Vec<u64> = Vec::new();
        let ghost src = self.pages@;
        let mut i: usize = 0;
        while i < self.pages.len()
            invariant
                i <= src.len(),
                self.pages@ == src,
                src == old(self).pages@,
                self.next == old(self).next,
                kept@ == src.take(i as int).filter(|p: u64| !gone@.contains(p)),
            decreases src.len() - i,
        {
            let p = self.pages[i];
            let mut found = false;
            let mut j: usize = 0;
            while j < gone.len()
                invariant
                    j <= gone@.len(),
                    found <==> exists|k: int| 0 <= k < j && gone@[k] == p,
                decreases gone@.len() - j,
            {
                if gone[j] == p {
                    found = true;
                }
                j = j + 1;
            }
            proof {
                if found {
                    let k = choose|k: int| 0 <= k < j && gone@[k] == p;
                    assert(gone@.contains(p));
                } else {
                    assert(!gone@.contains(p));
                }
            }
            if !found {
                kept.push(p);
            }
            proof {
                let f = |q: u64| !gone@.contains(q);
                assert(src.take(i + 1) =~= src.take(i as int).push(p));
                src.take(i as int).lemma_filter_push(p, f);
            }
            i = i + 1;
        }
        assert(src.take(src.len() as int) =~= src);
        self.pages = kept;
    }
}

/// The pages of `[addr, addr + size)` for MPROTECT and MUNMAP: refused with
/// `INVAL` when the size is zero or the address is not page aligned.
pub open spec fn page_span(addr: u64, size: u64) -> Result<(u64, u64), u64> {
    if size == 0 || addr % 4096 != 0 {
        Err(syserr::INVAL)
    } else {
        Ok((addr, pages_for(size) as u64))
    }
}

/// The first page and page count of an MPROTECT or MUNMAP range (see
/// [`page_span`]).
pub fn span(addr: u64, size: u64) -> (r: Result<(u64, u64), u64>)
    requires
        size <= u64::MAX - 4095,
    ensures
        r == page_span(addr, size),
{
    if size == 0 || addr % 4096 != 0 {
        return Err(syserr::INVAL);
    }
    Ok((addr, (size + 4095) / 4096))
}

/// What MPROTECT does to one page.
#[derive(Clone, Copy, PartialEq, Eq, Debug, Structural)]
pub enum PageAction {
    /// Change the mapped page's flags.
    Reflag,
    /// Map a fresh zeroed page (commit a reservation).
    Commit,
    /// Leave it (no access asked on an uncommitted page).
    Skip,
}

/// MPROTECT on one page: a mapped page is re-flagged; an unmapped one is
/// committed when the protection grants access, else left alone.
pub fn protect_action(mapped: bool, prot: u64) -> (a: PageAction)
    ensures
        mapped ==> a == PageAction::Reflag,
        !mapped && has_access(prot) ==> a == PageAction::Commit,
        !mapped && !has_access(prot) ==> a == PageAction::Skip,
{
    if mapped {
        PageAction::Reflag
    } else if prot_has_access(prot) {
        PageAction::Commit
    } else {
        PageAction::Skip
    }
}

/// The page addresses of `count` pages from `first`.
pub fn span_pages(first: u64, count: u64) -> (v: Vec<u64>)
    requires
        first + count * 4096 <= u64::MAX,
    ensures
        v@.len() == count,
        forall|i: int| 0 <= i < count ==> #[trigger] v@[i] == first + i * 4096,
{
    let mut v: Vec<u64> = Vec::new();
    let mut i: u64 = 0;
    while i < count
        invariant
            i <= count,
            first + count * 4096 <= u64::MAX,
            v@.len() == i,
            forall|k: int| 0 <= k < i ==> #[trigger] v@[k] == first + k * 4096,
        decreases count - i,
    {
        assert(i * 4096 <= count * 4096) by (nonlinear_arith) requires i <= count;
        v.push(first + i * 4096);
        i = i + 1;
    }
    v
}

/// A committed page stays recorded until it is unmapped; after `forget` no
/// unmapped page remains.
pub proof fn lemma_forget_removes(pages: Seq<u64>, gone: Seq<u64>, p: u64)
    requires
        gone.contains(p),
    ensures
        !pages.filter(|q: u64| !gone.contains(q)).contains(p),
{
    let f = |q: u64| !gone.contains(q);
    if pages.filter(f).contains(p) {
        let i = choose|i: int| 0 <= i < pages.filter(f).len() && pages.filter(f)[i] == p;
        pages.lemma_filter_pred(f, i);
    }
}

/// A range reaching past the user half (any kernel address) or a null
/// pointer is refused whatever the page tables say.
pub proof fn lemma_kernel_range_refused(ptr: u64, len: u64, need_write: bool, leaves: Seq<Option<u64>>)
    requires
        ptr == 0 || (len > 0 && ptr + len > USER_ADDR_MAX),
    ensures
        !range_valid(ptr, len, need_write, leaves),
{
}

} // verus!
