//! The ring-3 runtime's memory primitives: the C memory intrinsics over
//! byte buffers, and the growable bump heap behind the managed runtime's
//! allocations (chunks of at least 1 MiB from MMAP, 16-byte aligned blocks,
//! nothing freed). Obtaining a chunk is a syscall, made by the caller.

use vstd::prelude::*;

verus! {

/// Fill `dest[..n]` with the low byte of `c`.
pub fn memset(dest: &mut [u8], c: i32, n: usize)
    requires
        n <= old(dest)@.len(),
    ensures
        final(dest)@.len() == old(dest)@.len(),
        forall|k: int| 0 <= k < n ==> final(dest)@[k] == (c as u8),
        forall|k: int| n <= k < old(dest)@.len() ==> final(dest)@[k] == old(dest)@[k],
{
    let byte = c as u8;
    let mut i: usize = 0;
    while i < n
        invariant
            i <= n <= dest@.len(),
            dest@.len() == old(dest)@.len(),
            forall|k: int| 0 <= k < i ==> dest@[k] == byte,
            forall|k: int| i <= k < dest@.len() ==> dest@[k] == old(dest)@[k],
        decreases n - i,
    {
        dest[i] = byte;
        i = i + 1;
    }
}

/// Copy `src[..n]` to `dest[..n]`.
pub fn memcpy(dest: &mut [u8], src: &[u8], n: usize)
    requires
        n <= old(dest)@.len(),
        n <= src@.len(),
    ensures
        final(dest)@.len() == old(dest)@.len(),
        forall|k: int| 0 <= k < n ==> final(dest)@[k] == src@[k],
        forall|k: int| n <= k < old(dest)@.len() ==> final(dest)@[k] == old(dest)@[k],
{
    let mut i: usize = 0;
    while i < n
        invariant
            i <= n <= dest@.len(),
            n <= src@.len(),
            dest@.len() == old(dest)@.len(),
            forall|k: int| 0 <= k < i ==> dest@[k] == src@[k],
            forall|k: int| i <= k < dest@.len() ==> dest@[k] == old(dest)@[k],
        decreases n - i,
    {
        dest[i] = src[i];
        i = i + 1;
    }
}

/// Copy `n` bytes from `buf[from..]` to `buf[to..]` within one buffer, correct
/// when the two ranges overlap: forward when the destination is lower,
/// backward otherwise.
pub fn memmove(buf: &mut [u8], to: usize, from: usize, n: usize)
    requires
        to + n <= old(buf)@.len(),
        from + n <= old(buf)@.len(),
    ensures
        final(buf)@.len() == old(buf)@.len(),
        forall|k: int| to <= k < to + n ==> #[trigger] final(buf)@[k] == old(buf)@[k - to + from],
        forall|k: int| 0 <= k < old(buf)@.len() && !(to <= k < to + n) ==> final(buf)@[k] == old(buf)@[k],
{
    let _len = buf.len();
    if to < from {
        let mut i: usize = 0;
        while i < n
            invariant
                to < from,
                i <= n,
                buf@.len() == _len,
                to + n <= buf@.len(),
                from + n <= buf@.len(),
                buf@.len() == old(buf)@.len(),
                forall|k: int| to <= k < to + i ==> #[trigger] buf@[k] == old(buf)@[k - to + from],
                forall|k: int| 0 <= k < buf@.len() && !(to <= k < to + i) ==> buf@[k] == old(buf)@[k],
            decreases n - i,
        {
            let v = buf[from + i];
            buf[to + i] = v;
            i = i + 1;
        }
    } else {
        let mut i: usize = n;
        while i > 0
            invariant
                to >= from,
                i <= n,
                buf@.len() == _len,
                to + n <= buf@.len(),
                from + n <= buf@.len(),
                buf@.len() == old(buf)@.len(),
                forall|k: int| to + i <= k < to + n ==> #[trigger] buf@[k] == old(buf)@[k - to + from],
                forall|k: int| 0 <= k < buf@.len() && !(to + i <= k < to + n) ==> buf@[k] == old(buf)@[k],
            decreases i,
        {
            i = i - 1;
            let v = buf[from + i];
            buf[to + i] = v;
        }
    }
}

/// The index of the first byte where `a` and `b` differ within `n`, if any.
pub open spec fn first_diff(a: Seq<u8>, b: Seq<u8>, n: int) -> Option<int> {
    if exists|k: int| 0 <= k < n && a[k] != b[k] {
        Some(choose|k: int| 0 <= k < n && a[k] != b[k] && forall|j: int| 0 <= j < k ==> a[j] == b[j])
    } else {
        None
    }
}

/// Compare `a[..n]` with `b[..n]`: the difference of the first differing
/// bytes, or 0.
pub fn memory_compare(a: &[u8], b: &[u8], n: usize) -> (r: i32)
    requires
        n <= a@.len(),
        n <= b@.len(),
    ensures
        (forall|k: int| 0 <= k < n ==> a@[k] == b@[k]) ==> r == 0,
        forall|k: int| 0 <= k < n && a@[k] != b@[k] && (forall|j: int| 0 <= j < k ==> a@[j] == b@[j])
            ==> r == a@[k] as i32 - b@[k] as i32,
{
    let mut i: usize = 0;
    while i < n
        invariant
            i <= n <= a@.len(),
            n <= b@.len(),
            forall|j: int| 0 <= j < i ==> a@[j] == b@[j],
        decreases n - i,
    {
        let (x, y) = (a[i], b[i]);
        if x != y {
            proof {
                assert forall|k: int| 0 <= k < n && a@[k] != b@[k] && (forall|j: int| 0 <= j < k ==> a@[j] == b@[j])
                    implies k == i by {
                    if k < i { assert(a@[k] == b@[k]); }
                    if k > i { assert(a@[i as int] == b@[i as int]); }
                }
            }
            return x as i32 - y as i32;
        }
        i = i + 1;
    }
    0
}

/// `a + b` wrapped to `usize`, as the runtime's counters add.
pub open spec fn wrap(a: usize, b: int) -> usize {
    if a + b > usize::MAX { (a + b - (usize::MAX + 1)) as usize } else { (a + b) as usize }
}

/// Block alignment.
pub const ALIGN: usize = 16;
/// Smallest chunk taken from MMAP.
pub const MIN_CHUNK: usize = 0x10_0000;

/// The bump heap: the current chunk (base 0 before the first) with its
/// capacity and fill, and the accounting the runtime reports.
#[derive(Clone, Copy, PartialEq, Eq, Debug, Structural)]
pub struct BumpHeap {
    pub base: usize,
    pub off: usize,
    pub cap: usize,
    pub allocated: usize,
    pub committed: usize,
    pub chunks: usize,
    pub count: usize,
}

/// `v` rounded up to a multiple of 16.
pub open spec fn align16(v: int) -> int {
    ((v + 15) / 16) * 16
}

/// The request size the heap serves: 0 counts as 1.
pub open spec fn served(size: int) -> int {
    if size == 0 { 1 } else { size }
}

/// The chunk size for a request that does not fit: 1 MiB, or the request
/// plus 16 rounded up to whole pages when that is larger.
pub open spec fn chunk_for(size: int) -> int {
    let want = served(size) + 16;
    if want > MIN_CHUNK { ((want + 4095) / 4096) * 4096 } else { MIN_CHUNK as int }
}

/// What an allocation needs.
#[derive(Clone, Copy, PartialEq, Eq, Debug, Structural)]
pub enum Fit {
    /// Serve it at this offset of the current chunk.
    At(usize),
    /// Map a chunk of this many bytes first (READ | WRITE), then
    /// [`BumpHeap::grow`].
    Grow(usize),
}

/// Largest request the heap takes (keeps every sum in range).
pub const MAX_REQUEST: usize = 0x1000_0000;

impl BumpHeap {
    /// An empty heap, before the first chunk.
    pub fn new() -> (h: BumpHeap)
        ensures
            h == (BumpHeap { base: 0, off: 0, cap: 0, allocated: 0, committed: 0, chunks: 0, count: 0 }),
    {
        BumpHeap { base: 0, off: 0, cap: 0, allocated: 0, committed: 0, chunks: 0, count: 0 }
    }

    /// The fill never passes the capacity, and the chunk lies in the
    /// address space.
    pub open spec fn wf(&self) -> bool {
        &&& self.off <= self.cap <= MAX_REQUEST * 2
        &&& self.base + self.cap <= usize::MAX
    }

    /// Where a request of `size` bytes goes: at the fill rounded up to 16 in
    /// the current chunk when it fits, else into a fresh chunk.
    pub fn fit(&self, size: usize) -> (f: Fit)
        requires
            self.wf(),
            size <= MAX_REQUEST,
        ensures
            ({
                let off = align16(self.off as int);
                if self.base == 0 || off + served(size as int) > self.cap {
                    f == Fit::Grow(chunk_for(size as int) as usize)
                } else {
                    f == Fit::At(off as usize)
                }
            }),
    {
        let size = if size == 0 { 1 } else { size };
        let off = (self.off + ALIGN - 1) / ALIGN * ALIGN;
        if self.base == 0 || off + size > self.cap {
            let want = size + ALIGN;
            let chunk = if want > MIN_CHUNK { (want + 4095) / 4096 * 4096 } else { MIN_CHUNK };
            Fit::Grow(chunk)
        } else {
            Fit::At(off)
        }
    }

    /// Install a chunk MMAP returned (`base`); a failed map (0 or an error
    /// code at the top of the range) leaves the heap as it was and answers
    /// `false`.
    pub fn grow(&mut self, base: u64, chunk: usize) -> (ok: bool)
        requires
            old(self).wf(),
            MIN_CHUNK <= chunk <= MAX_REQUEST * 2,
        ensures
            ok == (base != 0 && base < u64::MAX - 1 && base + chunk <= usize::MAX),
            !ok ==> *final(self) == *old(self),
            ok ==> *final(self) == (BumpHeap { base: base as usize, off: 0, cap: chunk,
                committed: wrap(old(self).committed, chunk as int), chunks: wrap(old(self).chunks, 1), ..*old(self) }),
            final(self).wf(),
    {
        if base >= u64::MAX - 1 || base == 0 {
            return false;
        }
        if base > (usize::MAX - chunk) as u64 {
            return false;
        }
        self.base = base as usize;
        self.cap = chunk;
        self.off = 0;
        self.committed = self.committed.wrapping_add(chunk);
        self.chunks = self.chunks.wrapping_add(1);
        true
    }

    /// Hand out `size` bytes at `off` (from [`fit`](Self::fit)): the
    /// block's address.
    pub fn take(&mut self, off: usize, size: usize) -> (addr: usize)
        requires
            old(self).wf(),
            old(self).base != 0,
            size <= MAX_REQUEST,
            old(self).off <= off,
            off + served(size as int) <= old(self).cap,
        ensures
            addr == old(self).base + off,
            *final(self) == (BumpHeap { off: (off + served(size as int)) as usize,
                allocated: wrap(old(self).allocated, served(size as int)),
                count: wrap(old(self).count, 1), ..*old(self) }),
    {
        let size = if size == 0 { 1 } else { size };
        self.allocated = self.allocated.wrapping_add(size);
        self.count = self.count.wrapping_add(1);
        self.off = off + size;
        self.base + off
    }

    /// The statistics the runtime reports: bytes handed out, bytes mapped,
    /// chunks, allocations, and the free bytes of the current chunk.
    pub fn stats(&self) -> (s: [u64; 5])
        ensures
            s@ == seq![self.allocated as u64, self.committed as u64, self.chunks as u64, self.count as u64,
                (if self.cap >= self.off { self.cap - self.off } else { 0 }) as u64],
    {
        let free = if self.cap >= self.off { self.cap - self.off } else { 0 };
        let s = [self.allocated as u64, self.committed as u64, self.chunks as u64, self.count as u64, free as u64];
        assert(s@ =~= seq![self.allocated as u64, self.committed as u64, self.chunks as u64, self.count as u64,
            (if self.cap >= self.off { self.cap - self.off } else { 0 }) as u64]);
        s
    }
}

/// Blocks handed out one after the other from the same chunk do not
/// overlap: the second starts at or after the end of the first.
pub proof fn lemma_blocks_disjoint(h: BumpHeap, off1: usize, size1: usize, off2: usize)
    requires
        h.off <= off1,
        off2 >= align16((off1 + served(size1 as int)) as int),
    ensures
        h.base + off1 + served(size1 as int) <= h.base + off2,
{
    assert(align16((off1 + served(size1 as int)) as int) >= off1 + served(size1 as int)) by (nonlinear_arith);
}

} // verus!
