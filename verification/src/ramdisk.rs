//! Heap-backed RAM block device: a read/write volume that is deterministic
//! across boots.

use vstd::prelude::*;
use crate::driver::{BlockDevice, SECTOR_SIZE};

verus! {

/// A RAM disk of whole 512-byte sectors.
pub struct RamDisk {
    name: String,
    data: Vec<u8>,
}

/// Sector `i` of a byte image.
pub open spec fn sector_of(data: Seq<u8>, i: int) -> Seq<u8> {
    data.subrange(i * 512, i * 512 + 512)
}

impl RamDisk {
    /// The raw image.
    pub closed spec fn bytes(&self) -> Seq<u8> {
        self.data@
    }

    /// The device name it was created with.
    pub closed spec fn label(&self) -> Seq<char> {
        self.name@
    }

    /// A zero-filled disk of `sectors` sectors.
    pub fn new(name: &str, sectors: usize) -> (d: RamDisk)
        requires
            sectors * 512 <= usize::MAX,
        ensures
            d.wf(),
            d.label() == name@,
            d.sectors().len() == sectors,
            forall|i: int, k: int| 0 <= i < sectors && 0 <= k < 512 ==> #[trigger] d.sectors()[i][k] == 0u8,
    {
        let d = RamDisk { name: crate::text::owned(name), data: vec![0u8; sectors * SECTOR_SIZE] };
        proof {
            assert forall|i: int, k: int| 0 <= i < sectors && 0 <= k < 512 implies #[trigger] d.sectors()[i][k] == 0u8 by {
                assert(d.sectors()[i] == sector_of(d.data@, i));
                assert(0 <= i * 512 + k < sectors * 512) by (nonlinear_arith)
                    requires 0 <= i < sectors, 0 <= k < 512;
            }
            assert((sectors * 512) / 512 == sectors) by (nonlinear_arith);
        }
        d
    }
}

impl BlockDevice for RamDisk {
    open spec fn sectors(&self) -> Seq<Seq<u8>> {
        Seq::new(self.bytes().len() / 512, |i: int| sector_of(self.bytes(), i))
    }

    open spec fn wf(&self) -> bool {
        self.bytes().len() % 512 == 0
    }

    open spec fn reads_ok(&self) -> bool {
        true
    }

    fn name(&self) -> (s: String)
        ensures
            s@ == "ramdisk:"@ + self.label(),
    {
        let mut s = crate::text::owned("ramdisk:");
        crate::text::push_str(&mut s, self.name.as_str());
        s
    }

    fn sector_count(&self) -> (n: u64) {
        (self.data.len() / SECTOR_SIZE) as u64
    }

    fn read_sector(&mut self, lba: u64, buf: &mut [u8; SECTOR_SIZE]) -> (r: Result<(), &'static str>)
        ensures
            (r is Ok) == (lba < old(self).sectors().len()),
            r is Err ==> r == Err::<(), &'static str>("ramdisk read out of range"),
            final(self).label() == old(self).label(),
    {
        let len = self.data.len();
        if lba >= (len / SECTOR_SIZE) as u64 {
            return Err("ramdisk read out of range");
        }
        let start = lba as usize * SECTOR_SIZE;
        proof {
            assert(start + 512 <= len) by (nonlinear_arith)
                requires lba < len / 512, start == lba * 512;
        }
        let mut i: usize = 0;
        while i < SECTOR_SIZE
            invariant
                i <= 512,
                start + 512 <= self.data@.len(),
                self.data@.len() == len,
                forall|k: int| 0 <= k < i ==> buf@[k] == self.data@[start + k],
            decreases 512 - i,
        {
            buf[i] = self.data[start + i];
            i = i + 1;
        }
        assert(buf@ =~= self.sectors()[lba as int]);
        Ok(())
    }

    fn write_sector(&mut self, lba: u64, buf: &[u8; SECTOR_SIZE]) -> (r: Result<(), &'static str>)
        ensures
            (r is Ok) == (lba < old(self).sectors().len()),
            r is Err ==> r == Err::<(), &'static str>("ramdisk write out of range"),
            final(self).label() == old(self).label(),
    {
        let len = self.data.len();
        if lba >= (len / SECTOR_SIZE) as u64 {
            return Err("ramdisk write out of range");
        }
        let start = lba as usize * SECTOR_SIZE;
        proof {
            assert(start + 512 <= len) by (nonlinear_arith)
                requires lba < len / 512, start == lba * 512;
        }
        let ghost before = self.data@;
        let mut i: usize = 0;
        while i < SECTOR_SIZE
            invariant
                i <= 512,
                start + 512 <= self.data@.len(),
                self.data@.len() == len,
                before.len() == len,
                self.name == old(self).name,
                start == lba * 512,
                forall|k: int| 0 <= k < i ==> self.data@[start + k] == buf@[k],
                forall|k: int| 0 <= k < len && !(start <= k < start + i) ==> self.data@[k] == before[k],
            decreases 512 - i,
        {
            self.data.set(start + i, buf[i]);
            i = i + 1;
        }
        proof {
            let old_s = Seq::new(before.len() / 512, |j: int| sector_of(before, j));
            assert forall|j: int| 0 <= j < self.sectors().len() implies #[trigger] self.sectors()[j]
                == old_s.update(lba as int, buf@)[j] by {
                if j == lba as int {
                    assert(self.sectors()[j] =~= buf@);
                } else {
                    assert forall|k: int| 0 <= k < 512 implies self.sectors()[j][k] == old_s[j][k] by {
                        assert(0 <= j * 512 + k < len) by (nonlinear_arith)
                            requires 0 <= j < len / 512, 0 <= k < 512;
                        if j < lba as int {
                            assert(j * 512 + k < start) by (nonlinear_arith)
                                requires j < lba, k < 512, start == lba * 512;
                        } else {
                            assert(j * 512 + k >= start + 512) by (nonlinear_arith)
                                requires j > lba, k >= 0, start == lba * 512;
                        }
                    }
                    assert(self.sectors()[j] =~= old_s[j]);
                }
            }
            assert(self.sectors() =~= old_s.update(lba as int, buf@));
        }
        Ok(())
    }
}

/// Allocate a ramdisk with `sectors` 512-byte sectors.
pub fn new(name: &str, sectors: usize) -> (d: RamDisk)
    requires
        sectors * 512 <= usize::MAX,
    ensures
        d.wf(),
        d.label() == name@,
        d.sectors().len() == sectors,
        forall|i: int, k: int| 0 <= i < sectors && 0 <= k < 512 ==> #[trigger] d.sectors()[i][k] == 0u8,
{
    RamDisk::new(name, sectors)
}

/// Law: reading a sector back returns what was last written to it.
pub proof fn lemma_write_then_read(before: Seq<Seq<u8>>, lba: int, data: Seq<u8>)
    requires
        0 <= lba < before.len(),
    ensures
        before.update(lba, data)[lba] == data,
        forall|j: int| 0 <= j < before.len() && j != lba ==> #[trigger] before.update(lba, data)[j] == before[j],
{
}

} // verus!
