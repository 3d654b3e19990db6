//! Driver framework: the block-device interface that storage drivers
//! implement and filesystems consume, and the registry drivers publish into.

use vstd::prelude::*;

verus! {

/// Bytes per sector.
pub const SECTOR_SIZE: usize = 512;

/// A sector-addressed storage device. Its contents are modelled as a
/// sequence of 512-byte sectors.
pub trait BlockDevice {
    /// The device contents, one entry per sector.
    spec fn sectors(&self) -> Seq<Seq<u8>>;

    /// Every sector holds exactly 512 bytes.
    spec fn wf(&self) -> bool;

    /// The device answers every read of an existing sector.
    spec fn reads_ok(&self) -> bool;

    /// A human-readable device name.
    fn name(&self) -> String;

    /// Number of sectors.
    fn sector_count(&self) -> (n: u64)
        requires
            self.wf(),
        ensures
            n == self.sectors().len();

    /// Read one sector. On success `buf` holds sector `lba`.
    fn read_sector(&mut self, lba: u64, buf: &mut [u8; SECTOR_SIZE]) -> (r: Result<(), &'static str>)
        requires
            old(self).wf(),
        ensures
            final(self).wf(),
            final(self).sectors() == old(self).sectors(),
            final(self).reads_ok() == old(self).reads_ok(),
            r is Ok ==> lba < old(self).sectors().len() && final(buf)@ == old(self).sectors()[lba as int],
            old(self).reads_ok() && lba < old(self).sectors().len() ==> r is Ok;

    /// Write one sector. Default: read-only device.
    fn write_sector(&mut self, lba: u64, buf: &[u8; SECTOR_SIZE]) -> (r: Result<(), &'static str>)
        requires
            old(self).wf(),
        ensures
            final(self).wf(),
            r is Ok ==> lba < old(self).sectors().len() && final(self).sectors() == old(self).sectors().update(lba as int, buf@),
            r is Err ==> final(self).sectors() == old(self).sectors(),
            final(self).reads_ok() == old(self).reads_ok(),
    {
        Err("block device is read-only")
    }
}

/// The registry of block devices, in registration order.
pub struct BlockRegistry<D> {
    pub devices: Vec<D>,
}

impl<D> BlockRegistry<D> {
    /// An empty registry.
    pub fn new() -> (r: BlockRegistry<D>)
        ensures
            r.devices@.len() == 0,
    {
        BlockRegistry { devices: Vec::new() }
    }
}

/// Publish a device (after the edge has logged its name and size).
pub fn register_block_device<D>(r: &mut BlockRegistry<D>, dev: D)
    ensures
        final(r).devices@ == old(r).devices@.push(dev),
{
    r.devices.push(dev);
}

/// Number of registered block devices.
pub fn block_device_count<D>(r: &BlockRegistry<D>) -> (n: usize)
    ensures
        n == r.devices@.len(),
{
    r.devices.len()
}

/// The first registered block device, if any.
pub fn with_boot_block_device<D>(r: &mut BlockRegistry<D>) -> (d: Option<&mut D>)
    ensures
        old(r).devices@.len() == 0 <==> d is None,
        d is Some ==> *d->0 == old(r).devices@[0],
{
    if r.devices.len() == 0 {
        None
    } else {
        r.devices.first_mut()
    }
}

/// Remove and return the first registered block device (transfers
/// ownership, e.g. to the VFS). `None` if the registry is empty.
pub fn take_boot_block_device<D>(r: &mut BlockRegistry<D>) -> (d: Option<D>)
    ensures
        old(r).devices@.len() == 0 ==> d is None && final(r).devices@ == old(r).devices@,
        old(r).devices@.len() > 0 ==> d == Some(old(r).devices@[0]) && final(r).devices@ == old(r).devices@.remove(0),
{
    if r.devices.len() == 0 {
        None
    } else {
        Some(r.devices.remove(0))
    }
}

} // verus!
