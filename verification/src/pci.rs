//! PCI configuration-space decoding: device records, class names and the
//! legacy configuration address. The port I/O that reads the registers stays
//! at the hardware edge.

use vstd::prelude::*;

verus! {

/// A PCI function found on the bus.
#[derive(Debug, Clone, Copy)]
pub struct PciDevice {
    pub bus: u8,
    pub slot: u8,
    pub function: u8,
    pub vendor_id: u16,
    pub device_id: u16,
    pub class: u8,
    pub subclass: u8,
    pub prog_if: u8,
}

/// The human-readable name of a (class, subclass) pair.
pub open spec fn class_name_spec(class: u8, subclass: u8) -> Seq<char> {
    if class == 0x01 && subclass == 0x01 { "IDE controller"@ }
    else if class == 0x01 && subclass == 0x06 { "SATA/AHCI controller"@ }
    else if class == 0x01 && subclass == 0x08 { "NVMe controller"@ }
    else if class == 0x01 { "storage controller"@ }
    else if class == 0x02 { "network controller"@ }
    else if class == 0x03 { "display controller"@ }
    else if class == 0x04 { "multimedia controller"@ }
    else if class == 0x06 && subclass == 0x00 { "host bridge"@ }
    else if class == 0x06 && subclass == 0x01 { "ISA bridge"@ }
    else if class == 0x06 { "bridge"@ }
    else if class == 0x0C && subclass == 0x03 { "USB controller"@ }
    else { "device"@ }
}

impl PciDevice {
    /// The human-readable class name of this device.
    pub fn class_name(&self) -> (n: &'static str)
        ensures
            n@ == class_name_spec(self.class, self.subclass),
    {
        let (c, s) = (self.class, self.subclass);
        if c == 0x01 && s == 0x01 {
            "IDE controller"
        } else if c == 0x01 && s == 0x06 {
            "SATA/AHCI controller"
        } else if c == 0x01 && s == 0x08 {
            "NVMe controller"
        } else if c == 0x01 {
            "storage controller"
        } else if c == 0x02 {
            "network controller"
        } else if c == 0x03 {
            "display controller"
        } else if c == 0x04 {
            "multimedia controller"
        } else if c == 0x06 && s == 0x00 {
            "host bridge"
        } else if c == 0x06 && s == 0x01 {
            "ISA bridge"
        } else if c == 0x06 {
            "bridge"
        } else if c == 0x0C && s == 0x03 {
            "USB controller"
        } else {
            "device"
        }
    }
}

/// The legacy `0xCF8` configuration address selecting a dword register.
pub fn config_address(bus: u8, slot: u8, function: u8, offset: u8) -> (a: u32)
    ensures
        a == 0x8000_0000u32 | ((bus as u32) << 16) | ((slot as u32) << 11) | ((function as u32) << 8)
            | ((offset as u32) & 0xFC),
{
    0x8000_0000u32 | ((bus as u32) << 16) | ((slot as u32) << 11) | ((function as u32) << 8) | ((offset as u32) & 0xFC)
}

/// Build a device record from its identification dword (`id`, register 0)
/// and class dword (`class_reg`, register 8). Vendor `0xFFFF` means no
/// device answers at that position.
pub fn probe(bus: u8, slot: u8, function: u8, id: u32, class_reg: u32) -> (d: Option<PciDevice>)
    ensures
        (id & 0xFFFF) == 0xFFFF <==> d is None,
        d is Some ==> d->0 == (PciDevice {
            bus,
            slot,
            function,
            vendor_id: (id & 0xFFFF) as u16,
            device_id: (id >> 16) as u16,
            class: (class_reg >> 24) as u8,
            subclass: (class_reg >> 16) as u8,
            prog_if: (class_reg >> 8) as u8,
        }),
{
    assert((id & 0xFFFF) <= 0xFFFF) by (bit_vector);
    let vendor_id = (id & 0xFFFF) as u16;
    if vendor_id == 0xFFFF {
        return None;
    }
    Some(PciDevice {
        bus,
        slot,
        function,
        vendor_id,
        device_id: (id >> 16) as u16,
        class: (class_reg >> 24) as u8,
        subclass: (class_reg >> 16) as u8,
        prog_if: (class_reg >> 8) as u8,
    })
}

/// Whether the header-type register (dword at offset 0x0C) marks a
/// multi-function device, whose functions 1..8 are probed too.
pub fn is_multifunction(header_reg: u32) -> (m: bool)
    ensures
        m == (((header_reg >> 16) as u8) & 0x80 != 0),
{
    ((header_reg >> 16) as u8) & 0x80 != 0
}

} // verus!
