//! Decision logic of the PCI bus scan: the configuration-space address
//! encoding and the classification of discovered devices. The two
//! configuration ports themselves live in the hardware layer.

use vstd::prelude::*;

verus! {

/// The fields of one discovered PCI function, read from its configuration
/// space.
#[derive(Debug, Clone, Copy, PartialEq, Eq, Structural)]
pub struct PciDevice {
    /// Device class.
    pub class_id: u8,
    /// Subclass within the class.
    pub subclass_id: u8,
    /// Programming interface.
    pub interface_id: u8,
    /// Vendor code.
    pub vendor_code: u16,
    /// Device code.
    pub device_code: u16,
    /// Header type.
    pub header_type: u8,
}

/// The configuration-space address word for `(bus, slot, func, offset)`: the
/// enable bit, then bus, slot and function, with the register offset aligned
/// down to a word.
pub open spec fn spec_config_address(bus: u8, slot: u8, func: u8, offset: u8) -> u32 {
    (1u32 << 31) | ((bus as u32) << 16) | ((slot as u32) << 11) | ((func as u32) << 8) | ((
    offset as u32) & 0xfc)
}

/// Encodes the address to write to the configuration address port before
/// touching the configuration data port.
pub fn config_address(bus: u8, slot: u8, func: u8, offset: u8) -> (r: u32)
    ensures
        r == spec_config_address(bus, slot, func, offset),
{
    (1u32 << 31) | ((bus as u32) << 16) | ((slot as u32) << 11) | ((func as u32) << 8) | ((
    offset as u32) & 0xfc)
}

/// Builds the device record from the three configuration words the scan
/// reads: the identification word, the class word, and the word holding the
/// header type.
pub fn parse_pci_device(id: u32, class: u32, bist: u32) -> (r: PciDevice)
    ensures
        r.class_id == ((class >> 24) & 0xff) as u8,
        r.subclass_id == ((class >> 16) & 0xff) as u8,
        r.interface_id == ((class >> 8) & 0xff) as u8,
        r.vendor_code == (id & 0xffff) as u16,
        r.device_code == ((id >> 16) & 0xffff) as u16,
        r.header_type == ((bist >> 16) & 0xff) as u8,
{
    proof {
        assert(((class >> 24) & 0xff) < 256 && ((class >> 16) & 0xff) < 256 && ((class >> 8)
            & 0xff) < 256 && (id & 0xffff) < 65536 && ((id >> 16) & 0xffff) < 65536 && ((bist
            >> 16) & 0xff) < 256) by (bit_vector);
    }
    PciDevice {
        class_id: ((class >> 24) & 0xff) as u8,
        subclass_id: ((class >> 16) & 0xff) as u8,
        interface_id: ((class >> 8) & 0xff) as u8,
        vendor_code: (id & 0xffff) as u16,
        device_code: ((id >> 16) & 0xffff) as u16,
        header_type: ((bist >> 16) & 0xff) as u8,
    }
}

/// The human-readable name of a device class and subclass.
pub open spec fn spec_device_class_name(class_id: u8, subclass_id: u8) -> Seq<char> {
    if class_id == 1 {
        if subclass_id == 1 {
            "IDE"@
        } else if subclass_id == 2 {
            "Floppy Disk"@
        } else if subclass_id == 5 {
            "ATA"@
        } else if subclass_id == 6 {
            "SATA"@
        } else {
            "Unknown Mass Storage"@
        }
    } else if class_id == 2 {
        if subclass_id == 0 {
            "Ethernet"@
        } else {
            "Unknown Network Device"@
        }
    } else if class_id == 3 {
        if subclass_id == 0 {
            "VGA Controller"@
        } else {
            "Display Controller"@
        }
    } else if class_id == 4 {
        "Multimedia Controller"@
    } else if class_id == 5 {
        "Memory Controller"@
    } else if class_id == 6 {
        "Bridge Device"@
    } else {
        "Unknown Device"@
    }
}

/// Names the device class the scan prints for a discovered function.
pub fn device_class_name(class_id: u8, subclass_id: u8) -> (r: &'static str)
    ensures
        r@ == spec_device_class_name(class_id, subclass_id),
{
    if class_id == 1 {
        if subclass_id == 1 {
            "IDE"
        } else if subclass_id == 2 {
            "Floppy Disk"
        } else if subclass_id == 5 {
            "ATA"
        } else if subclass_id == 6 {
            "SATA"
        } else {
            "Unknown Mass Storage"
        }
    } else if class_id == 2 {
        if subclass_id == 0 {
            "Ethernet"
        } else {
            "Unknown Network Device"
        }
    } else if class_id == 3 {
        if subclass_id == 0 {
            "VGA Controller"
        } else {
            "Display Controller"
        }
    } else if class_id == 4 {
        "Multimedia Controller"
    } else if class_id == 5 {
        "Memory Controller"
    } else if class_id == 6 {
        "Bridge Device"
    } else {
        "Unknown Device"
    }
}

/// True when the identification word denotes a present function.
pub fn pci_function_present(id: u32) -> (r: bool)
    ensures
        r == (id & 0xffff != 0xffff),
{
    (id & 0xffff) != 0xffff
}

} // verus!
