//! PCI configuration space: the addresses its registers are reached at and
//! the fields a device's registers hold.
use vstd::prelude::*;

verus! {

/// The port configuration addresses are written to.
pub const PCI_CONFIG_PORT: u16 = 0xCF8;

/// The port configuration data is read from.
pub const PCI_DATA_PORT: u16 = 0xCFC;

/// The configuration address of register `offset` of function `func` of
/// device `device` on bus `bus`: the enable bit, the bus, device and
/// function numbers, and the offset with its low two bits cleared.
pub open spec fn config_address(bus: u8, device: u8, func: u8, offset: u8) -> u32 {
    0x8000_0000u32 | ((bus as u32) << 16u32) | ((device as u32) << 11u32) | ((func as u32) << 8u32) | ((offset & 0xFC) as u32)
}

/// The address written to `PCI_CONFIG_PORT` to read a register.
pub fn pci_config_address(bus: u8, device: u8, func: u8, offset: u8) -> (r: u32)
    ensures
        r == config_address(bus, device, func, offset),
{
    let mut address: u32 = 0;
    address = address | (1u32 << 31u32);
    address = address | ((bus as u32) << 16);
    address = address | ((device as u32) << 11);
    address = address | ((func as u32) << 8);
    address = address | ((offset & 0xFC) as u32);
    proof {
        assert(1u32 << 31u32 == 0x8000_0000u32) by (bit_vector);
        assert((0u32 | 0x8000_0000u32) == 0x8000_0000u32) by (bit_vector);
    }
    address
}

/// The register value read at `offset`, given the double word `data` read
/// from `PCI_DATA_PORT`: shifted down a half when the offset names the upper
/// half.
pub fn pci_config_value(data: u32, offset: u8) -> (r: u32)
    ensures
        r == data >> (((offset & 2) * 8) as u32),
{
    let half = offset & 2;
    proof {
        assert(offset & 2 <= 2) by (bit_vector);
    }
    data >> ((half * 8) as u32)
}

/// The configuration addresses of a function's six base address registers,
/// at offsets 0x10 to 0x24; each is read through `PCI_DATA_PORT`.
pub fn get_pci_bar_addresses(bus: u8, device: u8, func: u8) -> (r: Vec<u32>)
    ensures
        r@ == seq![
            config_address(bus, device, func, 0x10), config_address(bus, device, func, 0x14),
            config_address(bus, device, func, 0x18), config_address(bus, device, func, 0x1C),
            config_address(bus, device, func, 0x20), config_address(bus, device, func, 0x24),
        ],
{
    let mut r: Vec<u32> = Vec::new();
    r.push(pci_config_address(bus, device, func, 0x10));
    r.push(pci_config_address(bus, device, func, 0x14));
    r.push(pci_config_address(bus, device, func, 0x18));
    r.push(pci_config_address(bus, device, func, 0x1C));
    r.push(pci_config_address(bus, device, func, 0x20));
    r.push(pci_config_address(bus, device, func, 0x24));
    r
}

/// A PCI function and the identification its registers give.
#[derive(Clone, Copy, Debug, PartialEq, Eq, Structural)]
pub struct PciDevice {
    pub bus: u8,
    pub device: u8,
    pub func: u8,
    pub device_id: u16,
    pub vendor_id: u16,
    pub class_code: u8,
    pub subclass_code: u8,
    pub prog_if: u8,
    pub revision_id: u8,
}

impl PciDevice {
    /// The function `func` of device `device` on bus `bus`, whose registers
    /// at offsets 0 and 8 hold `reg0` and `reg8`: vendor and device in the
    /// first, revision, programming interface, subclass and class in the
    /// second, from the low byte up.
    pub fn new(bus: u8, device: u8, func: u8, reg0: u32, reg8: u32) -> (r: PciDevice)
        ensures
            r.bus == bus && r.device == device && r.func == func,
            r.vendor_id == reg0 & 0xFFFF,
            r.device_id == (reg0 >> 16u32) & 0xFFFF,
            r.revision_id == reg8 & 0xFF,
            r.prog_if == (reg8 >> 8u32) & 0xFF,
            r.subclass_code == (reg8 >> 16u32) & 0xFF,
            r.class_code == (reg8 >> 24u32) & 0xFF,
    {
        proof {
            assert(reg0 & 0xFFFF <= 0xFFFF && (reg0 >> 16u32) & 0xFFFF <= 0xFFFF) by (bit_vector);
            assert(reg8 & 0xFF <= 0xFF && (reg8 >> 8u32) & 0xFF <= 0xFF && (reg8 >> 16u32) & 0xFF <= 0xFF
                && (reg8 >> 24u32) & 0xFF <= 0xFF) by (bit_vector);
        }
        PciDevice {
            bus,
            device,
            func,
            vendor_id: (reg0 & 0xFFFF) as u16,
            device_id: ((reg0 >> 16) & 0xFFFF) as u16,
            class_code: ((reg8 >> 24) & 0xFF) as u8,
            subclass_code: ((reg8 >> 16) & 0xFF) as u8,
            prog_if: ((reg8 >> 8) & 0xFF) as u8,
            revision_id: (reg8 & 0xFF) as u8,
        }
    }
}

/// The functions of a device that are recorded, given the vendor
/// identifiers of its eight functions and the header type of its first: none
/// when the first function is absent (vendor 0xFFFF); else the first, and,
/// for a multi-function device (bit 7 of the header type), every other
/// function present.
pub open spec fn device_functions(vendor_ids: Seq<u16>, header_type: u8) -> Seq<u8> {
    if vendor_ids[0] == 0xFFFF {
        Seq::empty()
    } else if header_type & 0x80 == 0 {
        seq![0u8]
    } else {
        seq![0u8] + Seq::new(7, |i: int| (i + 1) as u8).filter(|f: u8| vendor_ids[f as int] != 0xFFFF)
    }
}

/// The functions of a device to record, as `device_functions` says.
pub fn check_device(vendor_ids: &[u16; 8], header_type: u8) -> (r: Vec<u8>)
    ensures
        r@ == device_functions(vendor_ids@, header_type),
{
    let mut r: Vec<u8> = Vec::new();
    if vendor_ids[0] == 0xFFFF {
        return r;
    }
    r.push(0);
    if header_type & 0x80 != 0 {
        let ghost fs = Seq::new(7, |i: int| (i + 1) as u8);
        let mut func: u8 = 1;
        while func < 8
            invariant
                1 <= func <= 8,
                vendor_ids@.len() == 8,
                fs == Seq::new(7, |i: int| (i + 1) as u8),
                r@ == seq![0u8] + fs.subrange(0, func - 1).filter(|f: u8| vendor_ids@[f as int] != 0xFFFF),
            decreases 8 - func,
        {
            proof {
                let pre = fs.subrange(0, func as int);
                assert(pre.drop_last() =~= fs.subrange(0, func - 1));
                assert(pre.last() == func);
                reveal(Seq::filter);
            }
            if vendor_ids[func as usize] != 0xFFFF {
                r.push(func);
            }
            proof {
                reveal(Seq::filter);
                assert(r@ =~= seq![0u8] + fs.subrange(0, func as int).filter(|f: u8| vendor_ids@[f as int] != 0xFFFF));
            }
            func = func + 1;
        }
        proof {
            assert(fs.subrange(0, 7) =~= fs);
        }
    }
    r
}

/// Whether a function is a PCI-to-PCI bridge, whose secondary bus is then
/// scanned: class 6, subclass 4.
pub fn check_function(class_code: u8, subclass_code: u8) -> (r: bool)
    ensures
        r == (class_code == 0x06 && subclass_code == 0x04),
{
    class_code == 0x06 && subclass_code == 0x04
}

/// The buses scanned first, given the header type of bus 0's host bridge
/// and the vendor identifiers of its eight functions: bus 0 alone for a
/// single host controller; else the functions numbered before the first
/// one present, each naming a bus.
pub open spec fn host_buses(header_type: u8, vendor_ids: Seq<u16>) -> Seq<u8> {
    if header_type & 0x80 == 0 {
        seq![0u8]
    } else {
        let n = if exists|k: int| 0 <= k < 8 && vendor_ids[k] != 0xFFFF {
            choose|k: int| 0 <= k < 8 && vendor_ids[k] != 0xFFFF && forall|j: int| 0 <= j < k ==> vendor_ids[j] == 0xFFFF
        } else {
            8
        };
        Seq::new(n as nat, |i: int| i as u8)
    }
}

/// The buses to scan first, as `host_buses` says.
pub fn enumerate_pci_bus(header_type: u8, vendor_ids: &[u16; 8]) -> (r: Vec<u8>)
    ensures
        r@ == host_buses(header_type, vendor_ids@),
{
    let mut r: Vec<u8> = Vec::new();
    if header_type & 0x80 == 0 {
        r.push(0);
        return r;
    }
    let mut function: u8 = 0;
    while function < 8
        invariant
            0 <= function <= 8,
            vendor_ids@.len() == 8,
            header_type & 0x80 != 0,
            forall|j: int| 0 <= j < function ==> vendor_ids@[j] == 0xFFFF,
            r@ == Seq::new(function as nat, |i: int| i as u8),
        decreases 8 - function,
    {
        if vendor_ids[function as usize] != 0xFFFF {
            proof {
                let k = function as int;
                assert(vendor_ids@[k] != 0xFFFF);
                let c = choose|k: int| 0 <= k < 8 && vendor_ids@[k] != 0xFFFF && forall|j: int| 0 <= j < k ==> vendor_ids@[j] == 0xFFFF;
                assert(c == k) by {
                    if c < k {
                        assert(vendor_ids@[c] == 0xFFFF);
                    } else if c > k {
                        assert(vendor_ids@[k] == 0xFFFF);
                    }
                }
            }
            return r;
        }
        r.push(function);
        proof {
            assert(r@ =~= Seq::new((function + 1) as nat, |i: int| i as u8));
        }
        function = function + 1;
    }
    r
}

} // verus!
