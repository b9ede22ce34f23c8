//! PCI configuration space: addressing a register, recognising the AHCI
//! controller and the E1000 network card among the devices of bus 0, and
//! the command register bits the drivers set.
use vstd::prelude::*;

verus! {

/// A PCI function the kernel drives.
#[derive(Clone, Copy, PartialEq, Eq, Structural, Debug)]
pub struct PciDevice {
    pub bus: u8,
    pub device: u8,
    pub function: u8,
    pub vendor_id: u16,
    pub class_code: u8,
    pub subclass: u8,
    pub bar0: u32,
    pub bar1: u32,
    pub bar5: u32,
}

/// The configuration address of register `offset` (rounded down to a dword)
/// of function `func` of device `device` on bus `bus`, with the enable bit.
pub open spec fn config_address_spec(bus: u8, device: u8, func: u8, offset: u8) -> u32 {
    ((bus as u32) << 16u32) | ((device as u32) << 11u32) | ((func as u32) << 8u32) | ((offset as u32) & 0xfc) | 0x8000_0000
}

pub fn config_address(bus: u8, device: u8, func: u8, offset: u8) -> (a: u32)
    ensures
        a == config_address_spec(bus, device, func, offset),
{
    ((bus as u32) << 16u32) | ((device as u32) << 11u32) | ((func as u32) << 8u32) | ((offset as u32) & 0xfc) | 0x8000_0000
}

/// The configuration words the scan reads of one device of bus 0, function 0.
#[derive(Clone, Copy, PartialEq, Eq, Structural, Debug)]
pub struct DeviceConfig {
    /// Offset 0x00: device id (high half) and vendor id (low half).
    pub id: u32,
    /// Offset 0x08: class (top byte), subclass, interface, revision.
    pub class: u32,
    /// Offset 0x10.
    pub bar0: u32,
    /// Offset 0x14.
    pub bar1: u32,
    /// Offset 0x24.
    pub bar5: u32,
}

pub open spec fn present(c: DeviceConfig) -> bool {
    c.id & 0xffff != 0xffff
}

pub open spec fn class_of(c: DeviceConfig) -> u8 {
    (c.class >> 24u32) as u8
}

pub open spec fn subclass_of(c: DeviceConfig) -> u8 {
    (c.class >> 16u32) as u8
}

/// An AHCI controller: mass storage (0x01), SATA (0x06).
pub open spec fn is_ahci(c: DeviceConfig) -> bool {
    present(c) && class_of(c) == 0x01 && subclass_of(c) == 0x06
}

/// An Intel 82540EM network controller (vendor 0x8086, device 0x100E,
/// class 0x02, subclass 0x00).
pub open spec fn is_e1000(c: DeviceConfig) -> bool {
    present(c) && c.id & 0xffff == 0x8086 && (c.id >> 16u32) == 0x100E && class_of(c) == 0x02 && subclass_of(c) == 0x00
}

/// The index of the first device of `cs` that satisfies `p`.
pub open spec fn first_match(cs: Seq<DeviceConfig>, p: spec_fn(DeviceConfig) -> bool) -> Option<int>
    decreases cs.len(),
{
    if cs.len() == 0 {
        None
    } else {
        match first_match(cs.drop_last(), p) {
            Some(i) => Some(i),
            None => if p(cs.last()) { Some(cs.len() - 1) } else { None },
        }
    }
}

proof fn lemma_first_match(cs: Seq<DeviceConfig>, p: spec_fn(DeviceConfig) -> bool)
    ensures
        match first_match(cs, p) {
            Some(i) => 0 <= i < cs.len() && p(cs[i]) && forall|j: int| 0 <= j < i ==> !p(cs[j]),
            None => forall|j: int| 0 <= j < cs.len() ==> !p(cs[j]),
        },
    decreases cs.len(),
{
    if cs.len() > 0 {
        let t = cs.drop_last();
        lemma_first_match(t, p);
        assert(forall|j: int| 0 <= j < t.len() ==> t[j] == cs[j]);
    }
}

/// The AHCI controller among the devices of bus 0 (device `i` of `cs`
/// being device number `i`, at most 32): the first one found, with its
/// ABAR (BAR5) and no other BAR.
pub fn find_ahci_device(cs: &[DeviceConfig]) -> (r: Option<PciDevice>)
    requires
        cs@.len() <= 32,
    ensures
        r == (match first_match(cs@, |c: DeviceConfig| is_ahci(c)) {
            Some(i) => Some(PciDevice {
                bus: 0, device: i as u8, function: 0,
                vendor_id: (cs@[i].id & 0xffff) as u16,
                class_code: 0x01, subclass: 0x06,
                bar0: 0, bar1: 0, bar5: cs@[i].bar5,
            }),
            None => None,
        }),
{
    let ghost p = |c: DeviceConfig| is_ahci(c);
    proof {
        lemma_first_match(cs@, p);
    }
    let mut i: usize = 0;
    while i < cs.len()
        invariant
            i <= cs@.len(),
            cs@.len() <= 32,
            forall|j: int| 0 <= j < i ==> !is_ahci(#[trigger] cs@[j]),
        decreases cs@.len() - i,
    {
        let c = cs[i];
        if (c.id & 0xffff) != 0xffff && (c.class >> 24u32) as u8 == 0x01 && (c.class >> 16u32) as u8 == 0x06 {
            proof {
                let q = |c: DeviceConfig| is_ahci(c);
                lemma_first_match(cs@, q);
                assert(q(cs@[i as int]));
                match first_match(cs@, q) {
                    Some(k) => {
                        if k < i {
                            assert(!is_ahci(cs@[k]));
                        }
                        assert(!(k < i));
                        assert(!(k > i));
                    },
                    None => {},
                }
            }
            return Some(PciDevice {
                bus: 0, device: i as u8, function: 0,
                vendor_id: (c.id & 0xffff) as u16,
                class_code: 0x01, subclass: 0x06,
                bar0: 0, bar1: 0, bar5: c.bar5,
            });
        }
        i = i + 1;
    }
    None
}

/// The E1000 among the devices of bus 0: the first one found, with BAR0
/// and BAR1.
pub fn find_e1000(cs: &[DeviceConfig]) -> (r: Option<PciDevice>)
    requires
        cs@.len() <= 32,
    ensures
        r == (match first_match(cs@, |c: DeviceConfig| is_e1000(c)) {
            Some(i) => Some(PciDevice {
                bus: 0, device: i as u8, function: 0,
                vendor_id: 0x8086,
                class_code: 0x02, subclass: 0x00,
                bar0: cs@[i].bar0, bar1: cs@[i].bar1, bar5: 0,
            }),
            None => None,
        }),
{
    let ghost p = |c: DeviceConfig| is_e1000(c);
    proof {
        lemma_first_match(cs@, p);
    }
    let mut i: usize = 0;
    while i < cs.len()
        invariant
            i <= cs@.len(),
            cs@.len() <= 32,
            forall|j: int| 0 <= j < i ==> !is_e1000(#[trigger] cs@[j]),
        decreases cs@.len() - i,
    {
        let c = cs[i];
        if (c.id & 0xffff) != 0xffff && (c.id & 0xffff) == 0x8086 && (c.id >> 16u32) == 0x100E
            && (c.class >> 24u32) as u8 == 0x02 && (c.class >> 16u32) as u8 == 0x00 {
            proof {
                let q = |c: DeviceConfig| is_e1000(c);
                lemma_first_match(cs@, q);
                assert(q(cs@[i as int]));
                match first_match(cs@, q) {
                    Some(k) => {
                        if k < i {
                            assert(!is_e1000(cs@[k]));
                        }
                        assert(!(k < i));
                        assert(!(k > i));
                    },
                    None => {},
                }
            }
            return Some(PciDevice {
                bus: 0, device: i as u8, function: 0,
                vendor_id: 0x8086,
                class_code: 0x02, subclass: 0x00,
                bar0: c.bar0, bar1: c.bar1, bar5: 0,
            });
        }
        i = i + 1;
    }
    None
}

impl PciDevice {
    /// The command register (offset 0x04) with memory space and bus
    /// master enabled.
    pub fn bus_master_command(&self, cmd: u32) -> (r: u32)
        ensures
            r == cmd | 0x06,
    {
        cmd | 0x06
    }

    /// The memory-mapped register base: BAR0 without its four flag bits,
    /// with BAR1 as the high half.
    pub fn get_mmio_base(&self) -> (b: u64)
        ensures
            b == ((self.bar1 as u64) << 32u64) | ((self.bar0 & 0xFFFF_FFF0) as u64),
    {
        let low = (self.bar0 & 0xFFFF_FFF0) as u64;
        let high = (self.bar1 as u64) << 32u64;
        high | low
    }
}

} // verus!
