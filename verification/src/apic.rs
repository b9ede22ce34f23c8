//! The local APIC and the I/O APIC: where the local APIC's registers are,
//! and the register programs that enable it, mask its timer, acknowledge an
//! interrupt, and route the keyboard's IRQ 1 to vector 0x21.
use vstd::prelude::*;
use crate::mmio::Instr;

verus! {

/// The I/O APIC's register window.
pub const IO_APIC_BASE: u64 = 0xFEC0_0000;
pub const APIC_SIVR: u64 = 0xF0;
pub const APIC_EOI: u64 = 0xB0;
pub const APIC_LVT_TIMER: u64 = 0x320;

/// The local APIC's base: bits 12 to 31 of the APIC base MSR (`high`:`low`);
/// the mask drops the flag bits and the high half.
pub fn apic_base_from_msr(high: u32, low: u32) -> (b: u64)
    ensures
        b == ((high as u64) << 32u64 | (low as u64)) & 0xFFFF_F000,
{
    ((high as u64) << 32u64 | (low as u64)) & 0xFFFF_F000
}

/// Whether the local APIC's registers lie in the address space.
pub open spec fn apic_base_ok(base: u64) -> bool {
    base + 0x400 <= u64::MAX
}

/// Enabling the local APIC: set the software-enable bit and spurious vector
/// 0xFF in the spurious interrupt vector register, and mask the timer.
pub fn apic_init_program(base: u64) -> (p: Vec<Instr>)
    requires
        apic_base_ok(base),
    ensures
        p@ == seq![
            Instr::Load { addr: (base + APIC_SIVR) as u64 },
            Instr::StoreSaved { addr: (base + APIC_SIVR) as u64, and_mask: 0xFFFF_FFFF, or_mask: 0x1FF },
            Instr::Write32 { addr: (base + APIC_LVT_TIMER) as u64, value: 0x10000 },
        ],
{
    let mut p: Vec<Instr> = Vec::new();
    p.push(Instr::Load { addr: base + APIC_SIVR });
    p.push(Instr::StoreSaved { addr: base + APIC_SIVR, and_mask: 0xFFFF_FFFF, or_mask: 0x1FF });
    p.push(Instr::Write32 { addr: base + APIC_LVT_TIMER, value: 0x10000 });
    p
}

/// The end-of-interrupt write.
pub fn apic_eoi_program(base: u64) -> (p: Vec<Instr>)
    requires
        apic_base_ok(base),
    ensures
        p@ == seq![Instr::Write32 { addr: (base + APIC_EOI) as u64, value: 0 }],
{
    let mut p: Vec<Instr> = Vec::new();
    p.push(Instr::Write32 { addr: base + APIC_EOI, value: 0 });
    p
}

/// The writes of one I/O APIC register: select it, then write its value.
pub open spec fn io_apic_write(reg: u8, value: u32) -> Seq<Instr> {
    seq![
        Instr::Write32 { addr: IO_APIC_BASE, value: reg as u32 },
        Instr::Write32 { addr: (IO_APIC_BASE + 0x10) as u64, value },
    ]
}

/// Routing IRQ 1: redirection entry 1 (registers 0x12 and 0x13) to vector
/// 0x21 on APIC 0, masked (bit 16 set), as the kernel leaves it.
pub fn init_io_apic() -> (p: Vec<Instr>)
    ensures
        p@ == io_apic_write(0x12, 0x21u32 | 0x1_0000u32) + io_apic_write(0x13, 0),
{
    let mut p: Vec<Instr> = Vec::new();
    p.push(Instr::Write32 { addr: IO_APIC_BASE, value: 0x12 });
    p.push(Instr::Write32 { addr: IO_APIC_BASE + 0x10, value: 0x21 | 0x1_0000 });
    p.push(Instr::Write32 { addr: IO_APIC_BASE, value: 0x13 });
    p.push(Instr::Write32 { addr: IO_APIC_BASE + 0x10, value: 0 });
    assert(p@ =~= io_apic_write(0x12, 0x21u32 | 0x1_0000u32) + io_apic_write(0x13, 0));
    p
}

} // verus!
