//! The AHCI host bus adapter: its register layout, the command structures in
//! memory, and the reset, port start-up and sector read operations as
//! register programs.
use vstd::prelude::*;
use crate::mmio::Instr;

verus! {

/// A port's registers.
#[derive(Clone, Copy)]
pub struct HbaPort {
    pub clb: u32, pub clbu: u32, pub fb: u32, pub fbu: u32,
    pub is: u32, pub ie: u32, pub cmd: u32, pub rsv0: u32,
    pub tfd: u32, pub sig: u32, pub ssts: u32, pub sctl: u32,
    pub serr: u32, pub sact: u32, pub ci: u32, pub sntf: u32,
    pub fbs: u32, pub rsv1: [u32; 11], pub vendor: [u32; 4],
}

/// The adapter's generic registers and its 32 ports.
pub struct HbaMem {
    pub cap: u32, pub ghc: u32, pub is: u32, pub pi: u32, pub vs: u32,
    pub ccc_ctl: u32, pub ccc_pts: u32, pub em_loc: u32, pub em_ctl: u32,
    pub cap2: u32, pub bohc: u32, pub rsv: [u8; 116], pub vendor: [u8; 96],
    pub ports: [HbaPort; 32],
}

/// One command slot's header.
#[derive(Clone, Copy)]
pub struct CommandHeader {
    pub flags: u16, pub prdtl: u16, pub prdbc: u32,
    pub ctba: u32, pub ctbau: u32, pub rsv: [u32; 4],
}

/// The 32 command slots.
pub struct CommandList {
    pub headers: [CommandHeader; 32],
}

/// One physical region descriptor.
#[derive(Clone, Copy, PartialEq, Eq, Structural, Debug)]
pub struct PrdtEntry {
    pub dba: u32, pub dbau: u32, pub rsv0: u32, pub dw3: u32,
}

/// A command table with one region descriptor.
pub struct CommandTable {
    pub cfis: [u8; 64],
    pub acmd: [u8; 16],
    pub rsv: [u8; 48],
    pub prdt_entry: [PrdtEntry; 1],
    pub _padding: [u8; 112],
}

pub const HBA_CAP: u64 = 0x00;
pub const HBA_GHC: u64 = 0x04;
pub const HBA_PI: u64 = 0x0C;
pub const GHC_AE: u32 = 0x8000_0000;
pub const GHC_HR: u32 = 0x0000_0001;

pub const PORT_BASE: u64 = 0x100;
pub const PORT_STRIDE: u64 = 0x80;
pub const PX_CLB: u64 = 0x00;
pub const PX_CLBU: u64 = 0x04;
pub const PX_FB: u64 = 0x08;
pub const PX_FBU: u64 = 0x0C;
pub const PX_IS: u64 = 0x10;
pub const PX_IE: u64 = 0x14;
pub const PX_CMD: u64 = 0x18;
pub const PX_TFD: u64 = 0x20;
pub const PX_SIG: u64 = 0x24;
pub const PX_SSTS: u64 = 0x28;
pub const PX_SCTL: u64 = 0x2C;
pub const PX_SERR: u64 = 0x30;
pub const PX_CI: u64 = 0x38;

pub const PXCMD_ST: u32 = 0x0001;
pub const PXCMD_FRE: u32 = 0x0010;
pub const PXCMD_FR: u32 = 0x4000;
pub const PXCMD_CR: u32 = 0x8000;
pub const PXCMD_ATAPI: u32 = 0x0020;
pub const PXIS_TFES: u32 = 0x4000_0000;
/// The signature of an ATAPI device, which the kernel does not drive.
pub const SIG_ATAPI: u32 = 0xEB14_0101;

/// Spins of the driver's 10 ms wait (10000 per millisecond).
pub const TEN_MS_SPINS: u64 = 100000;

/// Whether an adapter at `abar` has all its port registers in the address space.
pub open spec fn abar_ok(abar: u64) -> bool {
    abar + PORT_BASE + 32 * PORT_STRIDE <= u64::MAX
}

/// The address of register `off` of port `port`.
pub open spec fn port_reg_spec(abar: u64, port: u64, off: u64) -> u64 {
    (abar + PORT_BASE + port * PORT_STRIDE + off) as u64
}

pub fn port_reg(abar: u64, port: u64, off: u64) -> (a: u64)
    requires
        abar_ok(abar),
        port < 32,
        off < PORT_STRIDE,
    ensures
        a == port_reg_spec(abar, port, off),
        a == abar + PORT_BASE + port * PORT_STRIDE + off,
{
    abar + PORT_BASE + port * PORT_STRIDE + off
}

/// The command-issue register the shell waits on after a read.
pub fn ci_register(abar: u64, port: u64) -> (a: u64)
    requires
        abar_ok(abar),
        port < 32,
    ensures
        a == abar + 0x100 + port * 0x80 + 0x38,
{
    port_reg(abar, port, PX_CI)
}

/// The adapter reset: enable AHCI mode (waiting 10 ms after setting it),
/// then, unless a reset is already under way, set HBA reset, wait up to a
/// million polls for it to clear (failing if it does not), wait 10 ms and
/// enable AHCI mode again if the reset cleared it.
pub open spec fn reset_hba_spec(abar: u64) -> Seq<Instr> {
    let ghc = (abar + HBA_GHC) as u64;
    seq![
        Instr::Load { addr: (abar + HBA_CAP) as u64 },
        Instr::Load { addr: ghc },
        Instr::SkipIf { mask: GHC_AE, value: GHC_AE, equal: true, count: 3 },
        Instr::StoreSaved { addr: ghc, and_mask: 0xFFFF_FFFF, or_mask: GHC_AE },
        Instr::Spin { cycles: TEN_MS_SPINS },
        Instr::Load { addr: ghc },
        Instr::SkipIf { mask: GHC_HR, value: 0, equal: false, count: 6 },
        Instr::StoreSaved { addr: ghc, and_mask: 0xFFFF_FFFF, or_mask: GHC_HR },
        Instr::Poll { addr: ghc, mask: GHC_HR, value: 0, busy_when_equal: false, bounded: true, budget: 1_000_000, cycles: 10, fatal: true },
        Instr::Spin { cycles: TEN_MS_SPINS },
        Instr::Load { addr: ghc },
        Instr::SkipIf { mask: GHC_AE, value: GHC_AE, equal: true, count: 1 },
        Instr::StoreSaved { addr: ghc, and_mask: 0xFFFF_FFFF, or_mask: GHC_AE },
    ]
}

pub fn reset_hba(abar: u64) -> (p: Vec<Instr>)
    requires
        abar_ok(abar),
    ensures
        p@ == reset_hba_spec(abar),
{
    let ghc = abar + HBA_GHC;
    let mut p: Vec<Instr> = Vec::new();
    p.push(Instr::Load { addr: abar + HBA_CAP });
    p.push(Instr::Load { addr: ghc });
    p.push(Instr::SkipIf { mask: GHC_AE, value: GHC_AE, equal: true, count: 3 });
    p.push(Instr::StoreSaved { addr: ghc, and_mask: 0xFFFF_FFFF, or_mask: GHC_AE });
    p.push(Instr::Spin { cycles: TEN_MS_SPINS });
    p.push(Instr::Load { addr: ghc });
    p.push(Instr::SkipIf { mask: GHC_HR, value: 0, equal: false, count: 6 });
    p.push(Instr::StoreSaved { addr: ghc, and_mask: 0xFFFF_FFFF, or_mask: GHC_HR });
    p.push(Instr::Poll { addr: ghc, mask: GHC_HR, value: 0, busy_when_equal: false, bounded: true, budget: 1_000_000, cycles: 10, fatal: true });
    p.push(Instr::Spin { cycles: TEN_MS_SPINS });
    p.push(Instr::Load { addr: ghc });
    p.push(Instr::SkipIf { mask: GHC_AE, value: GHC_AE, equal: true, count: 1 });
    p.push(Instr::StoreSaved { addr: ghc, and_mask: 0xFFFF_FFFF, or_mask: GHC_AE });
    assert(p@ =~= reset_hba_spec(abar));
    p
}

/// Whether the buffers of a port fit in the address space.
pub open spec fn buffers_ok(cl: u64, fb: u64, ct: u64) -> bool {
    cl + 1024 <= u64::MAX && fb + 256 <= u64::MAX && ct + 256 <= u64::MAX
}

/// Port start-up: stop the port, COMRESET it, wait up to five million
/// polls for a device, refuse an ATAPI device, clear the command list,
/// received-FIS area and command table, clear interrupts and errors, stop
/// command and FIS processing and wait for both to stop, point the port at
/// the command list and FIS area, point slot 0 at the command table (one
/// region, write-less 5-dword FIS), start FIS receive and wait for it, wait
/// (without failing) for the device to be idle, start the port and wait
/// for it to run. Every wait but the idle one fails the start-up when it
/// runs out.
pub open spec fn init_port_spec(abar: u64, port: u64, cl: u64, fb: u64, ct: u64) -> Seq<Instr> {
    let cmd = port_reg_spec(abar, port, PX_CMD);
    let sctl = port_reg_spec(abar, port, PX_SCTL);
    seq![
        Instr::Load { addr: cmd },
        Instr::SkipIf { mask: PXCMD_ST, value: 0, equal: true, count: 2 },
        Instr::StoreSaved { addr: cmd, and_mask: !PXCMD_ST, or_mask: 0 },
        Instr::Spin { cycles: 1000 },
        Instr::Load { addr: sctl },
        Instr::StoreSaved { addr: sctl, and_mask: !0x0Fu32, or_mask: 1 },
        Instr::Spin { cycles: TEN_MS_SPINS },
        Instr::StoreSaved { addr: sctl, and_mask: !0x0Fu32, or_mask: 0 },
        Instr::Poll { addr: port_reg_spec(abar, port, PX_SSTS), mask: 0x0F, value: 3, busy_when_equal: false, bounded: true, budget: 5_000_000, cycles: 10, fatal: true },
        Instr::Load { addr: port_reg_spec(abar, port, PX_SSTS) },
        Instr::Load { addr: port_reg_spec(abar, port, PX_SIG) },
        Instr::FailIf { mask: 0xFFFF_FFFF, value: SIG_ATAPI },
        Instr::Zero { addr: cl, len: 1024 },
        Instr::Zero { addr: fb, len: 256 },
        Instr::Zero { addr: ct, len: 256 },
        Instr::Write32 { addr: port_reg_spec(abar, port, PX_IS), value: 0xFFFF_FFFF },
        Instr::Write32 { addr: port_reg_spec(abar, port, PX_SERR), value: 0xFFFF_FFFF },
        Instr::Write32 { addr: port_reg_spec(abar, port, PX_IE), value: 0 },
        Instr::Load { addr: cmd },
        Instr::StoreSaved { addr: cmd, and_mask: !(PXCMD_ST | PXCMD_FRE) & !PXCMD_ATAPI, or_mask: 0 },
        Instr::Poll { addr: cmd, mask: PXCMD_CR, value: 0, busy_when_equal: false, bounded: true, budget: 1_000_000, cycles: 10, fatal: true },
        Instr::Poll { addr: cmd, mask: PXCMD_FR, value: 0, busy_when_equal: false, bounded: true, budget: 1_000_000, cycles: 10, fatal: true },
        Instr::Write32 { addr: port_reg_spec(abar, port, PX_CLB), value: cl as u32 },
        Instr::Write32 { addr: port_reg_spec(abar, port, PX_CLBU), value: (cl >> 32u64) as u32 },
        Instr::Write32 { addr: port_reg_spec(abar, port, PX_FB), value: fb as u32 },
        Instr::Write32 { addr: port_reg_spec(abar, port, PX_FBU), value: (fb >> 32u64) as u32 },
        Instr::Write32 { addr: (cl + 8) as u64, value: ct as u32 },
        Instr::Write32 { addr: (cl + 12) as u64, value: (ct >> 32u64) as u32 },
        Instr::Write16 { addr: (cl + 2) as u64, value: 1 },
        Instr::Write32 { addr: (cl + 4) as u64, value: 0 },
        Instr::Write16 { addr: cl, value: 5 },
        Instr::Load { addr: cmd },
        Instr::StoreSaved { addr: cmd, and_mask: 0xFFFF_FFFF, or_mask: PXCMD_FRE },
        Instr::Poll { addr: cmd, mask: PXCMD_FR, value: 0, busy_when_equal: true, bounded: true, budget: 1_000_000, cycles: 10, fatal: true },
        Instr::Poll { addr: port_reg_spec(abar, port, PX_TFD), mask: 0x88, value: 0, busy_when_equal: false, bounded: true, budget: 10_000_000, cycles: 10, fatal: false },
        Instr::Load { addr: cmd },
        Instr::StoreSaved { addr: cmd, and_mask: 0xFFFF_FFFF, or_mask: PXCMD_ST },
        Instr::Poll { addr: cmd, mask: PXCMD_CR, value: 0, busy_when_equal: true, bounded: true, budget: 1_000_000, cycles: 10, fatal: true },
    ]
}

pub fn init_port(abar: u64, port: u64, cl: u64, fb: u64, ct: u64) -> (p: Vec<Instr>)
    requires
        abar_ok(abar),
        port < 32,
        buffers_ok(cl, fb, ct),
    ensures
        p@ == init_port_spec(abar, port, cl, fb, ct),
{
    let cmd = port_reg(abar, port, PX_CMD);
    let sctl = port_reg(abar, port, PX_SCTL);
    let mut p: Vec<Instr> = Vec::new();
    p.push(Instr::Load { addr: cmd });
    p.push(Instr::SkipIf { mask: PXCMD_ST, value: 0, equal: true, count: 2 });
    p.push(Instr::StoreSaved { addr: cmd, and_mask: !PXCMD_ST, or_mask: 0 });
    p.push(Instr::Spin { cycles: 1000 });
    p.push(Instr::Load { addr: sctl });
    p.push(Instr::StoreSaved { addr: sctl, and_mask: !0x0Fu32, or_mask: 1 });
    p.push(Instr::Spin { cycles: TEN_MS_SPINS });
    p.push(Instr::StoreSaved { addr: sctl, and_mask: !0x0Fu32, or_mask: 0 });
    p.push(Instr::Poll { addr: port_reg(abar, port, PX_SSTS), mask: 0x0F, value: 3, busy_when_equal: false, bounded: true, budget: 5_000_000, cycles: 10, fatal: true });
    p.push(Instr::Load { addr: port_reg(abar, port, PX_SSTS) });
    p.push(Instr::Load { addr: port_reg(abar, port, PX_SIG) });
    p.push(Instr::FailIf { mask: 0xFFFF_FFFF, value: SIG_ATAPI });
    p.push(Instr::Zero { addr: cl, len: 1024 });
    p.push(Instr::Zero { addr: fb, len: 256 });
    p.push(Instr::Zero { addr: ct, len: 256 });
    p.push(Instr::Write32 { addr: port_reg(abar, port, PX_IS), value: 0xFFFF_FFFF });
    p.push(Instr::Write32 { addr: port_reg(abar, port, PX_SERR), value: 0xFFFF_FFFF });
    p.push(Instr::Write32 { addr: port_reg(abar, port, PX_IE), value: 0 });
    p.push(Instr::Load { addr: cmd });
    p.push(Instr::StoreSaved { addr: cmd, and_mask: !(PXCMD_ST | PXCMD_FRE) & !PXCMD_ATAPI, or_mask: 0 });
    p.push(Instr::Poll { addr: cmd, mask: PXCMD_CR, value: 0, busy_when_equal: false, bounded: true, budget: 1_000_000, cycles: 10, fatal: true });
    p.push(Instr::Poll { addr: cmd, mask: PXCMD_FR, value: 0, busy_when_equal: false, bounded: true, budget: 1_000_000, cycles: 10, fatal: true });
    p.push(Instr::Write32 { addr: port_reg(abar, port, PX_CLB), value: cl as u32 });
    p.push(Instr::Write32 { addr: port_reg(abar, port, PX_CLBU), value: (cl >> 32u64) as u32 });
    p.push(Instr::Write32 { addr: port_reg(abar, port, PX_FB), value: fb as u32 });
    p.push(Instr::Write32 { addr: port_reg(abar, port, PX_FBU), value: (fb >> 32u64) as u32 });
    p.push(Instr::Write32 { addr: cl + 8, value: ct as u32 });
    p.push(Instr::Write32 { addr: cl + 12, value: (ct >> 32u64) as u32 });
    p.push(Instr::Write16 { addr: cl + 2, value: 1 });
    p.push(Instr::Write32 { addr: cl + 4, value: 0 });
    p.push(Instr::Write16 { addr: cl, value: 5 });
    p.push(Instr::Load { addr: cmd });
    p.push(Instr::StoreSaved { addr: cmd, and_mask: 0xFFFF_FFFF, or_mask: PXCMD_FRE });
    p.push(Instr::Poll { addr: cmd, mask: PXCMD_FR, value: 0, busy_when_equal: true, bounded: true, budget: 1_000_000, cycles: 10, fatal: true });
    p.push(Instr::Poll { addr: port_reg(abar, port, PX_TFD), mask: 0x88, value: 0, busy_when_equal: false, bounded: true, budget: 10_000_000, cycles: 10, fatal: false });
    p.push(Instr::Load { addr: cmd });
    p.push(Instr::StoreSaved { addr: cmd, and_mask: 0xFFFF_FFFF, or_mask: PXCMD_ST });
    p.push(Instr::Poll { addr: cmd, mask: PXCMD_CR, value: 0, busy_when_equal: true, bounded: true, budget: 1_000_000, cycles: 10, fatal: true });
    assert(p@ =~= init_port_spec(abar, port, cl, fb, ct));
    p
}

/// The 14 command FIS bytes of a READ DMA EXT of one sector at `lba`:
/// a host-to-device register FIS with the command bit, the command, the
/// LBA low three bytes, LBA mode, the LBA high three bytes, and count 1.
pub open spec fn read_fis_spec(lba: u64) -> Seq<u8> {
    seq![
        0x27u8, 0x80, 0x25, 0x00,
        (lba & 0xFF) as u8, ((lba >> 8u64) & 0xFF) as u8, ((lba >> 16u64) & 0xFF) as u8, 0x40,
        ((lba >> 24u64) & 0xFF) as u8, ((lba >> 32u64) & 0xFF) as u8, ((lba >> 40u64) & 0xFF) as u8, 0x00,
        0x01, 0x00,
    ]
}

pub fn read_fis(lba: u64) -> (f: Vec<u8>)
    ensures
        f@ == read_fis_spec(lba),
{
    let mut f: Vec<u8> = Vec::new();
    f.push(0x27);
    f.push(0x80);
    f.push(0x25);
    f.push(0x00);
    f.push((lba & 0xFF) as u8);
    f.push(((lba >> 8u64) & 0xFF) as u8);
    f.push(((lba >> 16u64) & 0xFF) as u8);
    f.push(0x40);
    f.push(((lba >> 24u64) & 0xFF) as u8);
    f.push(((lba >> 32u64) & 0xFF) as u8);
    f.push(((lba >> 40u64) & 0xFF) as u8);
    f.push(0x00);
    f.push(0x01);
    f.push(0x00);
    assert(f@ =~= read_fis_spec(lba));
    f
}

/// The LBA a command FIS names.
pub open spec fn fis_lba(f: Seq<u8>) -> int {
    f[4] + f[5] * 0x100 + f[6] * 0x1_0000 + f[8] * 0x100_0000 + f[9] * 0x1_0000_0000 + f[10] * 0x100_0000_0000
}

/// The command FIS of a sector read names the sector asked for, for every
/// LBA of 48 bits (the most a READ DMA EXT carries).
pub proof fn law_read_fis_names_lba(lba: u64)
    requires
        lba < 0x1_0000_0000_0000,
    ensures
        fis_lba(read_fis_spec(lba)) == lba,
{
    let b0 = (lba & 0xFF) as u8;
    let b1 = ((lba >> 8u64) & 0xFF) as u8;
    let b2 = ((lba >> 16u64) & 0xFF) as u8;
    let b3 = ((lba >> 24u64) & 0xFF) as u8;
    let b4 = ((lba >> 32u64) & 0xFF) as u8;
    let b5 = ((lba >> 40u64) & 0xFF) as u8;
    assert(b0 as u64 + (b1 as u64) * 0x100 + (b2 as u64) * 0x1_0000 + (b3 as u64) * 0x100_0000
        + (b4 as u64) * 0x1_0000_0000 + (b5 as u64) * 0x100_0000_0000 == lba) by (bit_vector)
        requires
            lba < 0x1_0000_0000_0000,
            b0 == (lba & 0xFF) as u8,
            b1 == ((lba >> 8u64) & 0xFF) as u8,
            b2 == ((lba >> 16u64) & 0xFF) as u8,
            b3 == ((lba >> 24u64) & 0xFF) as u8,
            b4 == ((lba >> 32u64) & 0xFF) as u8,
            b5 == ((lba >> 40u64) & 0xFF) as u8,
    ;
}

/// The region descriptor of a one-sector transfer to `dest`: 512 bytes
/// (count minus one) with the interrupt-on-completion bit.
pub fn prdt_for_sector(dest: u64) -> (e: PrdtEntry)
    ensures
        e == (PrdtEntry { dba: dest as u32, dbau: (dest >> 32u64) as u32, rsv0: 0, dw3: 511u32 | 0x8000_0000u32 }),
{
    PrdtEntry { dba: dest as u32, dbau: (dest >> 32u64) as u32, rsv0: 0, dw3: 511u32 | 0x8000_0000u32 }
}

/// Slot 0's header as port start-up leaves it.
pub fn header_for_table(ct: u64) -> (h: CommandHeader)
    ensures
        h.flags == 5,
        h.prdtl == 1,
        h.prdbc == 0,
        h.ctba == ct as u32,
        h.ctbau == (ct >> 32u64) as u32,
        h.rsv@ == seq![0u32, 0, 0, 0],
{
    let h = CommandHeader { flags: 5, prdtl: 1, prdbc: 0, ctba: ct as u32, ctbau: (ct >> 32u64) as u32, rsv: [0u32, 0, 0, 0] };
    assert(h.rsv@ =~= seq![0u32, 0, 0, 0]);
    h
}

/// A sector read: wait up to a million polls for the device to be idle,
/// clear interrupts and errors, clear the command table, write the command
/// FIS and the region descriptor for `dest`, issue slot 0 and wait up to
/// ten million polls for it, stopping on a task file error. A timeout or a
/// task file error fails the read.
pub open spec fn read_sector_spec(abar: u64, port: u64, lba: u64, ct: u64, dest: u64, cl: u64) -> Seq<Instr> {
    let f = read_fis_spec(lba);
    let e = PrdtEntry { dba: dest as u32, dbau: (dest >> 32u64) as u32, rsv0: 0, dw3: 511u32 | 0x8000_0000u32 };
    let head = seq![
        Instr::Poll { addr: port_reg_spec(abar, port, PX_TFD), mask: 0x88, value: 0, busy_when_equal: false, bounded: true, budget: 1_000_000, cycles: 10, fatal: true },
        Instr::Write32 { addr: port_reg_spec(abar, port, PX_IS), value: 0xFFFF_FFFF },
        Instr::Write32 { addr: port_reg_spec(abar, port, PX_SERR), value: 0xFFFF_FFFF },
        Instr::Zero { addr: ct, len: 256 },
    ];
    let fis = Seq::new(14, |k: int| Instr::Write8 { addr: (ct + k) as u64, value: f[k] });
    let tail = seq![
        Instr::Write32 { addr: (ct + 0x80) as u64, value: e.dba },
        Instr::Write32 { addr: (ct + 0x84) as u64, value: e.dbau },
        Instr::Write32 { addr: (ct + 0x8C) as u64, value: e.dw3 },
        Instr::Fence,
        Instr::Write32 { addr: port_reg_spec(abar, port, PX_CI), value: 1 },
        Instr::WaitCommand { ci: port_reg_spec(abar, port, PX_CI), is: port_reg_spec(abar, port, PX_IS), error_mask: PXIS_TFES, budget: 10_000_000, cycles: 50 },
        Instr::Fence,
        Instr::FailIfCommandFailed { tfd: port_reg_spec(abar, port, PX_TFD) },
        Instr::Load { addr: (cl + 4) as u64 },
    ];
    head + fis + tail
}

pub fn read_sector(abar: u64, port: u64, lba: u64, ct: u64, dest: u64, cl: u64) -> (p: Vec<Instr>)
    requires
        abar_ok(abar),
        port < 32,
        ct + 256 <= u64::MAX,
        cl + 16 <= u64::MAX,
    ensures
        p@ == read_sector_spec(abar, port, lba, ct, dest, cl),
{
    let mut p: Vec<Instr> = Vec::new();
    p.push(Instr::Poll { addr: port_reg(abar, port, PX_TFD), mask: 0x88, value: 0, busy_when_equal: false, bounded: true, budget: 1_000_000, cycles: 10, fatal: true });
    p.push(Instr::Write32 { addr: port_reg(abar, port, PX_IS), value: 0xFFFF_FFFF });
    p.push(Instr::Write32 { addr: port_reg(abar, port, PX_SERR), value: 0xFFFF_FFFF });
    p.push(Instr::Zero { addr: ct, len: 256 });
    let ghost head = p@;
    let f = read_fis(lba);
    let mut k: usize = 0;
    while k < 14
        invariant
            k <= 14,
            f@ == read_fis_spec(lba),
            ct + 256 <= u64::MAX,
            p@ == head + Seq::new(k as nat, |j: int| Instr::Write8 { addr: (ct + j) as u64, value: f@[j] }),
        decreases 14 - k,
    {
        p.push(Instr::Write8 { addr: ct + k as u64, value: f[k] });
        k = k + 1;
        assert(p@ =~= head + Seq::new(k as nat, |j: int| Instr::Write8 { addr: (ct + j) as u64, value: f@[j] }));
    }
    let e = prdt_for_sector(dest);
    p.push(Instr::Write32 { addr: ct + 0x80, value: e.dba });
    p.push(Instr::Write32 { addr: ct + 0x84, value: e.dbau });
    p.push(Instr::Write32 { addr: ct + 0x8C, value: e.dw3 });
    p.push(Instr::Fence);
    p.push(Instr::Write32 { addr: port_reg(abar, port, PX_CI), value: 1 });
    p.push(Instr::WaitCommand { ci: port_reg(abar, port, PX_CI), is: port_reg(abar, port, PX_IS), error_mask: PXIS_TFES, budget: 10_000_000, cycles: 50 });
    p.push(Instr::Fence);
    p.push(Instr::FailIfCommandFailed { tfd: port_reg(abar, port, PX_TFD) });
    p.push(Instr::Load { addr: cl + 4 });
    assert(p@ =~= read_sector_spec(abar, port, lba, ct, dest, cl));
    p
}

/// The command FIS bytes a sector write sets, by index, over a zeroed
/// table: WRITE DMA EXT of one sector at `lba`.
pub open spec fn write_fis_writes(lba: u64) -> Seq<(int, u8)> {
    seq![
        (0int, 0x27u8), (1int, 0x80u8), (2int, 0x35u8),
        (4int, (lba & 0xFF) as u8), (5int, ((lba >> 8u64) & 0xFF) as u8), (6int, ((lba >> 16u64) & 0xFF) as u8),
        (7int, 0x40u8),
        (8int, ((lba >> 24u64) & 0xFF) as u8), (9int, ((lba >> 32u64) & 0xFF) as u8), (10int, ((lba >> 40u64) & 0xFF) as u8),
        (12int, 0x01u8),
    ]
}

/// A sector write from `data`: zero the command FIS, write the WRITE DMA
/// EXT command for `lba` and the region descriptor for `data`, issue slot
/// 0, wait (with no bound) while the port's first register has bit 0 set
/// and its interrupt status shows none of the errors 0xFD800000, then spin
/// 10000 times for the transfer to settle. Nothing is checked afterwards.
pub open spec fn write_sector_spec(abar: u64, port: u64, lba: u64, ct: u64, data: u64) -> Seq<Instr> {
    let zero = Seq::new(64, |k: int| Instr::Write8 { addr: (ct + k) as u64, value: 0 });
    let w = write_fis_writes(lba);
    let fis = Seq::new(11, |k: int| Instr::Write8 { addr: (ct + w[k].0) as u64, value: w[k].1 });
    let tail = seq![
        Instr::Write32 { addr: (ct + 0x80) as u64, value: data as u32 },
        Instr::Write32 { addr: (ct + 0x84) as u64, value: (data >> 32u64) as u32 },
        Instr::Write32 { addr: (ct + 0x8C) as u64, value: 511u32 | 0x8000_0000u32 },
        Instr::Fence,
        Instr::Write32 { addr: port_reg_spec(abar, port, PX_CI), value: 1 },
        Instr::WaitWhileSet { addr: port_reg_spec(abar, port, PX_CLB), error_addr: port_reg_spec(abar, port, PX_IS), error_mask: 0xFD80_0000, cycles: 1 },
        Instr::Fence,
        Instr::Spin { cycles: 10000 },
    ];
    zero + fis + tail
}

pub fn write_sector(abar: u64, port: u64, lba: u64, ct: u64, data: u64) -> (p: Vec<Instr>)
    requires
        abar_ok(abar),
        port < 32,
        ct + 256 <= u64::MAX,
    ensures
        p@ == write_sector_spec(abar, port, lba, ct, data),
{
    let mut p: Vec<Instr> = Vec::new();
    let mut k: u64 = 0;
    while k < 64
        invariant
            k <= 64,
            ct + 256 <= u64::MAX,
            p@ == Seq::new(k as nat, |j: int| Instr::Write8 { addr: (ct + j) as u64, value: 0 }),
        decreases 64 - k,
    {
        p.push(Instr::Write8 { addr: ct + k, value: 0 });
        k = k + 1;
        assert(p@ =~= Seq::new(k as nat, |j: int| Instr::Write8 { addr: (ct + j) as u64, value: 0 }));
    }
    let ghost zero = p@;
    p.push(Instr::Write8 { addr: ct, value: 0x27 });
    p.push(Instr::Write8 { addr: ct + 1, value: 0x80 });
    p.push(Instr::Write8 { addr: ct + 2, value: 0x35 });
    p.push(Instr::Write8 { addr: ct + 4, value: (lba & 0xFF) as u8 });
    p.push(Instr::Write8 { addr: ct + 5, value: ((lba >> 8u64) & 0xFF) as u8 });
    p.push(Instr::Write8 { addr: ct + 6, value: ((lba >> 16u64) & 0xFF) as u8 });
    p.push(Instr::Write8 { addr: ct + 7, value: 0x40 });
    p.push(Instr::Write8 { addr: ct + 8, value: ((lba >> 24u64) & 0xFF) as u8 });
    p.push(Instr::Write8 { addr: ct + 9, value: ((lba >> 32u64) & 0xFF) as u8 });
    p.push(Instr::Write8 { addr: ct + 10, value: ((lba >> 40u64) & 0xFF) as u8 });
    p.push(Instr::Write8 { addr: ct + 12, value: 0x01 });
    p.push(Instr::Write32 { addr: ct + 0x80, value: data as u32 });
    p.push(Instr::Write32 { addr: ct + 0x84, value: (data >> 32u64) as u32 });
    p.push(Instr::Write32 { addr: ct + 0x8C, value: 511u32 | 0x8000_0000u32 });
    p.push(Instr::Fence);
    p.push(Instr::Write32 { addr: port_reg(abar, port, PX_CI), value: 1 });
    p.push(Instr::WaitWhileSet { addr: port_reg(abar, port, PX_CLB), error_addr: port_reg(abar, port, PX_IS), error_mask: 0xFD80_0000, cycles: 1 });
    p.push(Instr::Fence);
    p.push(Instr::Spin { cycles: 10000 });
    assert(p@ =~= write_sector_spec(abar, port, lba, ct, data));
    p
}

/// The register the implemented-ports word is read from.
pub fn implemented_ports_register(abar: u64) -> (a: u64)
    requires
        abar_ok(abar),
    ensures
        a == abar + HBA_PI,
{
    abar + HBA_PI
}

/// The status and signature registers of a port.
pub fn port_status_registers(abar: u64, port: u64) -> (r: (u64, u64))
    requires
        abar_ok(abar),
        port < 32,
    ensures
        r.0 == port_reg_spec(abar, port, PX_SSTS),
        r.1 == port_reg_spec(abar, port, PX_SIG),
{
    (port_reg(abar, port, PX_SSTS), port_reg(abar, port, PX_SIG))
}

} // verus!
