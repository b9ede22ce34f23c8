//! The Intel 82540EM (E1000) network card: its MAC address, its reset,
//! ring set-up and enable sequences as register programs, and what a
//! receive or a send decides about the descriptor rings.
use vstd::prelude::*;
use crate::mmio::Instr;

verus! {

pub const RX_DESC_COUNT: u64 = 32;
pub const TX_DESC_COUNT: u64 = 8;
pub const BUFFER_SIZE: u64 = 2048;
pub const DESC_SIZE: u64 = 16;
/// The bytes of the receive ring.
pub const RX_RING_BYTES: u64 = 512;
/// The bytes of the transmit ring.
pub const TX_RING_BYTES: u64 = 128;
/// The status byte's offset in both descriptor kinds.
pub const DESC_STATUS: u64 = 12;

pub const REG_CTRL: u64 = 0x0000;
pub const REG_STATUS: u64 = 0x0008;
pub const REG_RCTL: u64 = 0x0100;
pub const REG_TCTL: u64 = 0x0400;
pub const REG_RDBAL: u64 = 0x2800;
pub const REG_RDBAH: u64 = 0x2804;
pub const REG_RDLEN: u64 = 0x2808;
pub const REG_RDH: u64 = 0x2810;
pub const REG_RDT: u64 = 0x2818;
pub const REG_TDBAL: u64 = 0x3800;
pub const REG_TDBAH: u64 = 0x3804;
pub const REG_TDLEN: u64 = 0x3808;
pub const REG_TDH: u64 = 0x3810;
pub const REG_TDT: u64 = 0x3818;
pub const REG_RAL: u64 = 0x5400;
pub const REG_RAH: u64 = 0x5404;

pub const CTRL_RST: u32 = 0x0400_0000;
pub const STATUS_LU: u32 = 0x02;
/// Receive: enable, unicast and multicast promiscuous, broadcast accept,
/// strip CRC, buffer size extension, VLAN filter.
pub const RCTL_BITS: u32 = 0x0800_805B;
/// Transmit: enable, pad short packets.
pub const TCTL_BITS: u32 = 0x0A;

/// A receive descriptor.
#[derive(Clone, Copy)]
pub struct RxDesc {
    pub buffer_addr: u64,
    pub length: u16,
    pub checksum: u16,
    pub status: u8,
    pub errors: u8,
    pub special: u16,
}

/// A transmit descriptor.
#[derive(Clone, Copy)]
pub struct TxDesc {
    pub buffer_addr: u64,
    pub length: u16,
    pub cso: u8,
    pub cmd: u8,
    pub status: u8,
    pub css: u8,
    pub special: u16,
}

/// The card: its register base, MAC address and where its rings and
/// buffers are.
pub struct E1000 {
    pub mmio_base: u64,
    pub mac: [u8; 6],
    pub rx_descs: u64,
    pub rx_buffers: u64,
    pub tx_descs: u64,
    pub tx_buffers: u64,
}

/// Whether the register block lies in the address space.
pub open spec fn base_ok(b: u64) -> bool {
    b + 0x6000 <= u64::MAX
}

/// Whether a ring of `n` descriptors at `descs` with buffers at `bufs` lies
/// in the address space.
pub open spec fn ring_ok(descs: u64, bufs: u64, n: u64) -> bool {
    descs + n * DESC_SIZE <= u64::MAX && bufs + n * BUFFER_SIZE <= u64::MAX
}

/// The MAC address in the receive address registers: RAL's four bytes,
/// then RAH's low two, least significant first.
pub fn mac_from_regs(ral: u32, rah: u32) -> (m: [u8; 6])
    ensures
        m@ == seq![ral as u8, (ral >> 8u32) as u8, (ral >> 16u32) as u8, (ral >> 24u32) as u8, rah as u8, (rah >> 8u32) as u8],
{
    let m = [ral as u8, (ral >> 8u32) as u8, (ral >> 16u32) as u8, (ral >> 24u32) as u8, rah as u8, (rah >> 8u32) as u8];
    assert(m@ =~= seq![ral as u8, (ral >> 8u32) as u8, (ral >> 16u32) as u8, (ral >> 24u32) as u8, rah as u8, (rah >> 8u32) as u8]);
    m
}

impl E1000 {
    /// The card at BAR0 `bar0` whose receive address registers read `ral`
    /// and `rah`; its rings are not set up yet.
    pub fn new(bar0: u32, ral: u32, rah: u32) -> (n: Self)
        ensures
            n.mmio_base == bar0,
            n.mac@ == seq![ral as u8, (ral >> 8u32) as u8, (ral >> 16u32) as u8, (ral >> 24u32) as u8, rah as u8, (rah >> 8u32) as u8],
            n.rx_descs == 0 && n.rx_buffers == 0 && n.tx_descs == 0 && n.tx_buffers == 0,
    {
        E1000 { mmio_base: bar0 as u64, mac: mac_from_regs(ral, rah), rx_descs: 0, rx_buffers: 0, tx_descs: 0, tx_buffers: 0 }
    }

    /// The address of register `offset`.
    pub fn reg(&self, offset: u64) -> (a: u64)
        requires
            base_ok(self.mmio_base),
            offset < 0x6000,
        ensures
            a == self.mmio_base + offset,
    {
        self.mmio_base + offset
    }

    /// The reset: set CTRL.RST and wait, with no bound, for it to clear,
    /// then for the link to come up.
    pub fn init_program(&self) -> (p: Vec<Instr>)
        requires
            base_ok(self.mmio_base),
        ensures
            p@ == seq![
                Instr::Load { addr: (self.mmio_base + REG_CTRL) as u64 },
                Instr::StoreSaved { addr: (self.mmio_base + REG_CTRL) as u64, and_mask: 0xFFFF_FFFF, or_mask: CTRL_RST },
                Instr::Poll { addr: (self.mmio_base + REG_CTRL) as u64, mask: CTRL_RST, value: 0, busy_when_equal: false, bounded: false, budget: 0, cycles: 1, fatal: false },
                Instr::Poll { addr: (self.mmio_base + REG_STATUS) as u64, mask: STATUS_LU, value: 0, busy_when_equal: true, bounded: false, budget: 0, cycles: 1, fatal: false },
            ],
    {
        let ctrl = self.reg(REG_CTRL);
        let status = self.reg(REG_STATUS);
        let mut p: Vec<Instr> = Vec::new();
        p.push(Instr::Load { addr: ctrl });
        p.push(Instr::StoreSaved { addr: ctrl, and_mask: 0xFFFF_FFFF, or_mask: CTRL_RST });
        p.push(Instr::Poll { addr: ctrl, mask: CTRL_RST, value: 0, busy_when_equal: false, bounded: false, budget: 0, cycles: 1, fatal: false });
        p.push(Instr::Poll { addr: status, mask: STATUS_LU, value: 0, busy_when_equal: true, bounded: false, budget: 0, cycles: 1, fatal: false });
        p
    }

    /// The receive ring set-up with descriptors at `descs` and buffers at
    /// `bufs`: clear the ring, give descriptor `i` buffer `i` (2048 bytes
    /// each) with a clear status, tell the card the ring's base and length,
    /// head 0 and tail 31.
    pub fn setup_rx(&mut self, descs: u64, bufs: u64) -> (p: Vec<Instr>)
        requires
            base_ok(old(self).mmio_base),
            ring_ok(descs, bufs, RX_DESC_COUNT),
        ensures
            final(self).rx_descs == descs,
            final(self).rx_buffers == bufs,
            final(self).mmio_base == old(self).mmio_base,
            final(self).mac == old(self).mac,
            final(self).tx_descs == old(self).tx_descs,
            final(self).tx_buffers == old(self).tx_buffers,
            p@ == seq![Instr::Zero { addr: descs, len: RX_RING_BYTES }]
                + ring_fill(descs, bufs, RX_DESC_COUNT as int, 0)
                + seq![
                    Instr::Write32 { addr: (old(self).mmio_base + REG_RDBAL) as u64, value: descs as u32 },
                    Instr::Write32 { addr: (old(self).mmio_base + REG_RDBAH) as u64, value: (descs >> 32u64) as u32 },
                    Instr::Write32 { addr: (old(self).mmio_base + REG_RDLEN) as u64, value: RX_RING_BYTES as u32 },
                    Instr::Write32 { addr: (old(self).mmio_base + REG_RDH) as u64, value: 0 },
                    Instr::Write32 { addr: (old(self).mmio_base + REG_RDT) as u64, value: (RX_DESC_COUNT - 1) as u32 },
                ],
    {
        self.rx_descs = descs;
        self.rx_buffers = bufs;
        let mut p: Vec<Instr> = Vec::new();
        p.push(Instr::Zero { addr: descs, len: RX_RING_BYTES });
        push_ring_fill(&mut p, descs, bufs, RX_DESC_COUNT, 0);
        p.push(Instr::Write32 { addr: self.reg(REG_RDBAL), value: descs as u32 });
        p.push(Instr::Write32 { addr: self.reg(REG_RDBAH), value: (descs >> 32u64) as u32 });
        p.push(Instr::Write32 { addr: self.reg(REG_RDLEN), value: RX_RING_BYTES as u32 });
        p.push(Instr::Write32 { addr: self.reg(REG_RDH), value: 0 });
        p.push(Instr::Write32 { addr: self.reg(REG_RDT), value: (RX_DESC_COUNT - 1) as u32 });
        assert(p@ =~= seq![Instr::Zero { addr: descs, len: RX_RING_BYTES }]
                + ring_fill(descs, bufs, RX_DESC_COUNT as int, 0)
                + seq![
                    Instr::Write32 { addr: (self.mmio_base + REG_RDBAL) as u64, value: descs as u32 },
                    Instr::Write32 { addr: (self.mmio_base + REG_RDBAH) as u64, value: (descs >> 32u64) as u32 },
                    Instr::Write32 { addr: (self.mmio_base + REG_RDLEN) as u64, value: RX_RING_BYTES as u32 },
                    Instr::Write32 { addr: (self.mmio_base + REG_RDH) as u64, value: 0 },
                    Instr::Write32 { addr: (self.mmio_base + REG_RDT) as u64, value: (RX_DESC_COUNT - 1) as u32 },
                ]);
        p
    }

    /// The transmit ring set-up: clear the ring, give descriptor `i`
    /// buffer `i` with status "done", tell the card the ring's base and
    /// length, head and tail 0.
    pub fn setup_tx(&mut self, descs: u64, bufs: u64) -> (p: Vec<Instr>)
        requires
            base_ok(old(self).mmio_base),
            ring_ok(descs, bufs, TX_DESC_COUNT),
        ensures
            final(self).tx_descs == descs,
            final(self).tx_buffers == bufs,
            final(self).mmio_base == old(self).mmio_base,
            final(self).mac == old(self).mac,
            final(self).rx_descs == old(self).rx_descs,
            final(self).rx_buffers == old(self).rx_buffers,
            p@ == seq![Instr::Zero { addr: descs, len: TX_RING_BYTES }]
                + ring_fill(descs, bufs, TX_DESC_COUNT as int, 1)
                + seq![
                    Instr::Write32 { addr: (old(self).mmio_base + REG_TDBAL) as u64, value: descs as u32 },
                    Instr::Write32 { addr: (old(self).mmio_base + REG_TDBAH) as u64, value: (descs >> 32u64) as u32 },
                    Instr::Write32 { addr: (old(self).mmio_base + REG_TDLEN) as u64, value: TX_RING_BYTES as u32 },
                    Instr::Write32 { addr: (old(self).mmio_base + REG_TDH) as u64, value: 0 },
                    Instr::Write32 { addr: (old(self).mmio_base + REG_TDT) as u64, value: 0 },
                ],
    {
        self.tx_descs = descs;
        self.tx_buffers = bufs;
        let mut p: Vec<Instr> = Vec::new();
        p.push(Instr::Zero { addr: descs, len: TX_RING_BYTES });
        push_ring_fill(&mut p, descs, bufs, TX_DESC_COUNT, 1);
        p.push(Instr::Write32 { addr: self.reg(REG_TDBAL), value: descs as u32 });
        p.push(Instr::Write32 { addr: self.reg(REG_TDBAH), value: (descs >> 32u64) as u32 });
        p.push(Instr::Write32 { addr: self.reg(REG_TDLEN), value: TX_RING_BYTES as u32 });
        p.push(Instr::Write32 { addr: self.reg(REG_TDH), value: 0 });
        p.push(Instr::Write32 { addr: self.reg(REG_TDT), value: 0 });
        assert(p@ =~= seq![Instr::Zero { addr: descs, len: TX_RING_BYTES }]
                + ring_fill(descs, bufs, TX_DESC_COUNT as int, 1)
                + seq![
                    Instr::Write32 { addr: (self.mmio_base + REG_TDBAL) as u64, value: descs as u32 },
                    Instr::Write32 { addr: (self.mmio_base + REG_TDBAH) as u64, value: (descs >> 32u64) as u32 },
                    Instr::Write32 { addr: (self.mmio_base + REG_TDLEN) as u64, value: TX_RING_BYTES as u32 },
                    Instr::Write32 { addr: (self.mmio_base + REG_TDH) as u64, value: 0 },
                    Instr::Write32 { addr: (self.mmio_base + REG_TDT) as u64, value: 0 },
                ]);
        p
    }

    /// Enabling: receive with the control bits of `RCTL_BITS` (its low half
    /// cleared first), then a fence, transmit with `TCTL_BITS` added, then
    /// a fence.
    pub fn enable_program(&self) -> (p: Vec<Instr>)
        requires
            base_ok(self.mmio_base),
        ensures
            p@ == seq![
                Instr::Load { addr: (self.mmio_base + REG_RCTL) as u64 },
                Instr::StoreSaved { addr: (self.mmio_base + REG_RCTL) as u64, and_mask: !0xFFFFu32, or_mask: RCTL_BITS },
                Instr::Fence,
                Instr::Load { addr: (self.mmio_base + REG_TCTL) as u64 },
                Instr::StoreSaved { addr: (self.mmio_base + REG_TCTL) as u64, and_mask: 0xFFFF_FFFF, or_mask: TCTL_BITS },
                Instr::Fence,
            ],
    {
        let rctl = self.reg(REG_RCTL);
        let tctl = self.reg(REG_TCTL);
        let mut p: Vec<Instr> = Vec::new();
        p.push(Instr::Load { addr: rctl });
        p.push(Instr::StoreSaved { addr: rctl, and_mask: !0xFFFFu32, or_mask: RCTL_BITS });
        p.push(Instr::Fence);
        p.push(Instr::Load { addr: tctl });
        p.push(Instr::StoreSaved { addr: tctl, and_mask: 0xFFFF_FFFF, or_mask: TCTL_BITS });
        p.push(Instr::Fence);
        p
    }
}

/// The descriptor writes of a ring of `n`: buffer address, then status.
pub open spec fn ring_fill(descs: u64, bufs: u64, n: int, status: u8) -> Seq<Instr>
    decreases n,
{
    if n <= 0 {
        Seq::empty()
    } else {
        ring_fill(descs, bufs, n - 1, status) + seq![
            Instr::Write64 { addr: (descs + (n - 1) * DESC_SIZE) as u64, value: (bufs + (n - 1) * BUFFER_SIZE) as u64 },
            Instr::Write8 { addr: (descs + (n - 1) * DESC_SIZE + DESC_STATUS) as u64, value: status },
        ]
    }
}

fn push_ring_fill(p: &mut Vec<Instr>, descs: u64, bufs: u64, n: u64, status: u8)
    requires
        ring_ok(descs, bufs, n),
    ensures
        final(p)@ == old(p)@ + ring_fill(descs, bufs, n as int, status),
{
    let ghost start = p@;
    let mut i: u64 = 0;
    while i < n
        invariant
            i <= n,
            ring_ok(descs, bufs, n),
            p@ == start + ring_fill(descs, bufs, i as int, status),
        decreases n - i,
    {
        proof {
            assert(i * DESC_SIZE + DESC_STATUS < n * DESC_SIZE) by (nonlinear_arith)
                requires
                    i < n,
            ;
            assert(i * BUFFER_SIZE < n * BUFFER_SIZE) by (nonlinear_arith)
                requires
                    i < n,
            ;
        }
        p.push(Instr::Write64 { addr: descs + i * DESC_SIZE, value: bufs + i * BUFFER_SIZE });
        p.push(Instr::Write8 { addr: descs + i * DESC_SIZE + DESC_STATUS, value: status });
        i = i + 1;
        assert(p@ =~= start + ring_fill(descs, bufs, i as int, status));
    }
}

/// The receive descriptor a receive looks at: the one after the tail.
pub fn rx_next_index(rdt: u32) -> (i: u64)
    ensures
        i == (rdt + 1) % (RX_DESC_COUNT as int),
        i < RX_DESC_COUNT,
{
    (rdt as u64 + 1) % RX_DESC_COUNT
}

/// A packet the card delivered: which descriptor, and how long it is; and
/// how to hand the descriptor back: the status to write into it and the
/// new receive tail.
#[derive(Clone, Copy, PartialEq, Eq, Structural, Debug)]
pub struct RxPacket {
    pub index: u64,
    pub len: u16,
    pub cleared_status: u8,
    pub new_tail: u32,
}

/// One look at the receive ring: with tail `rdt`, the next descriptor holds
/// a packet when its status has the descriptor-done bit. Once the packet is
/// taken, the descriptor's status is cleared and the tail moves to it.
/// Waiting for a packet is looking again until this answers `Some`.
pub fn receive(rdt: u32, status: u8, length: u16) -> (r: Option<RxPacket>)
    ensures
        r == if status & 1 != 0 {
            Some(RxPacket {
                index: ((rdt + 1) % (RX_DESC_COUNT as int)) as u64,
                len: length,
                cleared_status: 0,
                new_tail: ((rdt + 1) % (RX_DESC_COUNT as int)) as u32,
            })
        } else {
            None::<RxPacket>
        },
{
    if status & 1 != 0 {
        let index = rx_next_index(rdt);
        Some(RxPacket { index, len: length, cleared_status: 0, new_tail: index as u32 })
    } else {
        None
    }
}

/// What a send does.
#[derive(Clone, Copy, PartialEq, Eq, Structural, Debug)]
pub enum SendPlan {
    /// Nothing is sent.
    Refuse,
    /// Copy the frame to buffer `slot`, set the descriptor's length, command
    /// (end of packet, insert FCS, report status) and status, then move the
    /// tail to `new_tail`.
    Transmit { slot: u64, cmd: u8, status: u8, new_tail: u32 },
}

/// A send of `len` bytes with tail `tdt` whose descriptor has status
/// `status`: refused for a frame over 2048 bytes, for a descriptor whose
/// previous send is not done (low status nibble not 1), and for a tail
/// outside the ring.
pub fn send_plan(len: usize, tdt: u32, status: u8) -> (p: SendPlan)
    ensures
        p == if len > BUFFER_SIZE || tdt >= TX_DESC_COUNT || status & 0x0F != 1 {
            SendPlan::Refuse
        } else {
            SendPlan::Transmit {
                slot: tdt as u64,
                cmd: 0x0B,
                status: status & !1u8,
                new_tail: ((tdt + 1) % (TX_DESC_COUNT as int)) as u32,
            }
        },
{
    if len as u64 > BUFFER_SIZE || tdt as u64 >= TX_DESC_COUNT || status & 0x0F != 1 {
        SendPlan::Refuse
    } else {
        SendPlan::Transmit { slot: tdt as u64, cmd: 0x0B, status: status & !1u8, new_tail: (tdt + 1) % (TX_DESC_COUNT as u32) }
    }
}

} // verus!
