//! Interrupt descriptor table entries, the keyboard scancode ring the
//! keyboard interrupt fills, and the shift-key state the key futures keep.
use vstd::prelude::*;

verus! {

/// The vector of the page fault handler.
pub const PAGE_FAULT_VECTOR: usize = 14;
/// The vector of the keyboard interrupt (IRQ 1 as routed by the I/O APIC).
pub const KEYBOARD_VECTOR: usize = 0x21;
/// The vector of the system call entry.
pub const SYSCALL_VECTOR: usize = 0x80;
/// The code segment selector every handler runs in.
pub const KERNEL_CODE_SELECTOR: u16 = 0x38;
/// Present, ring 0, 64-bit interrupt gate.
pub const INTERRUPT_GATE: u8 = 0x8E;
/// Entries in the table.
pub const IDT_ENTRIES: usize = 256;
/// Bytes in one packed entry.
pub const IDT_ENTRY_SIZE: usize = 16;

/// One 16-byte interrupt descriptor, field by field.
#[derive(Clone, Copy, PartialEq, Eq, Structural, Debug)]
pub struct IDTEntry {
    pub offset_low: u16,
    pub selector: u16,
    pub ist: u8,
    pub flags: u8,
    pub offset_mid: u16,
    pub offset_high: u32,
    pub _reserved: u32,
}

/// The handler address a descriptor points to.
pub open spec fn handler_offset(e: IDTEntry) -> u64 {
    (e.offset_low as u64) | ((e.offset_mid as u64) << 16u64) | ((e.offset_high as u64) << 32u64)
}

impl IDTEntry {
    /// An empty (not present) descriptor.
    pub fn new() -> (e: Self)
        ensures
            e == (IDTEntry { offset_low: 0, selector: 0, ist: 0, flags: 0, offset_mid: 0, offset_high: 0, _reserved: 0 }),
    {
        IDTEntry { offset_low: 0, selector: 0, ist: 0, flags: 0, offset_mid: 0, offset_high: 0, _reserved: 0 }
    }

    /// Points this entry at `handler` as a present kernel interrupt descriptor.
    pub fn set_handler(&mut self, handler: u64)
        ensures
            final(self).offset_low == handler as u16,
            final(self).offset_mid == (handler >> 16u64) as u16,
            final(self).offset_high == (handler >> 32u64) as u32,
            final(self).selector == KERNEL_CODE_SELECTOR,
            final(self).ist == 0,
            final(self).flags == INTERRUPT_GATE,
            final(self)._reserved == 0,
            handler_offset(*final(self)) == handler,
    {
        self.offset_low = handler as u16;
        self.selector = KERNEL_CODE_SELECTOR;
        self.ist = 0;
        self.flags = INTERRUPT_GATE;
        self.offset_mid = (handler >> 16u64) as u16;
        self.offset_high = (handler >> 32u64) as u32;
        self._reserved = 0;
        proof {
            let lo = handler as u16;
            let mid = (handler >> 16u64) as u16;
            let hi = (handler >> 32u64) as u32;
            assert((lo as u64) | ((mid as u64) << 16u64) | ((hi as u64) << 32u64) == handler) by (bit_vector)
                requires
                    lo == handler as u16,
                    mid == (handler >> 16u64) as u16,
                    hi == (handler >> 32u64) as u32,
            ;
        }
    }

    /// This entry as the 16 bytes the processor reads, little-endian, packed.
    pub fn to_bytes(&self) -> (b: Vec<u8>)
        ensures
            b@.len() == 16,
            crate::bytes::le16(b@, 0) == self.offset_low,
            crate::bytes::le16(b@, 2) == self.selector,
            b@[4] == self.ist,
            b@[5] == self.flags,
            crate::bytes::le16(b@, 6) == self.offset_mid,
            crate::bytes::le32(b@, 8) == self.offset_high,
            crate::bytes::le32(b@, 12) == self._reserved,
    {
        let mut b: Vec<u8> = Vec::new();
        crate::bytes::push_le16(&mut b, self.offset_low);
        crate::bytes::push_le16(&mut b, self.selector);
        b.push(self.ist);
        b.push(self.flags);
        crate::bytes::push_le16(&mut b, self.offset_mid);
        crate::bytes::push_le32(&mut b, self.offset_high);
        crate::bytes::push_le32(&mut b, self._reserved);
        b
    }
}

/// The operand of `lidt`: the table's last byte offset and its address.
#[derive(Clone, Copy)]
pub struct IDTR {
    pub limit: u16,
    pub base: u64,
}

/// The `lidt` operand for a full table at `base`.
pub fn idt_register(base: u64) -> (r: IDTR)
    ensures
        r.limit == IDT_ENTRIES * IDT_ENTRY_SIZE - 1,
        r.base == base,
{
    IDTR { limit: (IDT_ENTRIES * IDT_ENTRY_SIZE - 1) as u16, base }
}

/// What the processor pushes on entry to a handler.
#[derive(Clone, Copy)]
pub struct InterruptStackFrame {
    pub rip: u64,
    pub cs: u64,
    pub rflags: u64,
    pub rsp: u64,
    pub ss: u64,
}

/// Slots in the scancode ring; one is always left empty.
pub const KEY_BUFFER_SIZE: usize = 16;

/// The scancodes the keyboard interrupt has stored and no one has taken yet.
pub struct KeyRing {
    buf: Vec<u8>,
    head: usize,
    tail: usize,
}

/// The pending scancodes of a ring with storage `buf`, oldest first.
pub open spec fn ring_contents(buf: Seq<u8>, head: int, tail: int) -> Seq<u8> {
    let n = (head - tail + 16) % 16;
    Seq::new(n as nat, |k: int| buf[(tail + k) % 16])
}

impl KeyRing {
    /// The pending scancodes, oldest first.
    pub closed spec fn view(&self) -> Seq<u8> {
        ring_contents(self.buf@, self.head as int, self.tail as int)
    }

    pub closed spec fn wf(&self) -> bool {
        &&& self.buf@.len() == KEY_BUFFER_SIZE
        &&& self.head < KEY_BUFFER_SIZE
        &&& self.tail < KEY_BUFFER_SIZE
    }

    /// An empty ring.
    pub fn new() -> (r: Self)
        ensures
            r.wf(),
            r@.len() == 0,
    {
        KeyRing { buf: vec![0u8; KEY_BUFFER_SIZE], head: 0, tail: 0 }
    }

    /// Stores a scancode from the keyboard interrupt, unless the ring
    /// already holds 15; then the scancode is dropped.
    pub fn push_scancode(&mut self, sc: u8) -> (stored: bool)
        requires
            old(self).wf(),
        ensures
            final(self).wf(),
            stored == (old(self)@.len() < KEY_BUFFER_SIZE - 1),
            final(self)@ == if stored { old(self)@.push(sc) } else { old(self)@ },
    {
        let next = (self.head + 1) % KEY_BUFFER_SIZE;
        if next != self.tail {
            let ghost old_buf = self.buf@;
            let ghost old_view = self@;
            self.buf.set(self.head, sc);
            self.head = next;
            proof {
                assert(self@ =~= old_view.push(sc));
            }
            true
        } else {
            false
        }
    }

    /// Takes the oldest scancode, if any.
    pub fn get_key_from_buffer(&mut self) -> (r: Option<u8>)
        requires
            old(self).wf(),
        ensures
            final(self).wf(),
            r == if old(self)@.len() == 0 { None::<u8> } else { Some(old(self)@[0]) },
            final(self)@ == if old(self)@.len() == 0 { old(self)@ } else { old(self)@.drop_first() },
    {
        if self.head != self.tail {
            let ghost old_view = self@;
            let sc = self.buf[self.tail];
            self.tail = (self.tail + 1) % KEY_BUFFER_SIZE;
            proof {
                assert(self@ =~= old_view.drop_first());
            }
            Some(sc)
        } else {
            None
        }
    }

    /// How many scancodes are pending.
    pub fn len(&self) -> (n: usize)
        requires
            self.wf(),
        ensures
            n == self@.len(),
    {
        (self.head + KEY_BUFFER_SIZE - self.tail) % KEY_BUFFER_SIZE
    }
}

/// Scancodes come out of the ring in the order they went in: after storing
/// `sc` in a ring that had room, the ring's contents are the old ones
/// followed by `sc`, and taking from a non-empty ring yields its oldest.
pub proof fn law_ring_fifo(pending: Seq<u8>, sc: u8)
    requires
        pending.len() < KEY_BUFFER_SIZE - 1,
    ensures
        pending.push(sc).len() > 0,
        pending.push(sc)[0] == (if pending.len() == 0 { sc } else { pending[0] }),
        pending.push(sc).drop_first() == (if pending.len() == 0 { Seq::<u8>::empty() } else { pending.drop_first().push(sc) }),
{
    if pending.len() == 0 {
        assert(pending.push(sc).drop_first() =~= Seq::<u8>::empty());
    } else {
        assert(pending.push(sc).drop_first() =~= pending.drop_first().push(sc));
    }
}

/// Left or right shift pressed.
pub open spec fn is_shift_press(sc: u8) -> bool {
    sc == 0x2A || sc == 0x36
}

/// Left or right shift released.
pub open spec fn is_shift_release(sc: u8) -> bool {
    sc == 0xAA || sc == 0xB6
}

/// The shift state after scancode `sc`: set by a shift press, cleared by a
/// shift release, unchanged by anything else.
pub fn shift_after(shift: bool, sc: u8) -> (r: bool)
    ensures
        r == if is_shift_press(sc) { true } else if is_shift_release(sc) { false } else { shift },
{
    if sc == 0x2A || sc == 0x36 {
        true
    } else if sc == 0xAA || sc == 0xB6 {
        false
    } else {
        shift
    }
}

/// What a key future does on one poll.
#[derive(PartialEq, Eq, Structural, Clone, Copy, Debug)]
pub enum KeyPoll {
    /// A scancode is ready.
    Ready(u8),
    /// The ring is empty but the controller has a byte: read data port 0x60.
    ReadPort,
    /// Nothing yet.
    Pending,
}

/// One poll of a key future: the ring first, then the controller's output
/// buffer flag (bit 0 of the status byte from port 0x64).
pub fn poll_key(ring: &mut KeyRing, status: u8) -> (p: KeyPoll)
    requires
        old(ring).wf(),
    ensures
        final(ring).wf(),
        old(ring)@.len() > 0 ==> p == KeyPoll::Ready(old(ring)@[0]) && final(ring)@ == old(ring)@.drop_first(),
        old(ring)@.len() == 0 ==> final(ring)@ == old(ring)@
            && p == (if status & 1 != 0 { KeyPoll::ReadPort } else { KeyPoll::Pending }),
{
    match ring.get_key_from_buffer() {
        Some(sc) => KeyPoll::Ready(sc),
        None => {
            if status & 1 != 0 {
                KeyPoll::ReadPort
            } else {
                KeyPoll::Pending
            }
        },
    }
}

/// The keyboard future of the debug shell: it also follows the shift key.
pub struct KeyboardFuture {
    pub shift: bool,
}

impl KeyboardFuture {
    /// A key future with shift released.
    pub fn new() -> (k: Self)
        ensures
            !k.shift,
    {
        KeyboardFuture { shift: false }
    }

    /// Notes a scancode the future hands out, for the shift state.
    pub fn observe(&mut self, sc: u8)
        ensures
            final(self).shift == if is_shift_press(sc) { true } else if is_shift_release(sc) { false } else { old(self).shift },
    {
        self.shift = shift_after(self.shift, sc);
    }
}

} // verus!
