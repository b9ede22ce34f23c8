//! Loading an ELF64 program: its header and program headers read from
//! bytes, the address range its loadable segments span, and the steps of a
//! load (open, read the header, map and read the program header table, map
//! the image, read each segment, close) as a machine whose I/O the caller
//! performs.
use vstd::prelude::*;
use crate::bytes::{le16, le32, le64, read_le16, read_le32, read_le64};

verus! {

pub const ELF_HEADER_SIZE: usize = 64;
pub const PHDR_SIZE: usize = 56;
/// The program header type of a loadable segment.
pub const PT_LOAD: u32 = 1;
pub const PAGE_BYTES: u64 = 4096;

/// The ELF64 file header.
#[derive(Clone, Copy)]
pub struct Elf64Header {
    pub e_ident: [u8; 16],
    pub e_type: u16,
    pub e_machine: u16,
    pub e_version: u32,
    pub e_entry: u64,
    pub e_phoff: u64,
    pub e_shoff: u64,
    pub e_flags: u32,
    pub e_ehsize: u16,
    pub e_phentsize: u16,
    pub e_phnum: u16,
    pub e_shentsize: u16,
    pub e_shnum: u16,
    pub e_shstrndx: u16,
}

/// An ELF64 program header.
#[derive(Clone, Copy, PartialEq, Eq, Structural, Debug)]
pub struct Elf64Phdr {
    pub p_type: u32,
    pub p_flags: u32,
    pub p_offset: u64,
    pub p_vaddr: u64,
    pub p_paddr: u64,
    pub p_filesz: u64,
    pub p_memsz: u64,
    pub p_align: u64,
}

/// Whether `h` holds the header stored little-endian in the first 64 bytes of `b`.
pub open spec fn header_from(b: Seq<u8>, h: Elf64Header) -> bool {
    &&& h.e_ident@ == b.subrange(0, 16)
    &&& h.e_type == le16(b, 16)
    &&& h.e_machine == le16(b, 18)
    &&& h.e_version == le32(b, 20)
    &&& h.e_entry == le64(b, 24)
    &&& h.e_phoff == le64(b, 32)
    &&& h.e_shoff == le64(b, 40)
    &&& h.e_flags == le32(b, 48)
    &&& h.e_ehsize == le16(b, 52)
    &&& h.e_phentsize == le16(b, 54)
    &&& h.e_phnum == le16(b, 56)
    &&& h.e_shentsize == le16(b, 58)
    &&& h.e_shnum == le16(b, 60)
    &&& h.e_shstrndx == le16(b, 62)
}

/// The program header stored little-endian in the 56 bytes of `b` at `off`.
pub open spec fn phdr_at(b: Seq<u8>, off: int) -> Elf64Phdr {
    Elf64Phdr {
        p_type: le32(b, off) as u32,
        p_flags: le32(b, off + 4) as u32,
        p_offset: le64(b, off + 8) as u64,
        p_vaddr: le64(b, off + 16) as u64,
        p_paddr: le64(b, off + 24) as u64,
        p_filesz: le64(b, off + 32) as u64,
        p_memsz: le64(b, off + 40) as u64,
        p_align: le64(b, off + 48) as u64,
    }
}

proof fn lemma_le_bounds(b: Seq<u8>, off: int)
    requires
        0 <= off,
        off + 8 <= b.len(),
    ensures
        le16(b, off) <= u16::MAX,
        le32(b, off) <= u32::MAX,
        le64(b, off) <= u64::MAX,
{
    assert(le16(b, off + 2) <= u16::MAX);
    assert(le16(b, off + 4) <= u16::MAX);
    assert(le16(b, off + 6) <= u16::MAX);
    assert(le32(b, off + 4) <= u32::MAX);
}

impl Elf64Header {
    /// Reads the header from the first 64 bytes of `b`.
    pub fn parse(b: &[u8]) -> (h: Self)
        requires
            b@.len() >= ELF_HEADER_SIZE,
        ensures
            header_from(b@, h),
    {
        let id: [u8; 16] = [
            b[0], b[1], b[2], b[3], b[4], b[5], b[6], b[7],
            b[8], b[9], b[10], b[11], b[12], b[13], b[14], b[15],
        ];
        let h = Elf64Header {
            e_ident: id,
            e_type: read_le16(b, 16),
            e_machine: read_le16(b, 18),
            e_version: read_le32(b, 20),
            e_entry: read_le64(b, 24),
            e_phoff: read_le64(b, 32),
            e_shoff: read_le64(b, 40),
            e_flags: read_le32(b, 48),
            e_ehsize: read_le16(b, 52),
            e_phentsize: read_le16(b, 54),
            e_phnum: read_le16(b, 56),
            e_shentsize: read_le16(b, 58),
            e_shnum: read_le16(b, 60),
            e_shstrndx: read_le16(b, 62),
        };
        assert(h.e_ident@ =~= b@.subrange(0, 16));
        h
    }

    /// Whether the loader accepts the header: the ELF magic, and an
    /// executable (2) or shared object (3).
    pub open spec fn acceptable(&self) -> bool {
        &&& self.e_ident[0] == 0x7F && self.e_ident[1] == 0x45 && self.e_ident[2] == 0x4C && self.e_ident[3] == 0x46
        &&& (self.e_type == 2 || self.e_type == 3)
    }

    pub fn is_acceptable(&self) -> (r: bool)
        ensures
            r == self.acceptable(),
    {
        self.e_ident[0] == 0x7F && self.e_ident[1] == 0x45 && self.e_ident[2] == 0x4C && self.e_ident[3] == 0x46
            && (self.e_type == 2 || self.e_type == 3)
    }

    /// The bytes of the program header table.
    pub fn phdr_table_size(&self) -> (n: u64)
        ensures
            n == self.e_phnum * self.e_phentsize,
            n <= 0xFFFF * 0xFFFF,
    {
        proof {
            let a = self.e_phnum;
            let b = self.e_phentsize;
            assert(a * b <= 0xFFFF * 0xFFFF) by (nonlinear_arith)
                requires
                    a <= 0xFFFF,
                    b <= 0xFFFF,
            ;
        }
        self.e_phnum as u64 * self.e_phentsize as u64
    }
}

impl Elf64Phdr {
    /// Reads the program header at `off` of `b`.
    pub fn parse(b: &[u8], off: usize) -> (p: Self)
        requires
            off + PHDR_SIZE <= b@.len(),
        ensures
            p == phdr_at(b@, off as int),
    {
        let _n = b.len();
        proof {
            lemma_le_bounds(b@, off as int);
            lemma_le_bounds(b@, off as int + 4);
            lemma_le_bounds(b@, off as int + 8);
            lemma_le_bounds(b@, off as int + 16);
            lemma_le_bounds(b@, off as int + 24);
            lemma_le_bounds(b@, off as int + 32);
            lemma_le_bounds(b@, off as int + 40);
            lemma_le_bounds(b@, off as int + 48);
        }
        Elf64Phdr {
            p_type: read_le32(b, off),
            p_flags: read_le32(b, off + 4),
            p_offset: read_le64(b, off + 8),
            p_vaddr: read_le64(b, off + 16),
            p_paddr: read_le64(b, off + 24),
            p_filesz: read_le64(b, off + 32),
            p_memsz: read_le64(b, off + 40),
            p_align: read_le64(b, off + 48),
        }
    }
}

/// The program headers of a table of `n` entries, `entsize` bytes apart.
pub open spec fn phdrs_of(table: Seq<u8>, n: int, entsize: int) -> Seq<Elf64Phdr> {
    Seq::new(n as nat, |i: int| phdr_at(table, i * entsize))
}

/// Whether every entry of such a table lies within `table`.
pub open spec fn table_holds(table: Seq<u8>, n: int, entsize: int) -> bool {
    n == 0 || (entsize >= PHDR_SIZE && n * entsize <= table.len())
}

/// The lowest start address of a loadable segment, scanning from
/// `u64::MAX` and lowering it at each smaller one.
pub open spec fn load_min(ps: Seq<Elf64Phdr>) -> u64
    decreases ps.len(),
{
    if ps.len() == 0 {
        u64::MAX
    } else {
        let m = load_min(ps.drop_last());
        let p = ps.last();
        if p.p_type == PT_LOAD && p.p_vaddr < m { p.p_vaddr } else { m }
    }
}

/// The highest end address of a loadable segment, 0 when there is none.
pub open spec fn load_max(ps: Seq<Elf64Phdr>) -> int
    decreases ps.len(),
{
    if ps.len() == 0 {
        0
    } else {
        let m = load_max(ps.drop_last());
        let p = ps.last();
        if p.p_type == PT_LOAD && p.p_vaddr + p.p_memsz > m { p.p_vaddr + p.p_memsz } else { m }
    }
}

/// Whether no loadable segment's end overflows 64 bits.
pub open spec fn ends_fit(ps: Seq<Elf64Phdr>) -> bool {
    forall|i: int| 0 <= i < ps.len() && ps[i].p_type == PT_LOAD ==> ps[i].p_vaddr + ps[i].p_memsz <= u64::MAX
}

proof fn lemma_load_bounds(ps: Seq<Elf64Phdr>)
    requires
        ends_fit(ps),
    ensures
        0 <= load_max(ps) <= u64::MAX,
        load_min(ps) < u64::MAX ==> load_min(ps) <= load_max(ps),
        forall|i: int| 0 <= i < ps.len() && ps[i].p_type == PT_LOAD ==>
            load_min(ps) <= ps[i].p_vaddr && ps[i].p_vaddr + ps[i].p_memsz <= load_max(ps),
    decreases ps.len(),
{
    if ps.len() > 0 {
        let t = ps.drop_last();
        assert(forall|i: int| 0 <= i < t.len() ==> t[i] == ps[i]);
        lemma_load_bounds(t);
    }
}

/// The address span of the loadable segments.
#[derive(Clone, Copy, PartialEq, Eq, Structural, Debug)]
pub struct LoadExtent {
    pub min_vaddr: u64,
    pub max_vaddr: u64,
}

/// The span of the loadable segments of a table: `None` when the scan
/// finds no start address below `u64::MAX`.
pub fn load_extent(table: &[u8], n: u16, entsize: u16) -> (r: Option<LoadExtent>)
    requires
        table_holds(table@, n as int, entsize as int),
        ends_fit(phdrs_of(table@, n as int, entsize as int)),
    ensures
        ({
            let ps = phdrs_of(table@, n as int, entsize as int);
            match r {
                Some(e) => load_min(ps) < u64::MAX && e.min_vaddr == load_min(ps) && e.max_vaddr == load_max(ps)
                    && e.min_vaddr <= e.max_vaddr,
                None => load_min(ps) == u64::MAX,
            }
        }),
{
    let ghost ps = phdrs_of(table@, n as int, entsize as int);
    let len = table.len();
    let mut min_vaddr: u64 = u64::MAX;
    let mut max_vaddr: u64 = 0;
    let mut i: u16 = 0;
    while i < n
        invariant
            i <= n,
            table_holds(table@, n as int, entsize as int),
            ends_fit(ps),
            ps == phdrs_of(table@, n as int, entsize as int),
            len == table@.len(),
            min_vaddr == load_min(ps.subrange(0, i as int)),
            max_vaddr == load_max(ps.subrange(0, i as int)),
        decreases n - i,
    {
        proof {
            assert((i as int) * (entsize as int) + PHDR_SIZE <= (n as int) * (entsize as int)) by (nonlinear_arith)
                requires
                    i < n,
                    entsize >= PHDR_SIZE,
            ;
            let s = ps.subrange(0, i as int + 1);
            assert(s.drop_last() =~= ps.subrange(0, i as int));
            assert(ends_fit(s)) by {
                assert forall|k: int| 0 <= k < s.len() && s[k].p_type == PT_LOAD implies s[k].p_vaddr + s[k].p_memsz <= u64::MAX by {
                    assert(s[k] == ps[k]);
                }
            }
            assert(ends_fit(ps.subrange(0, i as int))) by {
                let t = ps.subrange(0, i as int);
                assert forall|k: int| 0 <= k < t.len() && t[k].p_type == PT_LOAD implies t[k].p_vaddr + t[k].p_memsz <= u64::MAX by {
                    assert(t[k] == ps[k]);
                }
            }
            lemma_load_bounds(ps.subrange(0, i as int));
        }
        let off: usize = (i as usize) * (entsize as usize);
        let p = Elf64Phdr::parse(table, off);
        assert(p == ps[i as int]);
        if p.p_type == PT_LOAD {
            if p.p_vaddr < min_vaddr {
                min_vaddr = p.p_vaddr;
            }
            let end = p.p_vaddr + p.p_memsz;
            if end > max_vaddr {
                max_vaddr = end;
            }
        }
        i = i + 1;
    }
    assert(ps.subrange(0, n as int) =~= ps);
    proof {
        lemma_load_bounds(ps);
    }
    if min_vaddr == u64::MAX {
        None
    } else {
        Some(LoadExtent { min_vaddr, max_vaddr })
    }
}

/// `x` bytes rounded up to whole pages.
pub open spec fn pages_for(x: int) -> int {
    (x + 4095) / 4096
}

/// Where address `addr` of the program lands when its lowest address
/// `min` is placed at `base`, in signed 64-bit arithmetic: `None` when that
/// arithmetic overflows.
pub open spec fn relocated(addr: u64, base: u64, min: u64) -> Option<u64> {
    let off = (base as i64) - (min as i64);
    if i64::MIN <= off <= i64::MAX && i64::MIN <= (addr as i64) + off <= i64::MAX {
        Some(((addr as i64) + off) as u64)
    } else {
        None
    }
}

pub fn relocate(addr: u64, base: u64, min: u64) -> (r: Option<u64>)
    ensures
        r == relocated(addr, base, min),
{
    match (base as i64).checked_sub(min as i64) {
        Some(off) => match (addr as i64).checked_add(off) {
            Some(a) => Some(a as u64),
            None => None,
        },
        None => None,
    }
}

/// The first index at or after `k` the loader acts on: a loadable entry
/// with file bytes, or one whose address does not relocate; the table's
/// length when there is none.
pub open spec fn next_action_index(ps: Seq<Elf64Phdr>, k: int, base: u64, min: u64) -> int
    decreases ps.len() - k,
{
    if k >= ps.len() || k < 0 {
        ps.len() as int
    } else if ps[k].p_type == PT_LOAD && (ps[k].p_filesz > 0 || relocated(ps[k].p_vaddr, base, min) is None) {
        k
    } else {
        next_action_index(ps, k + 1, base, min)
    }
}

proof fn lemma_next_action_past_end(ps: Seq<Elf64Phdr>, k: int, base: u64, min: u64)
    requires
        k >= ps.len(),
    ensures
        next_action_index(ps, k, base, min) == ps.len(),
{
}

/// No loadable segment with file bytes is passed over: from any position
/// `i` at or before such a header `k`, the next header the loader acts on
/// is at or before `k`, and from `k` itself it is `k`; so every such
/// header, the last one included, is read before the load finishes.
pub proof fn law_no_loadable_header_skipped(ps: Seq<Elf64Phdr>, i: int, k: int, base: u64, min: u64)
    requires
        0 <= i <= k < ps.len(),
        ps[k].p_type == PT_LOAD,
        ps[k].p_filesz > 0,
    ensures
        i <= next_action_index(ps, i, base, min) <= k,
        next_action_index(ps, k, base, min) == k,
    decreases k - i,
{
    if i < k {
        law_no_loadable_header_skipped(ps, i + 1, k, base, min);
    }
}

/// A load finishes only past every loadable segment with file bytes: when
/// no header is left to act on from `i`, no header at or after `i` is a
/// loadable one with file bytes.
pub proof fn law_finish_only_after_all_loadable(ps: Seq<Elf64Phdr>, i: int, base: u64, min: u64)
    requires
        0 <= i,
        next_action_index(ps, i, base, min) >= ps.len(),
    ensures
        forall|k: int| i <= k < ps.len() ==> !(ps[k].p_type == PT_LOAD && #[trigger] ps[k].p_filesz > 0),
{
    assert forall|k: int| i <= k < ps.len() implies !(ps[k].p_type == PT_LOAD && #[trigger] ps[k].p_filesz > 0) by {
        if ps[k].p_type == PT_LOAD && ps[k].p_filesz > 0 {
            law_no_loadable_header_skipped(ps, i, k, base, min);
        }
    }
}

/// Relocation keeps distances: an address at or above the lowest one lands
/// as far above the base as it lay above the lowest address, whenever the
/// signed arithmetic of the relocation does not overflow.
pub proof fn law_relocation_keeps_offsets(addr: u64, base: u64, min: u64)
    requires
        min <= addr,
        relocated(addr, base, min) is Some,
        base + (addr - min) <= u64::MAX,
    ensures
        relocated(addr, base, min) == Some((base + (addr - min)) as u64),
{
    assert(((addr as i64) + ((base as i64) - (min as i64))) as u64 == (base + (addr - min)) as u64) by (bit_vector)
        requires
            min <= addr,
            base + (addr - min) <= u64::MAX,
            i64::MIN <= (base as i64) - (min as i64) <= i64::MAX,
            i64::MIN <= (addr as i64) + ((base as i64) - (min as i64)) <= i64::MAX,
    ;
}

/// A program in memory: its entry point, base address and image size, and
/// the path it was loaded from.
pub struct LoadedElf {
    pub entry: u64,
    pub base_addr: u64,
    pub size: u64,
    pub path: Vec<u8>,
}

/// What the load asks of the kernel next.
pub enum ElfLoadAction {
    /// Open the file at the path; report the descriptor (negative on failure).
    Open,
    /// Seek to 0 and read 64 bytes; report what was read.
    ReadHeader { fd: u32 },
    /// Map `pages` pages for the program header table; report the address.
    MapTable { pages: u64 },
    /// Seek to `offset` and read `len` bytes into the table; report them.
    ReadTable { fd: u32, offset: u64, len: u64 },
    /// Map `pages` pages for the image; report the address.
    MapImage { pages: u64 },
    /// Zero `len` bytes at `base`, then ask for the next step.
    ZeroImage { base: u64, len: u64 },
    /// Seek to `offset` and read `len` bytes to `dest`, then ask for the next step.
    ReadSegment { fd: u32, offset: u64, dest: u64, len: u64 },
    /// Close the descriptor; the load is over, with this result.
    Finish { fd: u32, loaded: bool },
    /// The file could not be opened; the load is over, with no result.
    Fail,
}

/// A load in progress.
pub struct ElfLoad {
    pub path: Vec<u8>,
    pub fd: u32,
    pub header: Option<Elf64Header>,
    pub table: Vec<u8>,
    pub extent: Option<LoadExtent>,
    pub base_addr: u64,
    /// The next program header to look at for a segment to read.
    pub next_phdr: u16,
}

/// The load's first step.
pub fn load_elf(path: &[u8]) -> (r: (ElfLoad, ElfLoadAction))
    ensures
        r.0.path@ == path@,
        r.0.header is None,
        r.1 is Open,
{
    let mut p: Vec<u8> = Vec::new();
    crate::bytes::push_all(&mut p, path);
    (ElfLoad { path: p, fd: 0, header: None, table: Vec::new(), extent: None, base_addr: 0, next_phdr: 0 }, ElfLoadAction::Open)
}

impl ElfLoad {
    /// The descriptor `fd` came back from the open.
    pub fn opened(&mut self, fd: i32) -> (a: ElfLoadAction)
        ensures
            fd < 0 ==> a is Fail,
            fd >= 0 ==> final(self).fd == fd && a == (ElfLoadAction::ReadHeader { fd: fd as u32 }),
            final(self).path == old(self).path,
            final(self).header == old(self).header,
    {
        if fd < 0 {
            ElfLoadAction::Fail
        } else {
            self.fd = fd as u32;
            ElfLoadAction::ReadHeader { fd: fd as u32 }
        }
    }

    /// The header read returned `n` (bytes read, or negative) with `bytes`.
    /// A short read or a header the loader does not accept ends the load.
    pub fn header_read(&mut self, n: i64, bytes: &[u8]) -> (a: ElfLoadAction)
        requires
            n == ELF_HEADER_SIZE ==> bytes@.len() >= ELF_HEADER_SIZE,
        ensures
            final(self).fd == old(self).fd,
            final(self).path == old(self).path,
            n != ELF_HEADER_SIZE ==> a == (ElfLoadAction::Finish { fd: old(self).fd, loaded: false }),
            n == ELF_HEADER_SIZE ==> (match final(self).header {
                Some(h) => header_from(bytes@, h) && if h.acceptable() {
                    a == (ElfLoadAction::MapTable { pages: pages_for(h.e_phnum * h.e_phentsize) as u64 })
                } else {
                    a == (ElfLoadAction::Finish { fd: old(self).fd, loaded: false })
                },
                None => false,
            }),
    {
        if n != ELF_HEADER_SIZE as i64 {
            return ElfLoadAction::Finish { fd: self.fd, loaded: false };
        }
        let h = Elf64Header::parse(bytes);
        self.header = Some(h);
        if !h.is_acceptable() {
            return ElfLoadAction::Finish { fd: self.fd, loaded: false };
        }
        let total = h.phdr_table_size();
        ElfLoadAction::MapTable { pages: (total + 4095) / 4096 }
    }

    /// The table's pages were mapped; read the table into them.
    pub fn table_mapped(&self) -> (a: ElfLoadAction)
        requires
            self.header is Some,
        ensures
            a == (ElfLoadAction::ReadTable {
                fd: self.fd,
                offset: self.header.unwrap().e_phoff,
                len: (self.header.unwrap().e_phnum * self.header.unwrap().e_phentsize) as u64,
            }),
    {
        let h = self.header.unwrap();
        ElfLoadAction::ReadTable { fd: self.fd, offset: h.e_phoff, len: h.phdr_table_size() }
    }

    /// The table came back as `table`. The load ends when there is no
    /// loadable segment, and is refused when an entry lies outside the table
    /// or an address computation would overflow.
    pub fn table_read(&mut self, table: &[u8]) -> (a: ElfLoadAction)
        requires
            old(self).header is Some,
        ensures
            final(self).fd == old(self).fd,
            final(self).path == old(self).path,
            final(self).header == old(self).header,
            final(self).table@ == table@,
            ({
                let h = old(self).header.unwrap();
                let ps = phdrs_of(table@, h.e_phnum as int, h.e_phentsize as int);
                if table_holds(table@, h.e_phnum as int, h.e_phentsize as int) && ends_fit(ps)
                    && load_min(ps) < u64::MAX && load_max(ps) - load_min(ps) + 4095 <= u64::MAX {
                    final(self).extent == Some(LoadExtent { min_vaddr: load_min(ps), max_vaddr: load_max(ps) as u64 })
                        && final(self).ready()
                        && a == (ElfLoadAction::MapImage { pages: pages_for(load_max(ps) - load_min(ps)) as u64 })
                } else {
                    a == (ElfLoadAction::Finish { fd: old(self).fd, loaded: false })
                }
            }),
    {
        let h = self.header.unwrap();
        let mut t: Vec<u8> = Vec::new();
        crate::bytes::push_all(&mut t, table);
        self.table = t;
        let n = h.e_phnum;
        let es = h.e_phentsize;
        let ghost ps = phdrs_of(table@, n as int, es as int);
        if n > 0 && ((es as usize) < PHDR_SIZE || h.phdr_table_size() > table.len() as u64) {
            return ElfLoadAction::Finish { fd: self.fd, loaded: false };
        }
        if !ends_fit_exec(table, n, es) {
            return ElfLoadAction::Finish { fd: self.fd, loaded: false };
        }
        match load_extent(table, n, es) {
            None => ElfLoadAction::Finish { fd: self.fd, loaded: false },
            Some(e) => {
                let size = e.max_vaddr - e.min_vaddr;
                if size > u64::MAX - 4095 {
                    return ElfLoadAction::Finish { fd: self.fd, loaded: false };
                }
                self.extent = Some(e);
                ElfLoadAction::MapImage { pages: (size + 4095) / 4096 }
            },
        }
    }

    /// A load past its table read: header, extent and a table whose entries all lie in it.
    pub open spec fn ready(&self) -> bool {
        &&& self.header is Some
        &&& self.extent is Some
        &&& self.extent.unwrap().min_vaddr <= self.extent.unwrap().max_vaddr
        &&& table_holds(self.table@, self.header.unwrap().e_phnum as int, self.header.unwrap().e_phentsize as int)
    }

    /// The program headers of the table read.
    pub open spec fn phdrs(&self) -> Seq<Elf64Phdr> {
        phdrs_of(self.table@, self.header.unwrap().e_phnum as int, self.header.unwrap().e_phentsize as int)
    }

    /// The next segment to read, or the end of the load. A segment is read
    /// when it is loadable and has file bytes; every loadable segment's
    /// address is relocated, and the load is refused when that overflows,
    /// or, at the end, when the entry point's does.
    pub fn next_segment(&mut self) -> (a: ElfLoadAction)
        requires
            old(self).ready(),
        ensures
            final(self).ready(),
            final(self).fd == old(self).fd,
            final(self).path == old(self).path,
            final(self).header == old(self).header,
            final(self).table == old(self).table,
            final(self).extent == old(self).extent,
            final(self).base_addr == old(self).base_addr,
            ({
                let ps = old(self).phdrs();
                let base = old(self).base_addr;
                let min = old(self).extent.unwrap().min_vaddr;
                let j = next_action_index(ps, old(self).next_phdr as int, base, min);
                if j < ps.len() {
                    match relocated(ps[j].p_vaddr, base, min) {
                        Some(dest) => a == (ElfLoadAction::ReadSegment { fd: old(self).fd, offset: ps[j].p_offset, dest, len: ps[j].p_filesz })
                            && final(self).next_phdr == j + 1,
                        None => a == (ElfLoadAction::Finish { fd: old(self).fd, loaded: false }),
                    }
                } else {
                    a == (ElfLoadAction::Finish {
                        fd: old(self).fd,
                        loaded: relocated(old(self).header.unwrap().e_entry, base, min) is Some,
                    })
                }
            }),
    {
        let h = self.header.unwrap();
        let e = self.extent.unwrap();
        let n = h.e_phnum;
        let es = h.e_phentsize;
        let ghost ps = self.phdrs();
        let ghost s0 = *self;
        let len = self.table.len();
        let mut k: u16 = self.next_phdr;
        if k > n {
            k = n;
            proof {
                lemma_next_action_past_end(ps, self.next_phdr as int, self.base_addr, e.min_vaddr);
                lemma_next_action_past_end(ps, n as int, self.base_addr, e.min_vaddr);
            }
        }
        while k < n
            invariant
                k <= n,
                *self == s0,
                s0 == *old(self),
                len == self.table@.len(),
                n == h.e_phnum,
                es == h.e_phentsize,
                self.ready(),
                self.header == Some(h),
                self.extent == Some(e),
                ps == self.phdrs(),
                next_action_index(ps, self.next_phdr as int, self.base_addr, e.min_vaddr)
                    == next_action_index(ps, k as int, self.base_addr, e.min_vaddr),
            decreases n - k,
        {
            proof {
                if n > 0 {
                    assert((k as int) * (es as int) + PHDR_SIZE <= (n as int) * (es as int)) by (nonlinear_arith)
                        requires
                            k < n,
                            es >= PHDR_SIZE,
                    ;
                }
            }
            let p = Elf64Phdr::parse(&self.table, (k as usize) * (es as usize));
            assert(p == ps[k as int]);
            if p.p_type == PT_LOAD {
                match relocate(p.p_vaddr, self.base_addr, e.min_vaddr) {
                    None => {
                        return ElfLoadAction::Finish { fd: self.fd, loaded: false };
                    },
                    Some(dest) => {
                        if p.p_filesz > 0 {
                            self.next_phdr = k + 1;
                            return ElfLoadAction::ReadSegment { fd: self.fd, offset: p.p_offset, dest, len: p.p_filesz };
                        }
                    },
                }
            }
            k = k + 1;
        }
        let ok = match relocate(h.e_entry, self.base_addr, e.min_vaddr) {
            Some(_) => true,
            None => false,
        };
        ElfLoadAction::Finish { fd: self.fd, loaded: ok }
    }

    /// The loaded program, once `next_segment` has finished with `loaded`.
    pub fn loaded(&self) -> (r: Option<LoadedElf>)
        requires
            self.ready(),
        ensures
            ({
                let min = self.extent.unwrap().min_vaddr;
                match relocated(self.header.unwrap().e_entry, self.base_addr, min) {
                    Some(entry) => r matches Some(l) && l.entry == entry && l.base_addr == self.base_addr
                        && l.size == self.extent.unwrap().max_vaddr - min && l.path@ == self.path@,
                    None => r is None,
                }
            }),
    {
        let h = self.header.unwrap();
        let e = self.extent.unwrap();
        match relocate(h.e_entry, self.base_addr, e.min_vaddr) {
            Some(entry) => {
                let mut p: Vec<u8> = Vec::new();
                crate::bytes::push_all(&mut p, self.path.as_slice());
                Some(LoadedElf { entry, base_addr: self.base_addr, size: e.max_vaddr - e.min_vaddr, path: p })
            },
            None => None,
        }
    }

    /// The image was mapped at `base`; zero it.
    pub fn image_mapped(&mut self, base: u64) -> (a: ElfLoadAction)
        requires
            old(self).ready(),
        ensures
            final(self).base_addr == base,
            final(self).next_phdr == 0,
            final(self).fd == old(self).fd,
            final(self).path == old(self).path,
            final(self).header == old(self).header,
            final(self).table == old(self).table,
            final(self).extent == old(self).extent,
            final(self).ready(),
            a == (ElfLoadAction::ZeroImage {
                base,
                len: (old(self).extent.unwrap().max_vaddr - old(self).extent.unwrap().min_vaddr) as u64,
            }),
    {
        let e = self.extent.unwrap();
        self.base_addr = base;
        self.next_phdr = 0;
        ElfLoadAction::ZeroImage { base, len: e.max_vaddr - e.min_vaddr }
    }
}

/// Whether no loadable entry of the table ends past 64 bits.
pub fn ends_fit_exec(table: &[u8], n: u16, entsize: u16) -> (r: bool)
    requires
        table_holds(table@, n as int, entsize as int),
    ensures
        r == ends_fit(phdrs_of(table@, n as int, entsize as int)),
{
    let ghost ps = phdrs_of(table@, n as int, entsize as int);
    let len = table.len();
    let mut i: u16 = 0;
    while i < n
        invariant
            i <= n,
            table_holds(table@, n as int, entsize as int),
            ps == phdrs_of(table@, n as int, entsize as int),
            len == table@.len(),
            forall|k: int| 0 <= k < i && ps[k].p_type == PT_LOAD ==> ps[k].p_vaddr + ps[k].p_memsz <= u64::MAX,
        decreases n - i,
    {
        proof {
            assert((i as int) * (entsize as int) + PHDR_SIZE <= (n as int) * (entsize as int)) by (nonlinear_arith)
                requires
                    i < n,
                    entsize >= PHDR_SIZE,
            ;
        }
        let p = Elf64Phdr::parse(table, (i as usize) * (entsize as usize));
        assert(p == ps[i as int]);
        if p.p_type == PT_LOAD && p.p_vaddr > u64::MAX - p.p_memsz {
            return false;
        }
        i = i + 1;
    }
    true
}

} // verus!
