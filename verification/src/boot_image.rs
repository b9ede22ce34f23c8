//! The boot loader's view of the kernel image: parsed with `xmas_elf`, each
//! loadable segment becomes a page-aligned range to allocate, a range of the
//! file to copy to its address, and a tail to zero.
//!
//! `xmas_elf` reads header fields in the machine's byte order; the contracts
//! below state them little-endian, the byte order of the x86-64 machines this
//! library runs on.
use vstd::prelude::*;
use xmas_elf::ElfFile;
use xmas_elf::header::Class;
use xmas_elf::program::ProgramHeader;
use xmas_elf::program::Type;
use crate::bytes::{le16, le32, le64};
use uefi::data_types::Align;
use uefi::proto::media::file::FileInfo;

verus! {

#[verifier::external_type_specification]
#[verifier::external_body]
pub struct ExElfFile<'a>(ElfFile<'a>);

#[verifier::external_type_specification]
#[verifier::external_body]
pub struct ExProgramHeader<'a>(ProgramHeader<'a>);

/// Whether `d` starts with the ELF magic.
pub open spec fn has_elf_magic(d: Seq<u8>) -> bool {
    d.len() >= 4 && d[0] == 0x7F && d[1] == 0x45 && d[2] == 0x4C && d[3] == 0x46
}

/// Whether the file is 64-bit (class byte 2); otherwise, once parsed, 32-bit.
pub open spec fn elf_is64(d: Seq<u8>) -> bool {
    d[4] == 2
}

/// Whether `xmas_elf` parses the ELF header of `d`: the magic, a class of
/// 1 (32-bit) or 2 (64-bit), and the whole header of that class (52 or 64
/// bytes).
pub open spec fn elf_parses(d: Seq<u8>) -> bool {
    &&& d.len() >= 16
    &&& has_elf_magic(d)
    &&& (d[4] == 1 && d.len() >= 52) || (d[4] == 2 && d.len() >= 64)
}

/// The entry point field of the header.
pub open spec fn elf_entry(d: Seq<u8>) -> nat {
    if elf_is64(d) { le64(d, 24) } else { le32(d, 24) }
}

/// The program header table's file offset.
pub open spec fn elf_ph_offset(d: Seq<u8>) -> nat {
    if elf_is64(d) { le64(d, 32) } else { le32(d, 28) }
}

/// The size of one program header table entry.
pub open spec fn elf_ph_entry_size(d: Seq<u8>) -> nat {
    if elf_is64(d) { le16(d, 54) } else { le16(d, 42) }
}

/// The number of program header table entries.
pub open spec fn elf_ph_count(d: Seq<u8>) -> nat {
    if elf_is64(d) { le16(d, 56) } else { le16(d, 44) }
}

/// Whether `xmas_elf` hands out program headers at all: a table offset and
/// an entry size that are not zero.
pub open spec fn ph_table_present(d: Seq<u8>) -> bool {
    elf_ph_offset(d) > 0 && elf_ph_entry_size(d) > 0
}

/// The size (and the alignment) of the program header structure of the class.
pub open spec fn ph_struct_size(d: Seq<u8>) -> nat {
    if elf_is64(d) { 56 } else { 32 }
}

pub open spec fn ph_struct_align(d: Seq<u8>) -> nat {
    if elf_is64(d) { 8 } else { 4 }
}

/// Where entry `i` of the program header table starts.
pub open spec fn ph_start(d: Seq<u8>, i: int) -> int {
    elf_ph_offset(d) + i * elf_ph_entry_size(d)
}

/// Whether entry `i` can be read: it lies in the file, holds the class's
/// structure, and starts on that structure's alignment.
pub open spec fn ph_entry_readable(d: Seq<u8>, i: int) -> bool {
    &&& ph_start(d, i) + elf_ph_entry_size(d) <= d.len()
    &&& elf_ph_entry_size(d) >= ph_struct_size(d)
    &&& ph_start(d, i) % (ph_struct_align(d) as int) == 0
}

/// The type, file offset, address, file size and memory size of program
/// header `i`.
pub open spec fn ph_type(d: Seq<u8>, i: int) -> nat {
    le32(d, ph_start(d, i))
}

pub open spec fn ph_offset_of(d: Seq<u8>, i: int) -> nat {
    if elf_is64(d) { le64(d, ph_start(d, i) + 8) } else { le32(d, ph_start(d, i) + 4) }
}

pub open spec fn ph_vaddr_of(d: Seq<u8>, i: int) -> nat {
    if elf_is64(d) { le64(d, ph_start(d, i) + 16) } else { le32(d, ph_start(d, i) + 8) }
}

pub open spec fn ph_file_size_of(d: Seq<u8>, i: int) -> nat {
    if elf_is64(d) { le64(d, ph_start(d, i) + 32) } else { le32(d, ph_start(d, i) + 16) }
}

pub open spec fn ph_mem_size_of(d: Seq<u8>, i: int) -> nat {
    if elf_is64(d) { le64(d, ph_start(d, i) + 40) } else { le32(d, ph_start(d, i) + 20) }
}

/// A file parsed by `xmas_elf`, kept with the bytes it was parsed from.
/// Only `elf_file_new` makes one, so its parsed header is always that of
/// its bytes, and those bytes start at an address that is a multiple of 8.
pub struct ElfImage<'a> {
    elf: ElfFile<'a>,
    data: &'a [u8],
}

impl<'a> View for ElfImage<'a> {
    type V = Seq<u8>;

    closed spec fn view(&self) -> Seq<u8> {
        self.data@
    }
}

/// Program header `index` of a parsed file, kept with the file's bytes and
/// the index. Only `elf_program_header` makes one.
pub struct ElfProgramHeader<'a> {
    ph: ProgramHeader<'a>,
    data: &'a [u8],
    index: u16,
}

impl<'a> View for ElfProgramHeader<'a> {
    type V = (Seq<u8>, u16);

    closed spec fn view(&self) -> (Seq<u8>, u16) {
        (self.data@, self.index)
    }
}

/// Bytes whose first byte lies at an address that is a multiple of 8, the
/// alignment of every structure `xmas_elf` reads in place. Only
/// `align_for_headers` makes one.
pub struct HeaderAligned<'a> {
    bytes: &'a mut [u8],
}

impl<'a> View for HeaderAligned<'a> {
    type V = Seq<u8>;

    closed spec fn view(&self) -> Seq<u8> {
        self.bytes@
    }
}

/// `uefi::data_types::Align::align_buf` with `FileInfo`'s alignment of 8:
/// the part of `buf` from its first byte whose address is a multiple of 8.
/// As its source shows, that part starts `align_offset(8)` bytes in, an
/// offset below 8 for a byte pointer, so it is a suffix of `buf` that
/// starts within its first 8 bytes, and it exists whenever `buf` has 8
/// bytes or more.
#[verifier::external_body]
fn align_for_headers<'a>(buf: &'a mut [u8]) -> (r: Option<HeaderAligned<'a>>)
    ensures
        old(buf)@.len() >= 8 ==> r is Some,
        r matches Some(a) ==> a@.len() <= old(buf)@.len() && a@.len() + 8 > old(buf)@.len(),
        r matches Some(a) ==> a@ == old(buf)@.subrange(old(buf)@.len() - a@.len(), old(buf)@.len() as int),
{
    match FileInfo::align_buf(buf) {
        Some(bytes) => Some(HeaderAligned { bytes }),
        None => None,
    }
}

/// `xmas_elf::ElfFile::new` on the first `len` bytes of `buf`: parses the
/// ELF header at their start. As its source shows, it succeeds exactly when
/// they have the magic, a 32- or 64-bit class and the whole header of that
/// class; it reads the header in place, which the alignment of `buf` allows.
#[verifier::external_body]
fn elf_file_new<'a>(buf: HeaderAligned<'a>, len: usize) -> (r: Result<ElfImage<'a>, &'static str>)
    requires
        len <= buf@.len(),
    ensures
        r is Ok <==> elf_parses(buf@.subrange(0, len as int)),
        r matches Ok(img) ==> img@ == buf@.subrange(0, len as int),
{
    let whole: &'a [u8] = buf.bytes;
    let data = &whole[..len];
    match ElfFile::new(data) {
        Ok(elf) => Ok(ElfImage { elf, data }),
        Err(e) => Err(e),
    }
}

/// `HeaderPt1::class`, told apart as 64-bit or not.
#[verifier::external_body]
fn elf_class_is64(img: &ElfImage) -> (r: bool)
    requires
        elf_parses(img@),
    ensures
        r == elf_is64(img@),
{
    match img.elf.header.pt1.class() {
        Class::SixtyFour => true,
        _ => false,
    }
}

/// `HeaderPt2::entry_point`: the entry point field.
#[verifier::external_body]
fn elf_entry_point(img: &ElfImage) -> (r: u64)
    requires
        elf_parses(img@),
    ensures
        r == elf_entry(img@),
{
    img.elf.header.pt2.entry_point()
}

/// `HeaderPt2::ph_offset`: the program header table's offset.
#[verifier::external_body]
fn elf_ph_offset_field(img: &ElfImage) -> (r: u64)
    requires
        elf_parses(img@),
    ensures
        r == elf_ph_offset(img@),
{
    img.elf.header.pt2.ph_offset()
}

/// `HeaderPt2::ph_entry_size`: the size of a program header table entry.
#[verifier::external_body]
fn elf_ph_entry_size_field(img: &ElfImage) -> (r: u16)
    requires
        elf_parses(img@),
    ensures
        r == elf_ph_entry_size(img@),
{
    img.elf.header.pt2.ph_entry_size()
}

/// `HeaderPt2::ph_count`: the number of program header table entries.
#[verifier::external_body]
fn elf_ph_count_field(img: &ElfImage) -> (r: u16)
    requires
        elf_parses(img@),
    ensures
        r == elf_ph_count(img@),
{
    img.elf.header.pt2.ph_count()
}

/// `ElfFile::program_header`: program header `index`. As its source shows,
/// it refuses an index past the count and a file whose table offset or
/// entry size is zero, and otherwise reads the entry in place, panicking
/// when the entry runs past the file, is smaller than the class's
/// structure, or is not aligned for it; `requires` leaves out all of these.
/// The file's bytes start at an address that is a multiple of 8 (they come
/// from a `HeaderAligned`), so an entry offset aligned for the structure
/// gives an aligned address.
#[verifier::external_body]
fn elf_program_header<'a>(img: &ElfImage<'a>, index: u16) -> (r: Result<ElfProgramHeader<'a>, &'static str>)
    requires
        elf_parses(img@),
        index < elf_ph_count(img@) && ph_table_present(img@) ==> ph_entry_readable(img@, index as int),
    ensures
        r is Ok <==> (index < elf_ph_count(img@) && ph_table_present(img@)),
        r matches Ok(h) ==> h@.0 == img@,
        r matches Ok(h) ==> h@.1 == index,
{
    match img.elf.program_header(index) {
        Ok(ph) => Ok(ElfProgramHeader { ph, data: img.data, index }),
        Err(e) => Err(e),
    }
}

/// Whether program header `i` of `d` is a header `ElfProgramHeader` can hold.
pub open spec fn ph_held(d: Seq<u8>, i: int) -> bool {
    &&& elf_parses(d)
    &&& 0 <= i < elf_ph_count(d)
    &&& ph_table_present(d)
    &&& ph_entry_readable(d, i)
}

/// `ProgramHeader::get_type`, told apart as loadable (type 1) or not.
#[verifier::external_body]
fn ph_is_load(ph: &ElfProgramHeader) -> (r: bool)
    requires
        ph_held(ph@.0, ph@.1 as int),
    ensures
        r == (ph_type(ph@.0, ph@.1 as int) == 1),
{
    match ph.ph.get_type() {
        Ok(Type::Load) => true,
        _ => false,
    }
}

/// `ProgramHeader::virtual_addr`.
#[verifier::external_body]
fn ph_virtual_addr(ph: &ElfProgramHeader) -> (r: u64)
    requires
        ph_held(ph@.0, ph@.1 as int),
    ensures
        r == ph_vaddr_of(ph@.0, ph@.1 as int),
{
    ph.ph.virtual_addr()
}

/// `ProgramHeader::mem_size`.
#[verifier::external_body]
fn ph_mem_size(ph: &ElfProgramHeader) -> (r: u64)
    requires
        ph_held(ph@.0, ph@.1 as int),
    ensures
        r == ph_mem_size_of(ph@.0, ph@.1 as int),
{
    ph.ph.mem_size()
}

/// `ProgramHeader::file_size`.
#[verifier::external_body]
fn ph_file_size(ph: &ElfProgramHeader) -> (r: u64)
    requires
        ph_held(ph@.0, ph@.1 as int),
    ensures
        r == ph_file_size_of(ph@.0, ph@.1 as int),
{
    ph.ph.file_size()
}

/// `ProgramHeader::offset`.
#[verifier::external_body]
fn ph_offset(ph: &ElfProgramHeader) -> (r: u64)
    requires
        ph_held(ph@.0, ph@.1 as int),
    ensures
        r == ph_offset_of(ph@.0, ph@.1 as int),
{
    ph.ph.offset()
}

/// The pages a segment of `mem_size` bytes at `start` occupies: from the
/// page holding `start` to the page boundary at or after its end.
#[derive(Clone, Copy, PartialEq, Eq, Structural, Debug)]
pub struct PageSpan {
    pub aligned_start: u64,
    pub aligned_end: u64,
    pub pages: u64,
}

pub open spec fn page_floor(x: int) -> int {
    x - x % 4096
}

/// The page span of a segment.
pub fn segment_pages(start: u64, mem_size: u64) -> (s: PageSpan)
    requires
        start + mem_size + 0xfff <= u64::MAX,
    ensures
        s.aligned_start == page_floor(start as int),
        s.aligned_end == page_floor(start + mem_size + 0xfff),
        s.pages == (s.aligned_end - s.aligned_start) / 4096,
        s.aligned_start <= start,
        start + mem_size <= s.aligned_end,
{
    let aligned_start = start & !0xfffu64;
    let aligned_end = (start + mem_size + 0xfff) & !0xfffu64;
    proof {
        let e = (start + mem_size + 0xfff) as u64;
        assert(start & !0xfffu64 == start - start % 4096) by (bit_vector);
        assert(e & !0xfffu64 == e - e % 4096) by (bit_vector);
    }
    PageSpan { aligned_start, aligned_end, pages: (aligned_end - aligned_start) / 0x1000 }
}

/// One loadable segment of the kernel: where it goes, what to copy there
/// from the file, and how many bytes after that to zero.
#[derive(Clone, Copy, PartialEq, Eq, Structural, Debug)]
pub struct KernelSegment {
    pub vaddr: u64,
    pub mem_size: u64,
    pub file_size: u64,
    pub offset: u64,
    pub span: PageSpan,
    /// Bytes to zero after the copied ones (0 when the memory size is not larger).
    pub zero_len: u64,
}

/// The kernel image: where to jump, and the segments to place.
pub struct KernelImage {
    pub entry_point: u64,
    pub segments: Vec<KernelSegment>,
}

/// Why the kernel image cannot be placed.
#[derive(Clone, Copy, PartialEq, Eq, Structural, Debug)]
pub enum KernelImageError {
    /// `xmas_elf` refused the file.
    Parse,
    /// The program header table runs past the file, has entries smaller
    /// than the class's program header, or entries not aligned for it.
    HeaderTable,
    /// A loadable segment's page range runs past 64 bits.
    SpanOverflow,
    /// A loadable segment's file bytes lie outside the file.
    OutsideFile,
}

/// Whether the table's entries can all be read, when there are entries to read.
pub open spec fn ph_table_readable(d: Seq<u8>) -> bool {
    elf_ph_count(d) > 0 && ph_table_present(d) ==> {
        &&& elf_ph_offset(d) + elf_ph_count(d) * elf_ph_entry_size(d) <= d.len()
        &&& elf_ph_entry_size(d) >= ph_struct_size(d)
        &&& elf_ph_offset(d) % ph_struct_align(d) == 0
        &&& elf_ph_count(d) > 1 ==> elf_ph_entry_size(d) % ph_struct_align(d) == 0
    }
}

/// How many program headers `xmas_elf` hands out.
pub open spec fn ph_listed(d: Seq<u8>) -> nat {
    if ph_table_present(d) { elf_ph_count(d) } else { 0 }
}

/// The plan for the loadable segment of program header `i`.
pub open spec fn segment_of(d: Seq<u8>, i: int) -> KernelSegment {
    let vaddr = ph_vaddr_of(d, i);
    let mem_size = ph_mem_size_of(d, i);
    let file_size = ph_file_size_of(d, i);
    let start = page_floor(vaddr as int);
    let end = page_floor((vaddr + mem_size + 0xfff) as int);
    KernelSegment {
        vaddr: vaddr as u64,
        mem_size: mem_size as u64,
        file_size: file_size as u64,
        offset: ph_offset_of(d, i) as u64,
        span: PageSpan { aligned_start: start as u64, aligned_end: end as u64, pages: ((end - start) / 4096) as u64 },
        zero_len: (if mem_size > file_size { mem_size - file_size } else { 0 }) as u64,
    }
}

/// The segments planned from the first `k` program headers, in order, or
/// the refusal of the first loadable one whose page range runs past 64 bits
/// or whose file bytes lie outside the file.
pub open spec fn segments_plan(d: Seq<u8>, k: nat) -> Result<Seq<KernelSegment>, KernelImageError>
    decreases k,
{
    if k == 0 {
        Ok(Seq::empty())
    } else {
        let i = k - 1;
        match segments_plan(d, (k - 1) as nat) {
            Err(e) => Err(e),
            Ok(s) => if ph_type(d, i) != 1 {
                Ok(s)
            } else if ph_vaddr_of(d, i) + ph_mem_size_of(d, i) + 0xfff > u64::MAX {
                Err(KernelImageError::SpanOverflow)
            } else if ph_offset_of(d, i) + ph_file_size_of(d, i) > d.len() {
                Err(KernelImageError::OutsideFile)
            } else {
                Ok(s.push(segment_of(d, i)))
            },
        }
    }
}

/// The indices, below `k`, of the loadable program headers of `d`, in table order.
pub open spec fn load_indices(d: Seq<u8>, k: nat) -> Seq<int> {
    Seq::new(k, |i: int| i).filter(|i: int| ph_type(d, i) == 1)
}

/// The plan has one segment per loadable program header, in table order:
/// when the first `k` headers plan without refusal, the j-th segment is
/// the plan of the j-th loadable header among them, and there are as many
/// segments as loadable headers.
pub proof fn law_one_segment_per_loadable_header(d: Seq<u8>, k: nat)
    ensures
        segments_plan(d, k) matches Ok(segs) ==> {
            &&& segs.len() == load_indices(d, k).len()
            &&& forall|j: int| 0 <= j < segs.len() ==> #[trigger] segs[j] == segment_of(d, load_indices(d, k)[j])
        },
    decreases k,
{
    reveal_with_fuel(Seq::filter, 2);
    if k > 0 {
        law_one_segment_per_loadable_header(d, (k - 1) as nat);
        assert(Seq::new(k, |i: int| i).drop_last() =~= Seq::new((k - 1) as nat, |i: int| i));
        assert(Seq::new(k, |i: int| i).last() == k - 1);
    }
}

/// The kernel image planned from `d`: refused when `xmas_elf` does not
/// parse it or its program header table cannot be read, else the segments
/// of its loadable program headers in table order.
pub open spec fn kernel_plan(d: Seq<u8>) -> Result<Seq<KernelSegment>, KernelImageError> {
    if !elf_parses(d) {
        Err(KernelImageError::Parse)
    } else if !ph_table_readable(d) {
        Err(KernelImageError::HeaderTable)
    } else {
        segments_plan(d, ph_listed(d))
    }
}

/// A planned kernel image loads every loadable program header the file
/// lists: one segment each, in table order, none dropped.
pub proof fn law_kernel_plan_loads_every_segment(d: Seq<u8>)
    ensures
        kernel_plan(d) matches Ok(segs) ==> {
            &&& segs.len() == load_indices(d, ph_listed(d)).len()
            &&& forall|j: int| 0 <= j < segs.len() ==> #[trigger] segs[j] == segment_of(d, load_indices(d, ph_listed(d))[j])
        },
{
    law_one_segment_per_loadable_header(d, ph_listed(d));
}

/// Parses the kernel file with `xmas_elf` and plans its loadable segments
/// in program header order, with the file's entry point. The bytes are
/// first copied to a buffer whose start `uefi` aligns to 8, since
/// `xmas_elf` reads the headers in place; a program header table that it
/// could not read there is refused before any header is read.
#[verifier::rlimit(30)]
pub fn kernel_image(data: &[u8]) -> (r: Result<KernelImage, KernelImageError>)
    requires
        data@.len() + 8 <= usize::MAX,
    ensures
        match r {
            Ok(img) => kernel_plan(data@) == Ok::<Seq<KernelSegment>, KernelImageError>(img.segments@)
                && img.entry_point == elf_entry(data@),
            Err(e) => kernel_plan(data@) == Err::<Seq<KernelSegment>, KernelImageError>(e),
        },
{
    let n = data.len();
    let mut buf: Vec<u8> = Vec::new();
    let mut k: usize = 0;
    while k < n + 8
        invariant
            k <= n + 8,
            n + 8 <= usize::MAX,
            buf@.len() == k,
        decreases n + 8 - k,
    {
        buf.push(0);
        k = k + 1;
    }
    let mut aligned = match align_for_headers(buf.as_mut_slice()) {
        Some(a) => a,
        None => {
            assert(false);
            return Err(KernelImageError::Parse);
        },
    };
    let mut i: usize = 0;
    while i < n
        invariant
            i <= n,
            n == data@.len(),
            aligned@.len() > n,
            aligned@.subrange(0, i as int) == data@.subrange(0, i as int),
        decreases n - i,
    {
        aligned.bytes[i] = data[i];
        i = i + 1;
        assert(aligned@.subrange(0, i as int) =~= data@.subrange(0, i as int));
    }
    assert(aligned@.subrange(0, n as int) =~= data@);
    let img = match elf_file_new(aligned, n) {
        Ok(e) => e,
        Err(_) => {
            return Err(KernelImageError::Parse);
        },
    };
    let ghost d0 = data@;
    let entry_point = elf_entry_point(&img);
    let is64 = elf_class_is64(&img);
    let table = elf_ph_offset_field(&img);
    let entsize = elf_ph_entry_size_field(&img) as u64;
    let count = elf_ph_count_field(&img);
    let (size, align): (u64, u64) = if is64 { (56, 8) } else { (32, 4) };
    let present = table > 0 && entsize > 0;
    let len = data.len() as u64;
    assert(is64 ==> size == ph_struct_size(d0) && align == ph_struct_align(d0));
    assert(!is64 ==> size == ph_struct_size(d0) && align == ph_struct_align(d0));
    if count > 0 && present {
        assert(count as u64 * entsize <= 0xFFFF * 0xFFFF) by (nonlinear_arith)
            requires
                count <= 0xFFFF,
                entsize <= 0xFFFF,
        ;
        let span = count as u64 * entsize;
        if table > len || span > len - table || entsize < size || table % align != 0 || (count > 1 && entsize % align != 0) {
            return Err(KernelImageError::HeaderTable);
        }
    }
    let listed: u16 = if present { count } else { 0 };
    let ghost d = data@;
    let mut segments: Vec<KernelSegment> = Vec::new();
    let mut i: u16 = 0;
    while i < listed
        invariant
            i <= listed,
            img@ == d,
            d == data@,
            len == d.len(),
            elf_parses(d),
            ph_table_readable(d),
            listed == ph_listed(d),
            segments_plan(d, i as nat) == Ok::<Seq<KernelSegment>, KernelImageError>(segments@),
        decreases listed - i,
    {
        proof {
            lemma_entry_readable(d, i as int);
        }
        let ph = match elf_program_header(&img, i) {
            Ok(h) => h,
            Err(_) => {
                return Err(KernelImageError::HeaderTable);
            },
        };
        if ph_is_load(&ph) {
            let vaddr = ph_virtual_addr(&ph);
            let mem_size = ph_mem_size(&ph);
            let file_size = ph_file_size(&ph);
            let offset = ph_offset(&ph);
            if vaddr > u64::MAX - 0xfff || mem_size > u64::MAX - 0xfff - vaddr {
                proof {
                    lemma_plan_err_sticks(d, (i + 1) as nat, listed as nat);
                }
                return Err(KernelImageError::SpanOverflow);
            }
            if offset > len || file_size > len - offset {
                proof {
                    lemma_plan_err_sticks(d, (i + 1) as nat, listed as nat);
                }
                return Err(KernelImageError::OutsideFile);
            }
            let span = segment_pages(vaddr, mem_size);
            let zero_len = if mem_size > file_size { mem_size - file_size } else { 0 };
            let seg = KernelSegment { vaddr, mem_size, file_size, offset, span, zero_len };
            assert(seg == segment_of(d, i as int));
            assert(segments_plan(d, (i + 1) as nat) == Ok::<Seq<KernelSegment>, KernelImageError>(segments@.push(seg)));
            segments.push(seg);
        } else {
            assert(segments_plan(d, (i + 1) as nat) == segments_plan(d, i as nat));
        }
        i = i + 1;
    }
    Ok(KernelImage { entry_point, segments })
}

/// Once the plan of the first `j` headers is refused, so is that of more.
proof fn lemma_plan_err_sticks(d: Seq<u8>, j: nat, k: nat)
    requires
        j <= k,
        segments_plan(d, j) is Err,
    ensures
        segments_plan(d, k) == segments_plan(d, j),
    decreases k - j,
{
    if j < k {
        lemma_plan_err_sticks(d, j, (k - 1) as nat);
    }
}

/// Every listed entry of a readable table can be read.
proof fn lemma_entry_readable(d: Seq<u8>, i: int)
    requires
        elf_parses(d),
        ph_table_readable(d),
        0 <= i < elf_ph_count(d),
        ph_table_present(d),
    ensures
        ph_entry_readable(d, i),
{
    let es = elf_ph_entry_size(d) as int;
    let a = ph_struct_align(d) as int;
    assert(i * es + es <= elf_ph_count(d) * es) by (nonlinear_arith)
        requires
            0 <= i < elf_ph_count(d),
            es >= 0,
    ;
    if i == 0 {
        assert(ph_start(d, 0) == elf_ph_offset(d));
    } else {
        let q = es / a;
        vstd::arithmetic::div_mod::lemma_fundamental_div_mod(es, a);
        assert(es == a * q);
        assert(i * (a * q) == a * (i * q)) by (nonlinear_arith);
        vstd::arithmetic::div_mod::lemma_mod_multiples_vanish(i * q, elf_ph_offset(d) as int, a);
        assert(a * (i * q) + elf_ph_offset(d) == ph_start(d, i));
    }
}

} // verus!
