use forward_os::boot_image::{kernel_image, segment_pages, KernelImageError, PageSpan};
use forward_os::elf::{load_elf, load_extent, relocate, Elf64Header, Elf64Phdr, ElfLoadAction, LoadExtent};

fn phdr(t: u32, offset: u64, vaddr: u64, filesz: u64, memsz: u64) -> Vec<u8> {
    let mut p = Vec::new();
    p.extend_from_slice(&t.to_le_bytes());
    p.extend_from_slice(&5u32.to_le_bytes());
    p.extend_from_slice(&offset.to_le_bytes());
    p.extend_from_slice(&vaddr.to_le_bytes());
    p.extend_from_slice(&vaddr.to_le_bytes());
    p.extend_from_slice(&filesz.to_le_bytes());
    p.extend_from_slice(&memsz.to_le_bytes());
    p.extend_from_slice(&0x1000u64.to_le_bytes());
    p
}

/// An executable with a loadable segment of 0x20 file bytes (0x30 in
/// memory) at 0x401000, file offset 0x100, and a note.
fn image(e_type: u16, phdrs: &[Vec<u8>]) -> Vec<u8> {
    let mut d = vec![0x7F, b'E', b'L', b'F', 2, 1, 1, 0, 0, 0, 0, 0, 0, 0, 0, 0];
    d.extend_from_slice(&e_type.to_le_bytes());
    d.extend_from_slice(&0x3Eu16.to_le_bytes());
    d.extend_from_slice(&1u32.to_le_bytes());
    d.extend_from_slice(&0x401000u64.to_le_bytes());
    d.extend_from_slice(&64u64.to_le_bytes());
    d.extend_from_slice(&0u64.to_le_bytes());
    d.extend_from_slice(&0u32.to_le_bytes());
    d.extend_from_slice(&64u16.to_le_bytes());
    d.extend_from_slice(&56u16.to_le_bytes());
    d.extend_from_slice(&(phdrs.len() as u16).to_le_bytes());
    d.extend_from_slice(&0u16.to_le_bytes());
    d.extend_from_slice(&0u16.to_le_bytes());
    d.extend_from_slice(&0u16.to_le_bytes());
    assert_eq!(d.len(), 64);
    for p in phdrs {
        d.extend_from_slice(p);
    }
    d.resize(0x120, 0xCC);
    d
}

fn program() -> Vec<u8> {
    image(2, &[phdr(1, 0x100, 0x401000, 0x20, 0x30), phdr(4, 0, 0x500000, 0, 0)])
}

#[test]
fn header_and_program_headers_parse() {
    let d = program();
    let h = Elf64Header::parse(&d);
    assert!(h.is_acceptable());
    assert_eq!(h.e_entry, 0x401000);
    assert_eq!(h.e_phoff, 64);
    assert_eq!((h.e_phnum, h.e_phentsize), (2, 56));
    assert_eq!(h.phdr_table_size(), 112);
    let p = Elf64Phdr::parse(&d, 64);
    assert_eq!((p.p_type, p.p_offset, p.p_vaddr, p.p_filesz, p.p_memsz), (1, 0x100, 0x401000, 0x20, 0x30));
    assert!(!Elf64Header::parse(&image(1, &[])).is_acceptable());
    let mut bad = program();
    bad[1] = b'X';
    assert!(!Elf64Header::parse(&bad).is_acceptable());
}

#[test]
fn extent_of_loadable_segments() {
    let table = [phdr(1, 0, 0x2000, 0, 0x100), phdr(1, 0, 0x1000, 0, 0x10), phdr(2, 0, 0x10, 0, 0x10)].concat();
    assert_eq!(load_extent(&table, 3, 56), Some(LoadExtent { min_vaddr: 0x1000, max_vaddr: 0x2100 }));
    assert_eq!(load_extent(&table[112..], 1, 56), None);
    assert_eq!(load_extent(&[], 0, 56), None);
}

#[test]
fn relocation_arithmetic() {
    assert_eq!(relocate(0x401010, 0x200000, 0x401000), Some(0x200010));
    assert_eq!(relocate(0x10, 0x8000, 0x0), Some(0x8010));
    // The signed offset overflows.
    assert_eq!(relocate(0, 0x7FFF_FFFF_FFFF_FFFF, 0x8000_0000_0000_0000), None);
}

#[test]
fn load_a_program() {
    let d = program();
    let (mut l, a) = load_elf(b"APP.ELF");
    assert!(matches!(a, ElfLoadAction::Open));
    assert!(matches!(l.opened(3), ElfLoadAction::ReadHeader { fd: 3 }));
    assert!(matches!(l.header_read(64, &d[..64]), ElfLoadAction::MapTable { pages: 1 }));
    assert!(matches!(l.table_mapped(), ElfLoadAction::ReadTable { fd: 3, offset: 64, len: 112 }));
    assert!(matches!(l.table_read(&d[64..176]), ElfLoadAction::MapImage { pages: 1 }));
    assert!(matches!(l.image_mapped(0x200000), ElfLoadAction::ZeroImage { base: 0x200000, len: 0x30 }));
    assert!(matches!(
        l.next_segment(),
        ElfLoadAction::ReadSegment { fd: 3, offset: 0x100, dest: 0x200000, len: 0x20 }
    ));
    assert!(matches!(l.next_segment(), ElfLoadAction::Finish { fd: 3, loaded: true }));
    let e = l.loaded().unwrap();
    assert_eq!((e.entry, e.base_addr, e.size), (0x200000, 0x200000, 0x30));
    assert_eq!(e.path, b"APP.ELF".to_vec());
}

#[test]
fn load_failures() {
    let (mut l, _) = load_elf(b"X");
    assert!(matches!(l.opened(-1), ElfLoadAction::Fail));
    let (mut l, _) = load_elf(b"X");
    l.opened(4);
    assert!(matches!(l.header_read(10, &[0u8; 10]), ElfLoadAction::Finish { fd: 4, loaded: false }));
    let (mut l, _) = load_elf(b"X");
    l.opened(4);
    assert!(matches!(l.header_read(64, &image(1, &[])[..64]), ElfLoadAction::Finish { fd: 4, loaded: false }));
    // No loadable segment.
    let d = image(2, &[phdr(4, 0, 0x500000, 0, 0)]);
    let (mut l, _) = load_elf(b"X");
    l.opened(4);
    l.header_read(64, &d[..64]);
    assert!(matches!(l.table_read(&d[64..120]), ElfLoadAction::Finish { fd: 4, loaded: false }));
}

#[test]
fn kernel_image_through_xmas_elf() {
    let d = program();
    let img = kernel_image(&d).unwrap();
    assert_eq!(img.entry_point, 0x401000);
    assert_eq!(img.segments.len(), 1);
    let s = img.segments[0];
    assert_eq!((s.vaddr, s.mem_size, s.file_size, s.offset, s.zero_len), (0x401000, 0x30, 0x20, 0x100, 0x10));
    assert_eq!(s.span, PageSpan { aligned_start: 0x401000, aligned_end: 0x402000, pages: 1 });
}

#[test]
fn kernel_image_refusals() {
    assert_eq!(kernel_image(&[0x7F, b'E', b'L']).err(), Some(KernelImageError::Parse));
    let mut bad = program();
    bad[0] = 0;
    assert_eq!(kernel_image(&bad).err(), Some(KernelImageError::Parse));
    let outside = image(2, &[phdr(1, 0x100, 0x401000, 0x1000, 0x1000)]);
    assert_eq!(kernel_image(&outside).err(), Some(KernelImageError::OutsideFile));
    let wrap = image(2, &[phdr(1, 0, u64::MAX - 0x100, 0, 0x10)]);
    assert_eq!(kernel_image(&wrap).err(), Some(KernelImageError::SpanOverflow));
}

/// A 32-bit executable with one loadable segment at 0x8048000.
fn image32() -> Vec<u8> {
    let mut d = vec![0x7F, b'E', b'L', b'F', 1, 1, 1, 0, 0, 0, 0, 0, 0, 0, 0, 0];
    d.extend_from_slice(&2u16.to_le_bytes());
    d.extend_from_slice(&3u16.to_le_bytes());
    d.extend_from_slice(&1u32.to_le_bytes());
    d.extend_from_slice(&0x8048010u32.to_le_bytes());
    d.extend_from_slice(&52u32.to_le_bytes());
    d.extend_from_slice(&0u32.to_le_bytes());
    d.extend_from_slice(&0u32.to_le_bytes());
    d.extend_from_slice(&52u16.to_le_bytes());
    d.extend_from_slice(&32u16.to_le_bytes());
    d.extend_from_slice(&1u16.to_le_bytes());
    d.extend_from_slice(&[0u8; 6]);
    assert_eq!(d.len(), 52);
    for v in [1u32, 0x60, 0x8048000, 0x8048000, 0x10, 0x2000, 5, 0x1000] {
        d.extend_from_slice(&v.to_le_bytes());
    }
    d.resize(0x80, 0);
    d
}

#[test]
fn kernel_image_of_a_32_bit_file() {
    let img = kernel_image(&image32()).unwrap();
    assert_eq!(img.entry_point, 0x8048010);
    assert_eq!(img.segments.len(), 1);
    let s = img.segments[0];
    assert_eq!((s.vaddr, s.mem_size, s.file_size, s.offset, s.zero_len), (0x8048000, 0x2000, 0x10, 0x60, 0x1FF0));
    assert_eq!(s.span, PageSpan { aligned_start: 0x8048000, aligned_end: 0x804A000, pages: 2 });
}

#[test]
fn kernel_image_header_tables() {
    // A table that runs past the file.
    let mut short = program();
    short.truncate(100);
    assert_eq!(kernel_image(&short).err(), Some(KernelImageError::HeaderTable));
    // Entries smaller than a 64-bit program header.
    let mut small = program();
    small[54..56].copy_from_slice(&40u16.to_le_bytes());
    assert_eq!(kernel_image(&small).err(), Some(KernelImageError::HeaderTable));
    // A table that does not start on an 8-byte boundary.
    let mut odd = program();
    odd[32..40].copy_from_slice(&65u64.to_le_bytes());
    assert_eq!(kernel_image(&odd).err(), Some(KernelImageError::HeaderTable));
    // No table offset: no program headers, no segments.
    let mut none = program();
    none[32..40].copy_from_slice(&0u64.to_le_bytes());
    let img = kernel_image(&none).unwrap();
    assert!(img.segments.is_empty());
    assert_eq!(img.entry_point, 0x401000);
    // An unknown class is refused by the parser.
    let mut class = program();
    class[4] = 3;
    assert_eq!(kernel_image(&class).err(), Some(KernelImageError::Parse));
}

#[test]
fn page_spans() {
    assert_eq!(segment_pages(0x401234, 0x10), PageSpan { aligned_start: 0x401000, aligned_end: 0x402000, pages: 1 });
    assert_eq!(segment_pages(0x400FF0, 0x20), PageSpan { aligned_start: 0x400000, aligned_end: 0x402000, pages: 2 });
    assert_eq!(segment_pages(0x1000, 0), PageSpan { aligned_start: 0x1000, aligned_end: 0x1000, pages: 0 });
}
