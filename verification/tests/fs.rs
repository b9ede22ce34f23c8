use std::collections::HashMap;

use forward_os::fd::FdTable;
use forward_os::fs::dir_walk::{set_entry_size, DirOutcome, DirQuery, DirWalk, WalkAction};
use forward_os::fs::file_read::{FileRead, ReadAction};
use forward_os::fs::file_write::{FileWrite, WriteAction, WriteOutcome};
use forward_os::fs::names::{bytes_eq_ignore_ascii_case, bytes_starts_with, format_short_name};
use forward_os::fs::volume::{fat_entry_value, partition_lba, DirectoryEntry, Fat32Bpb, SimpleFileSystem};

const PART: u64 = 2048;
const RESERVED: u16 = 32;
const FAT_SZ: u32 = 100;
const FAT_LBA: u64 = PART + RESERVED as u64;
const DATA_LBA: u64 = PART + RESERVED as u64 + 2 * FAT_SZ as u64;

fn mbr() -> Vec<u8> {
    let mut m = vec![0u8; 512];
    m[454..458].copy_from_slice(&(PART as u32).to_le_bytes());
    m
}

fn vbr(bytes_per_sec: u16, spc: u8) -> Vec<u8> {
    let mut v = vec![0u8; 512];
    v[11..13].copy_from_slice(&bytes_per_sec.to_le_bytes());
    v[13] = spc;
    v[14..16].copy_from_slice(&RESERVED.to_le_bytes());
    v[16] = 2;
    v[36..40].copy_from_slice(&FAT_SZ.to_le_bytes());
    v[44..48].copy_from_slice(&2u32.to_le_bytes());
    v
}

fn entry(name: &[u8; 11], attr: u8, cluster: u32, size: u32) -> [u8; 32] {
    let mut e = [0u8; 32];
    e[..11].copy_from_slice(name);
    e[11] = attr;
    e[20..22].copy_from_slice(&((cluster >> 16) as u16).to_le_bytes());
    e[26..28].copy_from_slice(&(cluster as u16).to_le_bytes());
    e[28..32].copy_from_slice(&size.to_le_bytes());
    e
}

struct Disk {
    sectors: HashMap<u64, Vec<u8>>,
}

impl Disk {
    fn read(&self, lba: u64) -> Vec<u8> {
        self.sectors.get(&lba).cloned().unwrap_or_else(|| vec![0u8; 512])
    }
    fn set_fat(&mut self, cluster: u32, value: u32) {
        let lba = FAT_LBA + (cluster as u64 * 4) / 512;
        let mut s = self.read(lba);
        let o = ((cluster as u64 * 4) % 512) as usize;
        s[o..o + 4].copy_from_slice(&value.to_le_bytes());
        self.sectors.insert(lba, s);
    }
}

/// A volume with one sector per cluster: root directory in cluster 2
/// (continued in cluster 5), HELLO.TXT in clusters 3 -> 4, directory DOCS in 6.
fn disk() -> Disk {
    let mut d = Disk { sectors: HashMap::new() };
    d.sectors.insert(0, mbr());
    d.sectors.insert(PART, vbr(512, 1));
    let mut root = vec![0u8; 512];
    root[0..32].copy_from_slice(&entry(b"DELETED TXT", 0x20, 9, 1));
    root[0] = 0xE5;
    root[32..64].copy_from_slice(&entry(b"LONGNAMEPAR", 0x0F, 0, 0));
    for k in 2..16 {
        let name = format!("FILE{:02}  BIN", k);
        let mut n = [0u8; 11];
        n.copy_from_slice(name.as_bytes());
        root[k * 32..k * 32 + 32].copy_from_slice(&entry(&n, 0x20, 100 + k as u32, k as u32));
    }
    d.sectors.insert(DATA_LBA, root);
    let mut root2 = vec![0u8; 512];
    root2[0..32].copy_from_slice(&entry(b"HELLO   TXT", 0x20, 3, 700));
    root2[32..64].copy_from_slice(&entry(b"DOCS       ", 0x10, 6, 0));
    d.sectors.insert(DATA_LBA + 3, root2);
    d.set_fat(2, 5);
    d.set_fat(5, 0x0FFF_FFFF);
    d.set_fat(3, 4);
    d.set_fat(4, 0x0FFF_FFFF);
    d.set_fat(6, 0x0FFF_FFFF);
    d.sectors.insert(DATA_LBA + 1, vec![b'a'; 512]);
    d.sectors.insert(DATA_LBA + 2, vec![b'b'; 512]);
    d
}

fn volume(d: &Disk) -> SimpleFileSystem {
    let part = partition_lba(&d.read(0));
    SimpleFileSystem::init(0, 0, 0, part, &d.read(part)).unwrap()
}

fn walk(d: &Disk, fs: &SimpleFileSystem, cluster: u32, q: DirQuery) -> (DirOutcome, Vec<Vec<u8>>) {
    let (mut w, mut act) = DirWalk::start(fs, cluster, q);
    loop {
        match act {
            WalkAction::Read(lba) => act = w.step(&d.read(lba)),
            WalkAction::Finished(o) => return (o, w.listing.clone()),
        }
    }
}

#[test]
fn volume_geometry_from_boot_sector() {
    let d = disk();
    let fs = volume(&d);
    assert_eq!(fs.part_lba, 2048);
    assert_eq!(fs.cluster_begin_lba, DATA_LBA);
    assert_eq!(fs.get_fat_lba(), FAT_LBA);
    assert_eq!(fs.get_lba_of_cluster(2), DATA_LBA);
    assert_eq!(fs.get_lba_of_cluster(7), DATA_LBA + 5);
    assert_eq!(fs.root_cluster, 2);
    let b = Fat32Bpb::parse(&vbr(512, 8));
    assert_eq!(b.sectors_per_clus, 8);
    assert_eq!(b.fat_sz32, FAT_SZ);
}

#[test]
fn volume_with_other_sector_size_is_refused() {
    assert!(SimpleFileSystem::init(0, 0, 0, 2048, &vbr(4096, 1)).is_none());
}

#[test]
fn directory_entry_fields() {
    let e = entry(b"HELLO   TXT", 0x20, 0x0012_0034, 700);
    let de = DirectoryEntry::parse(&e, 0);
    assert_eq!(&de.name, b"HELLO   TXT");
    assert_eq!(de.first_cluster(), 0x0012_0034);
    assert_eq!(de.file_size, 700);
}

#[test]
fn fat_entry_masks_top_bits() {
    let mut s = vec![0u8; 512];
    s[12..16].copy_from_slice(&0xF000_0007u32.to_le_bytes());
    assert_eq!(fat_entry_value(&s, 3), 7);
    assert_eq!(fat_entry_value(&s, 3 + 128), 7);
}

#[test]
fn short_names() {
    assert_eq!(format_short_name(b"HELLO   TXT"), b"HELLO.TXT".to_vec());
    assert_eq!(format_short_name(b"DOCS       "), b"DOCS".to_vec());
    assert!(bytes_eq_ignore_ascii_case(b"hello.txt", b"HELLO.TXT"));
    assert!(!bytes_eq_ignore_ascii_case(b"hello.tx", b"HELLO.TXT"));
    assert!(bytes_starts_with(b"DOCS       ", b"DOC"));
    assert!(!bytes_starts_with(b"DO", b"DOC"));
}

#[test]
fn find_entry_follows_the_chain() {
    let d = disk();
    let fs = volume(&d);
    let (o, _) = walk(&d, &fs, 2, DirQuery::Entry(b"hello.txt".to_vec()));
    match o {
        DirOutcome::Entry { cluster, size } => {
            assert_eq!(cluster, 3);
            assert_eq!(size, 700);
        }
        _ => panic!("HELLO.TXT not found"),
    }
    let (o, _) = walk(&d, &fs, 2, DirQuery::Entry(b"FILE07.BIN".to_vec()));
    assert!(matches!(o, DirOutcome::Entry { cluster: 107, size: 7 }));
    let (o, _) = walk(&d, &fs, 2, DirQuery::Entry(b"NOPE.TXT".to_vec()));
    assert!(matches!(o, DirOutcome::NotFound));
    // Deleted entries are skipped.
    let (o, _) = walk(&d, &fs, 2, DirQuery::Entry(b"ELETED.TXT".to_vec()));
    assert!(matches!(o, DirOutcome::NotFound));
}

#[test]
fn find_directory_by_prefix() {
    let d = disk();
    let fs = volume(&d);
    let (o, _) = walk(&d, &fs, 2, DirQuery::Directory(b"DOC".to_vec()));
    assert!(matches!(o, DirOutcome::Directory { cluster: 6 }));
    // A file with that prefix is not a directory.
    let (o, _) = walk(&d, &fs, 2, DirQuery::Directory(b"HELLO".to_vec()));
    assert!(matches!(o, DirOutcome::NotFound));
}

#[test]
fn list_directory_names() {
    let d = disk();
    let fs = volume(&d);
    let (o, names) = walk(&d, &fs, 2, DirQuery::List);
    assert!(matches!(o, DirOutcome::Listed));
    assert_eq!(names.len(), 16);
    assert_eq!(names[0], b"FILE02.BIN".to_vec());
    assert_eq!(names[14], b"HELLO.TXT".to_vec());
    assert_eq!(names[15], b"DOCS/".to_vec());
}

#[test]
fn end_of_chain_cluster_is_an_empty_directory() {
    let d = disk();
    let fs = volume(&d);
    let (o, names) = walk(&d, &fs, 0x0FFF_FFF8, DirQuery::List);
    assert!(matches!(o, DirOutcome::Listed));
    assert!(names.is_empty());
    let (o, _) = walk(&d, &fs, 0, DirQuery::Entry(b"A".to_vec()));
    assert!(matches!(o, DirOutcome::NotFound));
}

#[test]
fn update_entry_size() {
    let d = disk();
    let fs = volume(&d);
    let (o, _) = walk(&d, &fs, 2, DirQuery::SetSize { target: 3, new_size: 1234 });
    match o {
        DirOutcome::Updated { lba, sector } => {
            assert_eq!(lba, DATA_LBA + 3);
            assert_eq!(&sector[28..32], &1234u32.to_le_bytes());
            assert_eq!(&sector[..28], &d.read(DATA_LBA + 3)[..28]);
        }
        _ => panic!("entry not updated"),
    }
    let s = set_entry_size(&d.read(DATA_LBA + 3), 1, 99);
    assert_eq!(&s[32 + 28..32 + 32], &99u32.to_le_bytes());
}

fn read_file(d: &Disk, fs: &SimpleFileSystem, cluster: u32, offset: u64, n: u64) -> Vec<u8> {
    let (mut r, mut act) = FileRead::start(fs, cluster, offset, n);
    loop {
        match act {
            ReadAction::Read(lba) => act = r.step(&d.read(lba)),
            ReadAction::Done(k) => {
                assert_eq!(k as usize, r.data.len());
                return r.data.clone();
            }
        }
    }
}

#[test]
fn read_file_across_clusters() {
    let d = disk();
    let fs = volume(&d);
    let data = read_file(&d, &fs, 3, 500, 24);
    assert_eq!(data, [vec![b'a'; 12], vec![b'b'; 12]].concat());
    // Reading from the second cluster skips the first.
    assert_eq!(read_file(&d, &fs, 3, 600, 10), vec![b'b'; 10]);
    // The read stops at the end of the chain.
    assert_eq!(read_file(&d, &fs, 3, 1000, 100).len(), 24);
    assert!(read_file(&d, &fs, 3, 0, 0).is_empty());
}

fn write_file(d: &mut Disk, fs: &SimpleFileSystem, cluster: u32, offset: u64, data: &[u8]) -> WriteOutcome {
    let (mut w, mut act) = FileWrite::start(fs, cluster, offset, data.to_vec());
    let mut last = vec![0u8; 512];
    loop {
        match act {
            WriteAction::Read(lba) => {
                last = d.read(lba);
                act = w.step(&last);
            }
            WriteAction::Write(lba, s) => {
                d.sectors.insert(lba, s);
                act = w.step(&last);
            }
            WriteAction::Finished(o) => return o,
        }
    }
}

#[test]
fn write_file_in_place_and_growing() {
    let mut d = disk();
    let fs = volume(&d);
    assert!(matches!(write_file(&mut d, &fs, 3, 510, b"XYZW"), WriteOutcome::Wrote(4)));
    assert_eq!(&d.read(DATA_LBA + 1)[508..512], b"aaXY");
    assert_eq!(&d.read(DATA_LBA + 2)[0..3], b"ZWb");
    // Writing past the chain's end links a new cluster (the first free one, 7).
    assert!(matches!(write_file(&mut d, &fs, 3, 1030, b"new"), WriteOutcome::Wrote(3)));
    assert_eq!(fat_entry_value(&d.read(FAT_LBA), 4), 7);
    assert_eq!(fat_entry_value(&d.read(FAT_LBA), 7), 0x0FFF_FFFF);
    assert_eq!(&d.read(DATA_LBA + 5)[6..9], b"new");
}

#[test]
fn written_bytes_read_back() {
    let mut d = disk();
    let fs = volume(&d);
    let payload: Vec<u8> = (0..40u8).collect();
    assert!(matches!(write_file(&mut d, &fs, 3, 495, &payload), WriteOutcome::Wrote(40)));
    assert_eq!(read_file(&d, &fs, 3, 495, 40), payload);
    // The bytes around the write are untouched.
    assert_eq!(read_file(&d, &fs, 3, 490, 5), vec![b'a'; 5]);
    // A write past the chain's end reads back through the new link.
    assert!(matches!(write_file(&mut d, &fs, 3, 1030, b"tail"), WriteOutcome::Wrote(4)));
    assert_eq!(read_file(&d, &fs, 3, 1030, 4), b"tail".to_vec());
}

#[test]
fn open_found_entry_gets_a_descriptor() {
    let d = disk();
    let fs = volume(&d);
    let mut t = FdTable::new();
    let (o, _) = walk(&d, &fs, 2, DirQuery::Entry(b"HELLO.TXT".to_vec()));
    let fd = t.open_found(&o);
    assert_eq!(fd, 3);
    let st = t.sys_fstat(3).unwrap();
    assert_eq!(st.cluster, 3);
    assert_eq!(st.file_size, 700);
    assert_eq!(t.open_found(&DirOutcome::NotFound), -1);
}
