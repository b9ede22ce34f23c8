//! Partition and boot sector parsing, and the cluster and FAT arithmetic of a FAT32 volume.
use vstd::prelude::*;
use crate::bytes::{le16, le32, read_le16, read_le32};

verus! {

/// The BIOS parameter block at the start of a FAT32 volume.
pub struct Fat32Bpb {
    pub jmp: [u8; 3],
    pub oem: [u8; 8],
    pub bytes_per_sec: u16,
    pub sectors_per_clus: u8,
    pub reserved_secs: u16,
    pub num_fats: u8,
    pub root_ent_cnt: u16,
    pub tot_sec16: u16,
    pub media: u8,
    pub fat_sz16: u16,
    pub sec_per_trk: u16,
    pub num_heads: u16,
    pub hidd_sec: u32,
    pub tot_sec32: u32,
    pub fat_sz32: u32,
    pub ext_flags: u16,
    pub fs_ver: u16,
    pub root_cluster: u32,
}

impl Fat32Bpb {
    /// Reads the parameter block from the first 48 bytes of a boot sector.
    pub fn parse(s: &[u8]) -> (b: Self)
        requires
            s@.len() >= 48,
        ensures
            b.jmp@ == s@.subrange(0, 3),
            b.oem@ == s@.subrange(3, 11),
            b.bytes_per_sec == le16(s@, 11),
            b.sectors_per_clus == s@[13],
            b.reserved_secs == le16(s@, 14),
            b.num_fats == s@[16],
            b.root_ent_cnt == le16(s@, 17),
            b.tot_sec16 == le16(s@, 19),
            b.media == s@[21],
            b.fat_sz16 == le16(s@, 22),
            b.sec_per_trk == le16(s@, 24),
            b.num_heads == le16(s@, 26),
            b.hidd_sec == le32(s@, 28),
            b.tot_sec32 == le32(s@, 32),
            b.fat_sz32 == le32(s@, 36),
            b.ext_flags == le16(s@, 40),
            b.fs_ver == le16(s@, 42),
            b.root_cluster == le32(s@, 44),
    {
        let jmp = [s[0], s[1], s[2]];
        let oem = [s[3], s[4], s[5], s[6], s[7], s[8], s[9], s[10]];
        assert(jmp@ =~= s@.subrange(0, 3));
        assert(oem@ =~= s@.subrange(3, 11));
        Fat32Bpb {
            jmp,
            oem,
            bytes_per_sec: read_le16(s, 11),
            sectors_per_clus: s[13],
            reserved_secs: read_le16(s, 14),
            num_fats: s[16],
            root_ent_cnt: read_le16(s, 17),
            tot_sec16: read_le16(s, 19),
            media: s[21],
            fat_sz16: read_le16(s, 22),
            sec_per_trk: read_le16(s, 24),
            num_heads: read_le16(s, 26),
            hidd_sec: read_le32(s, 28),
            tot_sec32: read_le32(s, 32),
            fat_sz32: read_le32(s, 36),
            ext_flags: read_le16(s, 40),
            fs_ver: read_le16(s, 42),
            root_cluster: read_le32(s, 44),
        }
    }
}

/// A 32-byte FAT directory entry.
pub struct DirectoryEntry {
    pub name: [u8; 11],
    pub attr: u8,
    pub nt_res: u8,
    pub crt_time_te: u8,
    pub crt_time: u16,
    pub crt_date: u16,
    pub lst_acc_date: u16,
    pub fst_clus_hi: u16,
    pub lst_wrt_time: u16,
    pub lst_wrt_date: u16,
    pub fst_clus_lo: u16,
    pub file_size: u32,
}

/// The first cluster of the entry at `off`.
pub open spec fn entry_first_cluster(s: Seq<u8>, off: int) -> nat {
    le16(s, off + 20) * 0x10000 + le16(s, off + 26)
}

impl DirectoryEntry {
    /// Reads the entry at byte `off`.
    pub fn parse(s: &[u8], off: usize) -> (e: Self)
        requires
            off + 32 <= s@.len(),
        ensures
            e.name@ == s@.subrange(off as int, off + 11),
            e.attr == s@[off + 11],
            e.nt_res == s@[off + 12],
            e.crt_time_te == s@[off + 13],
            e.crt_time == le16(s@, off + 14),
            e.crt_date == le16(s@, off + 16),
            e.lst_acc_date == le16(s@, off + 18),
            e.fst_clus_hi == le16(s@, off + 20),
            e.lst_wrt_time == le16(s@, off + 22),
            e.lst_wrt_date == le16(s@, off + 24),
            e.fst_clus_lo == le16(s@, off + 26),
            e.file_size == le32(s@, off + 28),
    {
        let name = [
            s[off], s[off + 1], s[off + 2], s[off + 3], s[off + 4], s[off + 5], s[off + 6],
            s[off + 7], s[off + 8], s[off + 9], s[off + 10],
        ];
        assert(name@ =~= s@.subrange(off as int, off + 11));
        DirectoryEntry {
            name,
            attr: s[off + 11],
            nt_res: s[off + 12],
            crt_time_te: s[off + 13],
            crt_time: read_le16(s, off + 14),
            crt_date: read_le16(s, off + 16),
            lst_acc_date: read_le16(s, off + 18),
            fst_clus_hi: read_le16(s, off + 20),
            lst_wrt_time: read_le16(s, off + 22),
            lst_wrt_date: read_le16(s, off + 24),
            fst_clus_lo: read_le16(s, off + 26),
            file_size: read_le32(s, off + 28),
        }
    }

    /// The entry's first cluster, from its high and low halves.
    pub fn first_cluster(&self) -> (c: u32)
        ensures
            c == self.fst_clus_hi as nat * 0x10000 + self.fst_clus_lo as nat,
    {
        (self.fst_clus_hi as u32) * 0x10000 + self.fst_clus_lo as u32
    }
}

/// Where the volume's structures lie on the disk.
pub struct SimpleFileSystem {
    pub abar: u64,
    pub port: usize,
    pub cl_base: u64,
    pub cluster_begin_lba: u64,
    pub sectors_per_clus: u8,
    pub root_cluster: u32,
    pub reserved_secs: u16,
    pub fat_sz32: u32,
    pub num_fats: u8,
    pub part_lba: u64,
}

/// The starting LBA of the first partition, from the MBR's partition table.
pub open spec fn mbr_partition_lba(mbr: Seq<u8>) -> nat {
    le32(mbr, 454)
}

/// The first partition's starting LBA, read from the MBR sector.
pub fn partition_lba(mbr: &[u8]) -> (lba: u64)
    requires
        mbr@.len() >= 458,
    ensures
        lba == mbr_partition_lba(mbr@),
{
    read_le32(mbr, 454) as u64
}

/// The LBA of the first sector of `cluster`.
pub open spec fn cluster_lba(begin: u64, spc: u8, cluster: u32) -> int {
    begin + (cluster - 2) * spc
}

/// Whether the sum `cluster_lba` computes stays within 64 bits.
pub open spec fn cluster_lba_fits(begin: u64, spc: u8, cluster: u32) -> bool {
    cluster >= 2 && begin + (cluster - 2) * spc <= u64::MAX
}

/// The LBA of the FAT sector that holds `cluster`'s entry.
pub open spec fn fat_sector_lba(fat_lba: u64, cluster: u32) -> int {
    fat_lba + (cluster as int * 4) / 512
}

/// The byte offset of `cluster`'s entry within its FAT sector.
pub open spec fn fat_entry_offset(cluster: u32) -> int {
    (cluster as int * 4) % 512
}

/// The 28-bit FAT entry of `cluster`, read from its FAT sector.
pub open spec fn fat_link(fat_sector: Seq<u8>, cluster: u32) -> nat {
    le32(fat_sector, fat_entry_offset(cluster)) % 0x1000_0000
}

/// Whether a FAT link leads to a further cluster of the chain.
pub open spec fn link_continues(next: nat) -> bool {
    next < 0x0FFF_FFF8 && next != 0
}

/// The 28-bit FAT entry of `cluster` in the FAT sector that holds it.
pub fn fat_entry_value(fat_sector: &[u8], cluster: u32) -> (v: u32)
    requires
        fat_sector@.len() >= 512,
    ensures
        v == fat_link(fat_sector@, cluster),
{
    let off = ((cluster as u64 * 4) % 512) as usize;
    let raw = read_le32(fat_sector, off);
    let v = raw & 0x0FFF_FFFF;
    assert(raw & 0x0FFF_FFFFu32 == raw % 0x1000_0000) by (bit_vector);
    v
}

/// The byte offset of `cluster`'s entry within its FAT sector.
pub fn fat_offset_in_sector(cluster: u32) -> (off: usize)
    ensures
        off == fat_entry_offset(cluster),
        off + 4 <= 512,
{
    ((cluster as u64 * 4) % 512) as usize
}

impl SimpleFileSystem {
    /// The volume described by the boot sector `vbr` of the partition at
    /// `part_lba`, or `None` unless its sectors are 512 bytes.
    pub fn init(abar: u64, port: usize, cl_ptr: u64, part_lba: u64, vbr: &[u8]) -> (fs: Option<Self>)
        requires
            vbr@.len() >= 48,
            part_lba <= u32::MAX,
        ensures
            fs.is_some() <==> le16(vbr@, 11) == 512,
            fs.is_some() ==> {
                let f = fs.unwrap();
                &&& f.abar == abar
                &&& f.port == port
                &&& f.cl_base == cl_ptr
                &&& f.part_lba == part_lba
                &&& f.sectors_per_clus == vbr@[13]
                &&& f.reserved_secs == le16(vbr@, 14)
                &&& f.num_fats == vbr@[16]
                &&& f.fat_sz32 == le32(vbr@, 36)
                &&& f.root_cluster == le32(vbr@, 44)
                &&& f.cluster_begin_lba == part_lba + le16(vbr@, 14) + vbr@[16] * le32(vbr@, 36)
            },
    {
        let bpb = Fat32Bpb::parse(vbr);
        if bpb.bytes_per_sec != 512 {
            return None;
        }
        assert(bpb.num_fats as u64 * bpb.fat_sz32 as u64 <= 255 * 0xFFFF_FFFF) by (nonlinear_arith)
            requires
                bpb.num_fats <= 255,
        ;
        let cluster_begin = part_lba + bpb.reserved_secs as u64 + (bpb.num_fats as u64 * bpb.fat_sz32 as u64);
        Some(SimpleFileSystem {
            abar,
            port,
            cl_base: cl_ptr,
            cluster_begin_lba: cluster_begin,
            sectors_per_clus: bpb.sectors_per_clus,
            root_cluster: bpb.root_cluster,
            reserved_secs: bpb.reserved_secs,
            fat_sz32: bpb.fat_sz32,
            num_fats: bpb.num_fats,
            part_lba,
        })
    }

    /// The LBA of the first sector of `cluster`.
    pub fn get_lba_of_cluster(&self, cluster: u32) -> (lba: u64)
        requires
            cluster_lba_fits(self.cluster_begin_lba, self.sectors_per_clus, cluster),
        ensures
            lba == cluster_lba(self.cluster_begin_lba, self.sectors_per_clus, cluster),
    {
        assert((cluster - 2) * self.sectors_per_clus <= 0xFFFF_FFFF * 255) by (nonlinear_arith)
            requires
                cluster >= 2,
        ;
        self.cluster_begin_lba + (cluster as u64 - 2) * self.sectors_per_clus as u64
    }

    /// The LBA of the first FAT.
    pub fn get_fat_lba(&self) -> (lba: u64)
        requires
            self.part_lba + self.reserved_secs <= u64::MAX,
        ensures
            lba == self.part_lba + self.reserved_secs,
    {
        self.part_lba + self.reserved_secs as u64
    }
}

} // verus!
