//! Writing a file: follow (or grow) the cluster chain to the cluster that
//! holds the file position, then rewrite the touched clusters sector by
//! sector, growing the chain from the first free FAT entry when it ends.
use vstd::prelude::*;
use crate::bytes::{le32, read_le32};
use crate::fs::volume::{
    SimpleFileSystem, cluster_lba, fat_sector_lba, fat_entry_offset, fat_link, link_continues,
    fat_entry_value, fat_offset_in_sector,
};
use crate::fs::file_read::{min_u64, covered, lemma_overlap_len, sector_overlap, cluster_overlap};

verus! {

/// Where the write is.
pub enum WritePhase {
    /// The FAT sector of `current` was asked for, to find the next cluster.
    NextLink,
    /// FAT sector `index` (counted from the first FAT sector) was asked for, to find a free cluster.
    AllocScan { index: u64 },
    /// The FAT sector of `current` was asked for, to link `current` to `new`.
    LinkRead { new: u32 },
    /// That FAT sector was handed over for writing.
    LinkWrite { new: u32 },
    /// The FAT sector of `new` was asked for, to mark `new` as the end of the chain.
    MarkRead { new: u32 },
    /// That FAT sector was handed over for writing.
    MarkWrite { new: u32 },
    /// Sector `index` of `current` was asked for.
    DataRead { index: u64 },
    /// That sector, patched with the data, was handed over for writing.
    DataWrite { index: u64 },
}

/// How a write ended.
pub enum WriteOutcome {
    /// The chain could not be grown to reach the file position.
    NoSpace,
    /// This many bytes were written.
    Wrote(u64),
}

/// What the write asks of the disk next.
pub enum WriteAction {
    Read(u64),
    Write(u64, Vec<u8>),
    Finished(WriteOutcome),
}

/// The LBA a read or write action names.
pub open spec fn action_lba(act: WriteAction) -> int {
    match act {
        WriteAction::Read(l) => l as int,
        WriteAction::Write(l, _) => l as int,
        WriteAction::Finished(_) => -1,
    }
}

/// The FAT sector with the 28-bit entry of `cluster` set to `value`; the top four bits stay.
pub open spec fn with_fat_entry(s: Seq<u8>, cluster: u32, value: u32) -> Seq<u8> {
    let o = fat_entry_offset(cluster);
    let v = (le32(s, o) / 0x1000_0000) * 0x1000_0000 + value as nat % 0x1000_0000;
    s.update(o, (v % 0x100) as u8)
        .update(o + 1, (v / 0x100 % 0x100) as u8)
        .update(o + 2, (v / 0x10000 % 0x100) as u8)
        .update(o + 3, (v / 0x1000000 % 0x100) as u8)
}

/// Whether entry `i` of FAT sector `index` is free and names a usable cluster.
pub open spec fn free_entry(s: Seq<u8>, index: int, i: int) -> bool {
    le32(s, 4 * i) % 0x1000_0000 == 0 && index * 128 + i >= 2
}

/// The first usable free entry of FAT sector `index` at or after entry `i`.
pub open spec fn first_free_from(s: Seq<u8>, index: int, i: int) -> Option<int>
    decreases 128 - i,
{
    if i < 0 || i >= 128 {
        None
    } else if free_entry(s, index, i) {
        Some(i)
    } else {
        first_free_from(s, index, i + 1)
    }
}

/// Sector `i` of a cluster with the cluster bytes `[wo, wo + ws)` replaced by
/// `data[from..]`.
pub open spec fn data_patch(sector: Seq<u8>, i: int, wo: int, ws: int, data: Seq<u8>, from: int) -> Seq<u8> {
    Seq::new(512, |k: int| {
        let c = 512 * i + k;
        if wo <= c < wo + ws {
            data[from + c - wo]
        } else {
            sector[k]
        }
    })
}

/// A write of `data` at file offset `offset` of the file whose chain starts at a cluster.
pub struct FileWrite {
    pub cluster_begin_lba: u64,
    pub sectors_per_clus: u8,
    pub fat_lba: u64,
    pub fat_sz32: u32,
    pub offset: u64,
    pub data: Vec<u8>,
    /// File offset of the first byte of `current`.
    pub cluster_start: u64,
    pub current: u32,
    /// Still growing or following the chain towards `offset`.
    pub in_skip: bool,
    pub written: u64,
    /// Offset within `current` of the first byte to write into it.
    pub write_offset: u64,
    /// Bytes to write into `current`.
    pub write_size: u64,
    pub phase: WritePhase,
}

impl FileWrite {
    pub open spec fn cluster_size(&self) -> int {
        self.sectors_per_clus * 512
    }

    pub open spec fn in_data(&self) -> bool {
        self.phase is DataRead || self.phase is DataWrite
    }

    pub open spec fn data_index(&self) -> u64 {
        match self.phase {
            WritePhase::DataRead { index } => index,
            WritePhase::DataWrite { index } => index,
            _ => 0,
        }
    }

    pub open spec fn new_cluster(&self) -> u32 {
        match self.phase {
            WritePhase::LinkRead { new } => new,
            WritePhase::LinkWrite { new } => new,
            WritePhase::MarkRead { new } => new,
            WritePhase::MarkWrite { new } => new,
            _ => 0,
        }
    }

    pub open spec fn wf(&self) -> bool {
        &&& self.cluster_begin_lba < 0x1_0000_0000_0000
        &&& self.fat_lba < 0x1_0000_0000_0000
        &&& self.fat_sz32 <= 0x0200_0000
        &&& self.sectors_per_clus > 0
        &&& self.offset + self.data@.len() + self.cluster_size() <= u64::MAX
        &&& self.data@.len() > 0
        &&& self.written <= self.data@.len()
        &&& self.cluster_start <= self.offset
        &&& self.in_skip ==> self.written == 0 && self.cluster_start + self.cluster_size() <= self.offset
        &&& !self.in_skip ==> self.written < self.data@.len()
        &&& !self.in_skip && !self.in_data() ==> self.written > 0
        &&& self.in_data() ==> {
            &&& !self.in_skip
            &&& self.current >= 2
            &&& self.data_index() < self.sectors_per_clus
            &&& self.write_offset + self.write_size <= self.cluster_size()
            &&& 0 < self.write_size <= self.data@.len() - self.written
        }
        &&& (self.phase is LinkRead || self.phase is LinkWrite || self.phase is MarkRead || self.phase is MarkWrite)
            ==> self.new_cluster() >= 2
        &&& self.phase matches WritePhase::AllocScan { index } ==> index < self.fat_sz32
    }

    /// The LBA of the sector the write asked for or handed over last.
    pub open spec fn pending_lba(&self) -> int {
        match self.phase {
            WritePhase::NextLink => fat_sector_lba(self.fat_lba, self.current),
            WritePhase::AllocScan { index } => self.fat_lba + index,
            WritePhase::LinkRead { new } => fat_sector_lba(self.fat_lba, self.current),
            WritePhase::LinkWrite { new } => fat_sector_lba(self.fat_lba, self.current),
            WritePhase::MarkRead { new } => fat_sector_lba(self.fat_lba, new),
            WritePhase::MarkWrite { new } => fat_sector_lba(self.fat_lba, new),
            WritePhase::DataRead { index } => cluster_lba(self.cluster_begin_lba, self.sectors_per_clus, self.current) + index,
            WritePhase::DataWrite { index } => cluster_lba(self.cluster_begin_lba, self.sectors_per_clus, self.current) + index,
        }
    }

    fn pending(&self) -> (lba: u64)
        requires
            self.wf(),
        ensures
            lba == self.pending_lba(),
    {
        match self.phase {
            WritePhase::AllocScan { index } => self.fat_lba + index,
            WritePhase::MarkRead { new } => self.fat_lba + (new as u64 * 4) / 512,
            WritePhase::MarkWrite { new } => self.fat_lba + (new as u64 * 4) / 512,
            WritePhase::DataRead { index } => {
                assert((self.current - 2) * self.sectors_per_clus <= 0xFFFF_FFFF * 255) by (nonlinear_arith)
                    requires
                        self.current >= 2,
                ;
                self.cluster_begin_lba + (self.current as u64 - 2) * self.sectors_per_clus as u64 + index
            },
            WritePhase::DataWrite { index } => {
                assert((self.current - 2) * self.sectors_per_clus <= 0xFFFF_FFFF * 255) by (nonlinear_arith)
                    requires
                        self.current >= 2,
                ;
                self.cluster_begin_lba + (self.current as u64 - 2) * self.sectors_per_clus as u64 + index
            },
            _ => self.fat_lba + (self.current as u64 * 4) / 512,
        }
    }

    /// Sets up writing into `current`.
    fn begin_cluster(&mut self)
        requires
            old(self).sectors_per_clus > 0,
            old(self).written < old(self).data@.len(),
            old(self).cluster_start <= old(self).offset,
            old(self).written == 0 ==> old(self).offset < old(self).cluster_start + old(self).cluster_size(),
        ensures
            final(self).write_offset == if old(self).written == 0 { old(self).offset - old(self).cluster_start } else { 0 },
            final(self).write_size == min_u64(
                (old(self).data@.len() - old(self).written) as u64,
                (old(self).cluster_size() - final(self).write_offset) as u64,
            ),
            final(self).phase == (WritePhase::DataRead { index: 0 }),
            !final(self).in_skip,
            final(self).cluster_begin_lba == old(self).cluster_begin_lba,
            final(self).sectors_per_clus == old(self).sectors_per_clus,
            final(self).fat_lba == old(self).fat_lba,
            final(self).fat_sz32 == old(self).fat_sz32,
            final(self).offset == old(self).offset,
            final(self).data == old(self).data,
            final(self).cluster_start == old(self).cluster_start,
            final(self).current == old(self).current,
            final(self).written == old(self).written,
    {
        let cs = self.sectors_per_clus as u64 * 512;
        self.write_offset = if self.written == 0 { self.offset - self.cluster_start } else { 0 };
        let rest = self.data.len() as u64 - self.written;
        let room = cs - self.write_offset;
        self.write_size = if rest < room { rest } else { room };
        self.in_skip = false;
        self.phase = WritePhase::DataRead { index: 0 };
    }

    /// Moves on once `current` is the cluster to continue with.
    fn arrive(&mut self) -> (act: WriteAction)
        requires
            old(self).wf(),
            old(self).phase is NextLink,
            old(self).in_skip ==> old(self).cluster_start + old(self).cluster_size() <= u64::MAX,
            !old(self).in_skip ==> old(self).current >= 2,
            old(self).in_skip && old(self).offset < old(self).cluster_start + 2 * old(self).cluster_size() ==> old(self).current >= 2,
        ensures
            final(self).wf(),
            act is Read,
            action_lba(act) == final(self).pending_lba(),
            final(self).current == old(self).current,
            final(self).cluster_start == if old(self).in_skip { old(self).cluster_start + old(self).cluster_size() } else { old(self).cluster_start as int },
            final(self).data == old(self).data,
            final(self).written == old(self).written,
            final(self).offset == old(self).offset,
            final(self).in_skip == (old(self).in_skip && final(self).cluster_start + old(self).cluster_size() <= old(self).offset),
            !final(self).in_skip ==> final(self).phase == (WritePhase::DataRead { index: 0 }),
            final(self).in_skip ==> final(self).phase is NextLink,
    {
        if self.in_skip {
            let cs = self.sectors_per_clus as u64 * 512;
            self.cluster_start = self.cluster_start + cs;
            if self.cluster_start + cs <= self.offset {
                self.phase = WritePhase::NextLink;
                return WriteAction::Read(self.pending());
            }
        }
        self.begin_cluster();
        WriteAction::Read(self.pending())
    }

    /// Starts a write of `data` at file offset `offset` of the chain that
    /// begins at `cluster`.
    pub fn start(fs: &SimpleFileSystem, cluster: u32, offset: u64, data: Vec<u8>) -> (r: (FileWrite, WriteAction))
        requires
            fs.cluster_begin_lba < 0x1_0000_0000_0000,
            fs.part_lba + fs.reserved_secs < 0x1_0000_0000_0000,
            fs.fat_sz32 <= 0x0200_0000,
            fs.sectors_per_clus > 0,
            data@.len() > 0,
            offset + data@.len() + fs.sectors_per_clus * 512 <= u64::MAX,
            offset < fs.sectors_per_clus * 512 ==> cluster >= 2,
        ensures
            r.0.wf(),
            r.0.offset == offset,
            r.0.data@ == data@,
            r.0.written == 0,
            r.0.current == cluster,
            r.0.cluster_start == 0,
            r.0.in_skip == (fs.sectors_per_clus * 512 <= offset),
            r.0.in_skip ==> r.0.phase is NextLink,
            !r.0.in_skip ==> r.0.phase == (WritePhase::DataRead { index: 0 }) && r.0.write_offset == offset
                && r.0.write_size == min_u64(data@.len() as u64, (fs.sectors_per_clus * 512 - offset) as u64),
            r.1 == WriteAction::Read(r.0.pending_lba() as u64),
    {
        let cs = fs.sectors_per_clus as u64 * 512;
        let mut w = FileWrite {
            cluster_begin_lba: fs.cluster_begin_lba,
            sectors_per_clus: fs.sectors_per_clus,
            fat_lba: fs.part_lba + fs.reserved_secs as u64,
            fat_sz32: fs.fat_sz32,
            offset,
            data,
            cluster_start: 0,
            current: cluster,
            in_skip: cs <= offset,
            written: 0,
            write_offset: 0,
            write_size: 0,
            phase: WritePhase::NextLink,
        };
        if !w.in_skip {
            w.begin_cluster();
        }
        let lba = w.pending();
        (w, WriteAction::Read(lba))
    }

    /// Feeds the sector the write asked for (after a `Write`, the sector is
    /// not looked at), and says what it needs next.
    pub fn step(&mut self, sector: &[u8]) -> (act: WriteAction)
        requires
            old(self).wf(),
            sector@.len() >= 512,
            old(self).phase is NextLink && link_continues(fat_link(sector@, old(self).current))
                && (!old(self).in_skip || old(self).offset < old(self).cluster_start + 2 * old(self).cluster_size())
                ==> fat_link(sector@, old(self).current) != 1,
        ensures
            final(self).offset == old(self).offset,
            final(self).data == old(self).data,
            act is Read || act is Write ==> final(self).wf() && action_lba(act) == final(self).pending_lba(),
            act matches WriteAction::Write(_, v) ==> v@.len() == 512,
            act matches WriteAction::Finished(WriteOutcome::Wrote(n)) ==> n == final(self).written,
            old(self).phase is NextLink ==> {
                let next = fat_link(sector@, old(self).current);
                &&& link_continues(next) ==> act is Read && final(self).current == next
                    && final(self).written == old(self).written
                    && final(self).cluster_start == if old(self).in_skip { old(self).cluster_start + old(self).cluster_size() } else { old(self).cluster_start as int }
                &&& !link_continues(next) && old(self).fat_sz32 > 0 ==> act is Read && final(self).phase == (WritePhase::AllocScan { index: 0 })
                    && final(self).current == old(self).current
                &&& !link_continues(next) && old(self).fat_sz32 == 0 ==> act == WriteAction::Finished(
                    if old(self).in_skip { WriteOutcome::NoSpace } else { WriteOutcome::Wrote(old(self).written) })
            },
            old(self).phase matches WritePhase::AllocScan { index } ==> {
                &&& final(self).current == old(self).current
                &&& match first_free_from(sector@, index as int, 0) {
                    Some(i) => act is Read && final(self).phase == (WritePhase::LinkRead { new: (index * 128 + i) as u32 }),
                    None => if index + 1 < old(self).fat_sz32 {
                        act is Read && final(self).phase == (WritePhase::AllocScan { index: (index + 1) as u64 })
                    } else {
                        act == WriteAction::Finished(
                            if old(self).in_skip { WriteOutcome::NoSpace } else { WriteOutcome::Wrote(old(self).written) })
                    },
                }
            },
            old(self).phase matches WritePhase::LinkRead { new } ==> act matches WriteAction::Write(_, v)
                && v@ == with_fat_entry(sector@.subrange(0, 512), old(self).current, new)
                && final(self).phase == (WritePhase::LinkWrite { new }),
            old(self).phase matches WritePhase::LinkWrite { new } ==> act is Read
                && final(self).phase == (WritePhase::MarkRead { new }),
            old(self).phase matches WritePhase::MarkRead { new } ==> act matches WriteAction::Write(_, v)
                && v@ == with_fat_entry(sector@.subrange(0, 512), new, 0x0FFF_FFFF)
                && final(self).phase == (WritePhase::MarkWrite { new }),
            old(self).phase matches WritePhase::MarkWrite { new } ==> act is Read && final(self).current == new
                && final(self).written == old(self).written
                && final(self).cluster_start == if old(self).in_skip { old(self).cluster_start + old(self).cluster_size() } else { old(self).cluster_start as int },
            old(self).phase matches WritePhase::DataRead { index } ==> act matches WriteAction::Write(_, v)
                && v@ == data_patch(sector@, index as int, old(self).write_offset as int, old(self).write_size as int,
                    old(self).data@, old(self).written as int)
                && final(self).phase == (WritePhase::DataWrite { index }),
            old(self).phase matches WritePhase::DataWrite { index } ==> {
                &&& index + 1 < old(self).sectors_per_clus ==> act is Read && final(self).phase == (WritePhase::DataRead { index: (index + 1) as u64 })
                    && final(self).written == old(self).written
                &&& index + 1 >= old(self).sectors_per_clus ==> {
                    let w = old(self).written + old(self).write_size;
                    &&& w < old(self).data@.len() ==> act is Read && final(self).phase is NextLink && final(self).written == w
                    &&& w >= old(self).data@.len() ==> act == WriteAction::Finished(WriteOutcome::Wrote(w as u64))
                }
            },
    {
        match self.phase {
            WritePhase::NextLink => {
                let next = fat_entry_value(sector, self.current);
                if next < 0x0FFF_FFF8 && next != 0 {
                    self.current = next;
                    return self.arrive();
                }
                if self.fat_sz32 > 0 {
                    self.phase = WritePhase::AllocScan { index: 0 };
                    return WriteAction::Read(self.pending());
                }
                self.out_of_space()
            },
            WritePhase::AllocScan { index } => {
                match first_free(sector, index) {
                    Some(i) => {
                        self.phase = WritePhase::LinkRead { new: (index * 128 + i) as u32 };
                        WriteAction::Read(self.pending())
                    },
                    None => {
                        if index + 1 < self.fat_sz32 as u64 {
                            self.phase = WritePhase::AllocScan { index: index + 1 };
                            WriteAction::Read(self.pending())
                        } else {
                            self.out_of_space()
                        }
                    },
                }
            },
            WritePhase::LinkRead { new } => {
                let v = set_fat_entry_in(sector, self.current, new);
                self.phase = WritePhase::LinkWrite { new };
                WriteAction::Write(self.pending(), v)
            },
            WritePhase::LinkWrite { new } => {
                self.phase = WritePhase::MarkRead { new };
                WriteAction::Read(self.pending())
            },
            WritePhase::MarkRead { new } => {
                let v = set_fat_entry_in(sector, new, 0x0FFF_FFFF);
                self.phase = WritePhase::MarkWrite { new };
                WriteAction::Write(self.pending(), v)
            },
            WritePhase::MarkWrite { new } => {
                self.current = new;
                self.phase = WritePhase::NextLink;
                self.arrive()
            },
            WritePhase::DataRead { index } => {
                let v = patch_sector(sector, index, self.write_offset, self.write_size, &self.data, self.written);
                self.phase = WritePhase::DataWrite { index };
                WriteAction::Write(self.pending(), v)
            },
            WritePhase::DataWrite { index } => {
                if index + 1 < self.sectors_per_clus as u64 {
                    self.phase = WritePhase::DataRead { index: index + 1 };
                    return WriteAction::Read(self.pending());
                }
                self.written = self.written + self.write_size;
                if self.written < self.data.len() as u64 {
                    self.phase = WritePhase::NextLink;
                    WriteAction::Read(self.pending())
                } else {
                    WriteAction::Finished(WriteOutcome::Wrote(self.written))
                }
            },
        }
    }

    fn out_of_space(&self) -> (act: WriteAction)
        ensures
            act == WriteAction::Finished(if self.in_skip { WriteOutcome::NoSpace } else { WriteOutcome::Wrote(self.written) }),
    {
        if self.in_skip {
            WriteAction::Finished(WriteOutcome::NoSpace)
        } else {
            WriteAction::Finished(WriteOutcome::Wrote(self.written))
        }
    }
}

/// The first usable free entry of FAT sector `index`.
pub fn first_free(sector: &[u8], index: u64) -> (r: Option<u64>)
    requires
        sector@.len() >= 512,
        index < 0x0200_0000,
    ensures
        r matches Some(i) ==> first_free_from(sector@, index as int, 0) == Some(i as int) && i < 128
            && free_entry(sector@, index as int, i as int),
        r is None ==> first_free_from(sector@, index as int, 0) is None,
{
    let mut i: u64 = 0;
    while i < 128
        invariant
            i <= 128,
            index < 0x0200_0000,
            sector@.len() >= 512,
            first_free_from(sector@, index as int, 0) == first_free_from(sector@, index as int, i as int),
        decreases 128 - i,
    {
        let raw = read_le32(sector, (4 * i) as usize);
        let masked = raw & 0x0FFF_FFFF;
        assert(raw & 0x0FFF_FFFFu32 == raw % 0x1000_0000) by (bit_vector);
        if masked == 0 && index * 128 + i >= 2 {
            return Some(i);
        }
        i = i + 1;
    }
    None
}

/// A copy of FAT sector `sector` with the entry of `cluster` set to `value`.
pub fn set_fat_entry_in(sector: &[u8], cluster: u32, value: u32) -> (v: Vec<u8>)
    requires
        sector@.len() >= 512,
    ensures
        v@ == with_fat_entry(sector@.subrange(0, 512), cluster, value),
        v@.len() == 512,
{
    let mut v: Vec<u8> = Vec::new();
    let mut k: usize = 0;
    while k < 512
        invariant
            k <= 512,
            sector@.len() >= 512,
            v@ =~= sector@.subrange(0, k as int),
        decreases 512 - k,
    {
        v.push(sector[k]);
        k = k + 1;
    }
    let o = fat_offset_in_sector(cluster);
    let cur = read_le32(sector, o);
    let top = cur / 0x1000_0000 * 0x1000_0000;
    let val: u32 = top + value % 0x1000_0000;
    v.set(o, (val % 0x100) as u8);
    v.set(o + 1, (val / 0x100 % 0x100) as u8);
    v.set(o + 2, (val / 0x10000 % 0x100) as u8);
    v.set(o + 3, (val / 0x1000000 % 0x100) as u8);
    assert(v@ =~= with_fat_entry(sector@.subrange(0, 512), cluster, value));
    v
}

/// Sector `i` of a cluster with the cluster bytes `[wo, wo + ws)` taken from `data[from..]`.
pub fn patch_sector(sector: &[u8], i: u64, wo: u64, ws: u64, data: &Vec<u8>, from: u64) -> (v: Vec<u8>)
    requires
        sector@.len() >= 512,
        i < 256,
        wo + ws <= 256 * 512,
        from + ws <= data@.len(),
    ensures
        v@ == data_patch(sector@, i as int, wo as int, ws as int, data@, from as int),
        v@.len() == 512,
{
    let _n = data.len();
    let mut v: Vec<u8> = Vec::new();
    let mut k: u64 = 0;
    while k < 512
        invariant
            k <= 512,
            sector@.len() >= 512,
            i < 256,
            wo + ws <= 256 * 512,
            from + ws <= data@.len(),
            data@.len() <= usize::MAX,
            v@.len() == k,
            forall|t: int| 0 <= t < k ==> v@[t] == data_patch(sector@, i as int, wo as int, ws as int, data@, from as int)[t],
        decreases 512 - k,
    {
        let c = 512 * i + k;
        let b = if wo <= c && c < wo + ws { data[(from + (c - wo)) as usize] } else { sector[k as usize] };
        v.push(b);
        assert(v@[k as int] == data_patch(sector@, i as int, wo as int, ws as int, data@, from as int)[k as int]);
        k = k + 1;
    }
    assert(v@ =~= data_patch(sector@, i as int, wo as int, ws as int, data@, from as int));
    v
}


/// A FAT entry written reads back: the entry of `cluster` holds the low 28
/// bits of `value`, its top four bits are kept, and every other byte of the
/// sector is unchanged.
pub proof fn law_fat_entry_reads_back(s: Seq<u8>, cluster: u32, value: u32)
    requires
        s.len() >= 512,
    ensures
        fat_link(with_fat_entry(s, cluster, value), cluster) == value as nat % 0x1000_0000,
        le32(with_fat_entry(s, cluster, value), fat_entry_offset(cluster)) / 0x1000_0000
            == le32(s, fat_entry_offset(cluster)) / 0x1000_0000,
        forall|k: int| 0 <= k < s.len() && !(fat_entry_offset(cluster) <= k < fat_entry_offset(cluster) + 4)
            ==> #[trigger] with_fat_entry(s, cluster, value)[k] == s[k],
{
    let o = fat_entry_offset(cluster);
    assert(0 <= o && o + 4 <= 512) by {
        assert((cluster as int * 4) % 512 % 4 == 0) by (nonlinear_arith);
    }
    let prev = le32(s, o);
    assert(le32(s, o) < 0x1_0000_0000) by {
        assert(s[o] < 256 && s[o + 1] < 256 && s[o + 2] < 256 && s[o + 3] < 256);
    }
    let v = (prev / 0x1000_0000) * 0x1000_0000 + value as nat % 0x1000_0000;
    assert(v < 0x1_0000_0000);
    crate::bytes::lemma_le32_of_bytes(v);
    assert(le32(with_fat_entry(s, cluster, value), o) == v);
    assert(v % 0x1000_0000 == value as nat % 0x1000_0000);
    assert(v / 0x1000_0000 == prev / 0x1000_0000);
}

/// What a write puts in a sector reads back: the part of the patched sector
/// that falls in the written cluster range `[wo, wo + ws)` is the run of
/// `data` that was written there.
pub proof fn law_patched_sector_reads_back(sector: Seq<u8>, i: int, wo: int, ws: int, data: Seq<u8>, from: int)
    requires
        sector.len() >= 512,
        0 <= i,
        0 <= wo,
        0 <= ws,
        0 <= from,
        from + ws <= data.len(),
    ensures
        ({
            let s = 512 * i;
            let a = if s > wo { s } else { wo };
            let b = if s + 512 < wo + ws { s + 512 } else { wo + ws };
            sector_overlap(data_patch(sector, i, wo, ws, data, from), i, wo, ws)
                == if a < b { data.subrange(from + a - wo, from + b - wo) } else { Seq::<u8>::empty() }
        }),
{
    let s = 512 * i;
    let a = if s > wo { s } else { wo };
    let b = if s + 512 < wo + ws { s + 512 } else { wo + ws };
    let p = data_patch(sector, i, wo, ws, data, from);
    if a < b {
        assert(p.subrange(a - s, b - s) =~= data.subrange(from + a - wo, from + b - wo));
    }
}

/// What a write puts in a cluster reads back: when every sector of the
/// cluster carries the write of `data[from..]` over the range `[wo, wo + ws)`,
/// a read of that range delivers exactly the written bytes.
pub proof fn law_cluster_write_reads_back(
    sectors: Seq<Seq<u8>>,
    before: Seq<Seq<u8>>,
    n: nat,
    wo: int,
    ws: int,
    data: Seq<u8>,
    from: int,
)
    requires
        sectors.len() == n,
        before.len() == n,
        forall|k: int| 0 <= k < n ==> #[trigger] before[k].len() >= 512,
        forall|k: int| 0 <= k < n ==> #[trigger] sectors[k] == data_patch(before[k], k, wo, ws, data, from),
        0 <= wo,
        0 <= ws,
        wo + ws <= 512 * n,
        0 <= from,
        from + ws <= data.len(),
    ensures
        cluster_overlap(sectors, n, wo, ws) == data.subrange(from, from + ws),
{
    lemma_cluster_prefix_reads_back(sectors, before, n, wo, ws, data, from);
    assert(covered(n as int, wo, ws) == ws) by (nonlinear_arith)
        requires
            wo + ws <= 512 * n,
            0 <= wo,
            0 <= ws,
    {
    }
}

proof fn lemma_cluster_prefix_reads_back(
    sectors: Seq<Seq<u8>>,
    before: Seq<Seq<u8>>,
    m: nat,
    wo: int,
    ws: int,
    data: Seq<u8>,
    from: int,
)
    requires
        m <= sectors.len(),
        sectors.len() == before.len(),
        forall|k: int| 0 <= k < sectors.len() ==> #[trigger] before[k].len() >= 512,
        forall|k: int| 0 <= k < sectors.len() ==> #[trigger] sectors[k] == data_patch(before[k], k, wo, ws, data, from),
        0 <= wo,
        0 <= ws,
        0 <= from,
        from + ws <= data.len(),
    ensures
        cluster_overlap(sectors, m, wo, ws) == data.subrange(from, from + covered(m as int, wo, ws)),
    decreases m,
{
    if m == 0 {
        assert(covered(0, wo, ws) == 0);
        assert(data.subrange(from, from) =~= Seq::<u8>::empty());
    } else {
        let k = m - 1;
        lemma_cluster_prefix_reads_back(sectors, before, (m - 1) as nat, wo, ws, data, from);
        law_patched_sector_reads_back(before[k], k, wo, ws, data, from);
        lemma_overlap_len(sectors[k], k, wo, ws);
        let c0 = covered(k, wo, ws);
        let c1 = covered(k + 1, wo, ws);
        let s = 512 * k;
        let a = if s > wo { s } else { wo };
        let b = if s + 512 < wo + ws { s + 512 } else { wo + ws };
        if a < b {
            assert(c0 == a - wo);
            assert(c1 == b - wo);
        }
        assert(data.subrange(from, from + c0) + sector_overlap(sectors[k], k, wo, ws)
            =~= data.subrange(from, from + c1));
    }
}

/// A write changes only the bytes it writes: in the sector at index `i` of
/// a cluster, a byte whose cluster position lies outside the written range
/// `[wo, wo + ws)` keeps its value, and one inside it takes the data byte
/// written there; and the sector keeps its 512 bytes.
pub proof fn law_patch_changes_only_written_bytes(sector: Seq<u8>, i: int, wo: int, ws: int, data: Seq<u8>, from: int)
    requires
        sector.len() >= 512,
    ensures
        data_patch(sector, i, wo, ws, data, from).len() == 512,
        forall|k: int| 0 <= k < 512 && !(wo <= 512 * i + k < wo + ws)
            ==> #[trigger] data_patch(sector, i, wo, ws, data, from)[k] == sector[k],
        forall|k: int| 0 <= k < 512 && wo <= 512 * i + k < wo + ws
            ==> #[trigger] data_patch(sector, i, wo, ws, data, from)[k] == data[from + 512 * i + k - wo],
{
}

} // verus!
