//! The directory walk: one sector at a time through a directory's cluster
//! chain, looking up a file or a subdirectory, listing the names, or
//! rewriting the size of the entry that starts at a given cluster.
use vstd::prelude::*;
use crate::bytes::{le16, le32, read_le32};
use crate::fs::volume::{
    SimpleFileSystem, DirectoryEntry, entry_first_cluster, cluster_lba, cluster_lba_fits,
    fat_sector_lba, fat_link, link_continues, fat_entry_value,
};
use crate::fs::names::{
    display_name, eq_ignore_ascii_case, is_prefix, format_short_name, bytes_eq_ignore_ascii_case,
    bytes_starts_with,
};

verus! {

/// What a directory walk looks for.
pub enum DirQuery {
    /// A file or directory whose displayed 8.3 name equals this one, ignoring ASCII case.
    Entry(Vec<u8>),
    /// A directory whose raw 11-byte name starts with these bytes.
    Directory(Vec<u8>),
    /// Every live entry, for listing.
    List,
    /// The entry that starts at cluster `target`, to set its size to `new_size`.
    SetSize { target: u32, new_size: u32 },
}

/// How a walk ended.
pub enum DirOutcome {
    NotFound,
    Entry { cluster: u32, size: u32 },
    Directory { cluster: u32 },
    Listed,
    /// The entry was found in the sector at `lba`; `sector` is that sector with the new size, to be written back.
    Updated { lba: u64, sector: Vec<u8> },
}

/// What the walk asks of the disk next.
pub enum WalkAction {
    Read(u64),
    Finished(DirOutcome),
}

/// Where an entry scan of one directory sector stopped.
pub enum SectorScan {
    /// At an end-of-directory marker.
    End(usize),
    /// At a live entry that answers the query.
    Hit(usize),
    /// After all sixteen entries.
    Exhausted,
}

/// Whether the attribute byte marks a directory.
pub open spec fn is_dir_attr(a: u8) -> bool {
    (a as nat / 16) % 2 == 1
}

/// Whether entry `j` of a sector is neither deleted nor a long-name part.
pub open spec fn entry_live(s: Seq<u8>, j: int) -> bool {
    s[32 * j] != 0xE5 && s[32 * j + 11] != 0x0F
}

/// The raw 11-byte name of entry `j`.
pub open spec fn entry_name(s: Seq<u8>, j: int) -> Seq<u8> {
    s.subrange(32 * j, 32 * j + 11)
}

/// Whether entry `j` answers the query.
pub open spec fn query_matches(s: Seq<u8>, j: int, q: DirQuery) -> bool {
    match q {
        DirQuery::Entry(n) => eq_ignore_ascii_case(display_name(entry_name(s, j)), n@),
        DirQuery::Directory(n) => is_dir_attr(s[32 * j + 11]) && is_prefix(n@, entry_name(s, j)),
        DirQuery::List => false,
        DirQuery::SetSize { target, new_size } => entry_first_cluster(s, 32 * j) == target,
    }
}

/// The scan of a sector's entries from entry `j` on.
pub open spec fn scan_from(s: Seq<u8>, q: DirQuery, j: int) -> SectorScan
    decreases 16 - j,
{
    if j < 0 || j >= 16 {
        SectorScan::Exhausted
    } else if s[32 * j] == 0 {
        SectorScan::End(j as usize)
    } else if entry_live(s, j) && query_matches(s, j, q) {
        SectorScan::Hit(j as usize)
    } else {
        scan_from(s, q, j + 1)
    }
}

/// The listed form of entry `j`: its displayed name, with `/` after a directory.
pub open spec fn listing_name(s: Seq<u8>, j: int) -> Seq<u8> {
    if is_dir_attr(s[32 * j + 11]) {
        display_name(entry_name(s, j)).push(0x2f)
    } else {
        display_name(entry_name(s, j))
    }
}

/// The listed names of the live entries among the first `upto` entries of a sector.
pub open spec fn live_names(s: Seq<u8>, upto: int) -> Seq<Seq<u8>>
    decreases upto,
{
    if upto <= 0 {
        Seq::empty()
    } else if entry_live(s, upto - 1) {
        live_names(s, upto - 1).push(listing_name(s, upto - 1))
    } else {
        live_names(s, upto - 1)
    }
}

/// A sector with the size field of entry `j` set to `size`.
pub open spec fn with_entry_size(s: Seq<u8>, j: int, size: u32) -> Seq<u8> {
    let o = 32 * j + 28;
    s.update(o, (size as nat % 0x100) as u8)
        .update(o + 1, (size as nat / 0x100 % 0x100) as u8)
        .update(o + 2, (size as nat / 0x10000 % 0x100) as u8)
        .update(o + 3, (size as nat / 0x1000000) as u8)
}

pub open spec fn view_names(v: Seq<Vec<u8>>) -> Seq<Seq<u8>> {
    v.map_values(|x: Vec<u8>| x@)
}

/// Whether the walk's bookkeeping is in range: a chain cluster, a sector
/// index within the cluster, and LBAs that fit in 64 bits.
pub open spec fn walk_geometry_ok(begin: u64, spc: u8, fat_lba: u64) -> bool {
    begin < 0x1_0000_0000_0000 && fat_lba < 0x1_0000_0000_0000
}

/// How a query ends when the directory ends before a hit.
pub open spec fn end_outcome_is(q: DirQuery, o: DirOutcome) -> bool {
    match q {
        DirQuery::List => o is Listed,
        _ => o is NotFound,
    }
}

/// The outcome of a hit at entry `j` of the sector read from `lba`.
pub open spec fn hit_outcome_is(s: Seq<u8>, j: int, lba: u64, q: DirQuery, o: DirOutcome) -> bool {
    match q {
        DirQuery::Entry(_) => o == DirOutcome::Entry {
            cluster: entry_first_cluster(s, 32 * j) as u32,
            size: le32(s, 32 * j + 28) as u32,
        },
        DirQuery::Directory(_) => o == DirOutcome::Directory { cluster: entry_first_cluster(s, 32 * j) as u32 },
        DirQuery::List => false,
        DirQuery::SetSize { target, new_size } => match o {
            DirOutcome::Updated { lba: l, sector: v } => l == lba && v@ == with_entry_size(s, j, new_size),
            _ => false,
        },
    }
}

/// A walk through the entries of a directory's cluster chain.
pub struct DirWalk {
    pub query: DirQuery,
    pub cluster_begin_lba: u64,
    pub sectors_per_clus: u8,
    pub fat_lba: u64,
    /// The cluster being walked.
    pub current: u32,
    /// The sector of `current` that was asked for last.
    pub sector_index: u64,
    /// Whether the FAT sector of `current` was asked for last.
    pub in_fat: bool,
    /// The names listed so far.
    pub listing: Vec<Vec<u8>>,
}

impl DirWalk {
    pub open spec fn wf(&self) -> bool {
        &&& walk_geometry_ok(self.cluster_begin_lba, self.sectors_per_clus, self.fat_lba)
        &&& 2 <= self.current < 0x0FFF_FFF8
        &&& (self.in_fat || self.sector_index < self.sectors_per_clus)
    }

    /// The LBA of the sector the walk asked for last.
    pub open spec fn pending_lba(&self) -> int {
        if self.in_fat {
            fat_sector_lba(self.fat_lba, self.current)
        } else {
            cluster_lba(self.cluster_begin_lba, self.sectors_per_clus, self.current) + self.sector_index
        }
    }

    /// Whether the walk is at the start of `cluster`.
    pub open spec fn at_cluster_start(&self, cluster: u32) -> bool {
        &&& self.current == cluster
        &&& self.sector_index == 0
        &&& self.in_fat == (self.sectors_per_clus == 0)
    }

    fn read_pending(&self) -> (act: WalkAction)
        requires
            self.wf(),
        ensures
            act == WalkAction::Read(self.pending_lba() as u64),
            0 <= self.pending_lba() <= u64::MAX,
    {
        if self.in_fat {
            WalkAction::Read(self.fat_lba + (self.current as u64 * 4) / 512)
        } else {
            assert((self.current - 2) * self.sectors_per_clus <= 0xFFFF_FFFF * 255) by (nonlinear_arith)
                requires
                    self.current >= 2,
            ;
            WalkAction::Read(
                self.cluster_begin_lba + (self.current as u64 - 2) * self.sectors_per_clus as u64 + self.sector_index,
            )
        }
    }

    /// Starts a walk of the directory whose chain begins at `cluster`; a
    /// cluster value that ends a chain gives an empty directory.
    pub fn start(fs: &SimpleFileSystem, cluster: u32, query: DirQuery) -> (r: (DirWalk, WalkAction))
        requires
            walk_geometry_ok(fs.cluster_begin_lba, fs.sectors_per_clus, (fs.part_lba + fs.reserved_secs) as u64),
            fs.part_lba + fs.reserved_secs < 0x1_0000_0000_0000,
            cluster != 1,
        ensures
            r.0.query == query,
            r.0.cluster_begin_lba == fs.cluster_begin_lba,
            r.0.sectors_per_clus == fs.sectors_per_clus,
            r.0.fat_lba == fs.part_lba + fs.reserved_secs,
            r.0.listing@.len() == 0,
            !link_continues(cluster as nat) ==> (r.1 matches WalkAction::Finished(o) && end_outcome_is(query, o)),
            link_continues(cluster as nat) ==> {
                &&& r.0.wf()
                &&& r.0.at_cluster_start(cluster)
                &&& r.1 == WalkAction::Read(r.0.pending_lba() as u64)
            },
    {
        let fat_lba = fs.part_lba + fs.reserved_secs as u64;
        let is_list = match &query {
            DirQuery::List => true,
            _ => false,
        };
        let walk = DirWalk {
            query,
            cluster_begin_lba: fs.cluster_begin_lba,
            sectors_per_clus: fs.sectors_per_clus,
            fat_lba,
            current: cluster,
            sector_index: 0,
            in_fat: fs.sectors_per_clus == 0,
            listing: Vec::new(),
        };
        if cluster < 0x0FFF_FFF8 && cluster != 0 {
            let act = walk.read_pending();
            (walk, act)
        } else if is_list {
            (walk, WalkAction::Finished(DirOutcome::Listed))
        } else {
            (walk, WalkAction::Finished(DirOutcome::NotFound))
        }
    }

    fn entry_matches(&self, sector: &[u8], j: usize) -> (r: bool)
        requires
            sector@.len() >= 512,
            j < 16,
        ensures
            r == query_matches(sector@, j as int, self.query),
    {
        let off = 32 * j;
        match &self.query {
            DirQuery::Entry(n) => {
                let e = DirectoryEntry::parse(sector, off);
                assert(e.name@ == entry_name(sector@, j as int));
                let shown = format_short_name(&e.name);
                bytes_eq_ignore_ascii_case(shown.as_slice(), n.as_slice())
            },
            DirQuery::Directory(n) => {
                let e = DirectoryEntry::parse(sector, off);
                assert(e.name@ == entry_name(sector@, j as int));
                let attr = e.attr;
                let dir = attr & 0x10 != 0;
                assert(dir == is_dir_attr(attr)) by (bit_vector)
                    requires
                        dir == (attr & 0x10 != 0),
                ;
                dir && bytes_starts_with(e.name.as_slice(), n.as_slice())
            },
            DirQuery::List => false,
            DirQuery::SetSize { target, new_size } => {
                let e = DirectoryEntry::parse(sector, off);
                e.first_cluster() == *target
            },
        }
    }

    fn listed_name(sector: &[u8], j: usize) -> (v: Vec<u8>)
        requires
            sector@.len() >= 512,
            j < 16,
        ensures
            v@ == listing_name(sector@, j as int),
    {
        let e = DirectoryEntry::parse(sector, 32 * j);
        assert(e.name@ == entry_name(sector@, j as int));
        let mut v = format_short_name(&e.name);
        let attr = e.attr;
        let dir = attr & 0x10 != 0;
        assert(dir == is_dir_attr(attr)) by (bit_vector)
            requires
                dir == (attr & 0x10 != 0),
        ;
        if dir {
            v.push(0x2f);
        }
        v
    }

    /// Scans the entries of one directory sector, collecting listed names for a listing walk.
    fn scan(&mut self, sector: &[u8]) -> (r: SectorScan)
        requires
            sector@.len() >= 512,
        ensures
            r == scan_from(sector@, old(self).query, 0),
            r matches SectorScan::Hit(j) ==> j < 16,
            r matches SectorScan::End(j) ==> j < 16,
            old(self).query is List ==> !(r is Hit),
            final(self).query == old(self).query,
            final(self).cluster_begin_lba == old(self).cluster_begin_lba,
            final(self).sectors_per_clus == old(self).sectors_per_clus,
            final(self).fat_lba == old(self).fat_lba,
            final(self).current == old(self).current,
            final(self).sector_index == old(self).sector_index,
            final(self).in_fat == old(self).in_fat,
            old(self).query is List ==> view_names(final(self).listing@) == view_names(old(self).listing@) + live_names(
                sector@,
                match r {
                    SectorScan::End(j) => j as int,
                    _ => 16,
                },
            ),
            !(old(self).query is List) ==> final(self).listing@ == old(self).listing@,
    {
        let ghost start = self.listing@;
        let mut j: usize = 0;
        while j < 16
            invariant
                j <= 16,
                sector@.len() >= 512,
                start == old(self).listing@,
                scan_from(sector@, self.query, 0) == scan_from(sector@, self.query, j as int),
                self.query == old(self).query,
                self.cluster_begin_lba == old(self).cluster_begin_lba,
                self.sectors_per_clus == old(self).sectors_per_clus,
                self.fat_lba == old(self).fat_lba,
                self.current == old(self).current,
                self.sector_index == old(self).sector_index,
                self.in_fat == old(self).in_fat,
                self.query is List ==> view_names(self.listing@) == view_names(start) + live_names(sector@, j as int),
                !(self.query is List) ==> self.listing@ == start,
            decreases 16 - j,
        {
            let first = sector[32 * j];
            if first == 0 {
                return SectorScan::End(j);
            }
            let live = first != 0xE5 && sector[32 * j + 11] != 0x0F;
            if live && self.entry_matches(sector, j) {
                return SectorScan::Hit(j);
            }
            let is_list = match &self.query {
                DirQuery::List => true,
                _ => false,
            };
            if live && is_list {
                let name = Self::listed_name(sector, j);
                let ghost before = self.listing@;
                self.listing.push(name);
                assert(view_names(self.listing@) =~= view_names(before).push(name@));
                assert(live_names(sector@, j + 1) == live_names(sector@, j as int).push(listing_name(sector@, j as int)));
                assert(view_names(self.listing@) =~= view_names(start) + live_names(sector@, j + 1));
            }
            j = j + 1;
        }
        SectorScan::Exhausted
    }

    /// Feeds the sector the walk asked for, and says what it needs next.
    pub fn step(&mut self, sector: &[u8]) -> (act: WalkAction)
        requires
            old(self).wf(),
            sector@.len() >= 512,
            old(self).in_fat ==> fat_link(sector@, old(self).current) != 1,
        ensures
            final(self).query == old(self).query,
            final(self).cluster_begin_lba == old(self).cluster_begin_lba,
            final(self).sectors_per_clus == old(self).sectors_per_clus,
            final(self).fat_lba == old(self).fat_lba,
            act is Read ==> final(self).wf() && act == WalkAction::Read(final(self).pending_lba() as u64),
            !old(self).in_fat ==> {
                &&& old(self).query is List ==> view_names(final(self).listing@) == view_names(old(self).listing@)
                    + live_names(sector@, match scan_from(sector@, old(self).query, 0) {
                        SectorScan::End(j) => j as int,
                        _ => 16,
                    })
                &&& !(old(self).query is List) ==> final(self).listing@ == old(self).listing@
                &&& match scan_from(sector@, old(self).query, 0) {
                    SectorScan::End(j) => act matches WalkAction::Finished(o) && end_outcome_is(old(self).query, o),
                    SectorScan::Hit(j) => act matches WalkAction::Finished(o)
                        && hit_outcome_is(sector@, j as int, old(self).pending_lba() as u64, old(self).query, o),
                    SectorScan::Exhausted => {
                        &&& act is Read
                        &&& final(self).current == old(self).current
                        &&& if old(self).sector_index + 1 < old(self).sectors_per_clus {
                            !final(self).in_fat && final(self).sector_index == old(self).sector_index + 1
                        } else {
                            final(self).in_fat
                        }
                    },
                }
            },
            old(self).in_fat ==> {
                let next = fat_link(sector@, old(self).current);
                &&& final(self).listing@ == old(self).listing@
                &&& link_continues(next) ==> act is Read && final(self).at_cluster_start(next as u32)
                &&& !link_continues(next) ==> (act matches WalkAction::Finished(o) && end_outcome_is(old(self).query, o))
            },
    {
        let is_list = match &self.query {
            DirQuery::List => true,
            _ => false,
        };
        if self.in_fat {
            let next = fat_entry_value(sector, self.current);
            if next < 0x0FFF_FFF8 && next != 0 {
                self.current = next;
                self.sector_index = 0;
                self.in_fat = self.sectors_per_clus == 0;
                return self.read_pending();
            }
            return if is_list {
                WalkAction::Finished(DirOutcome::Listed)
            } else {
                WalkAction::Finished(DirOutcome::NotFound)
            };
        }
        let ghost lba = self.pending_lba();
        let here = self.read_pending();
        let lba_now = match here {
            WalkAction::Read(l) => l,
            _ => 0,
        };
        match self.scan(sector) {
            SectorScan::End(_) => {
                if is_list {
                    WalkAction::Finished(DirOutcome::Listed)
                } else {
                    WalkAction::Finished(DirOutcome::NotFound)
                }
            },
            SectorScan::Hit(j) => {
                let off = 32 * j;
                match &self.query {
                    DirQuery::Entry(_) => {
                        let e = DirectoryEntry::parse(sector, off);
                        WalkAction::Finished(DirOutcome::Entry { cluster: e.first_cluster(), size: e.file_size })
                    },
                    DirQuery::Directory(_) => {
                        let e = DirectoryEntry::parse(sector, off);
                        WalkAction::Finished(DirOutcome::Directory { cluster: e.first_cluster() })
                    },
                    DirQuery::List => WalkAction::Finished(DirOutcome::Listed),
                    DirQuery::SetSize { target, new_size } => {
                        let updated = set_entry_size(sector, j, *new_size);
                        WalkAction::Finished(DirOutcome::Updated { lba: lba_now, sector: updated })
                    },
                }
            },
            SectorScan::Exhausted => {
                if self.sector_index + 1 < self.sectors_per_clus as u64 {
                    self.sector_index = self.sector_index + 1;
                } else {
                    self.in_fat = true;
                }
                self.read_pending()
            },
        }
    }
}

/// A copy of `sector` whose entry `j` has size field `size`.
pub fn set_entry_size(sector: &[u8], j: usize, size: u32) -> (v: Vec<u8>)
    requires
        sector@.len() >= 512,
        j < 16,
    ensures
        v@ == with_entry_size(sector@, j as int, size),
{
    let mut v: Vec<u8> = Vec::new();
    crate::bytes::push_all(&mut v, sector);
    let o = 32 * j + 28;
    v.set(o, (size % 0x100) as u8);
    v.set(o + 1, (size / 0x100 % 0x100) as u8);
    v.set(o + 2, (size / 0x10000 % 0x100) as u8);
    v.set(o + 3, (size / 0x1000000) as u8);
    assert(v@ =~= with_entry_size(sector@, j as int, size));
    v
}


/// A size written into a directory entry reads back: the entry's size field
/// holds the new size, and every other byte of the sector is unchanged.
pub proof fn law_entry_size_reads_back(s: Seq<u8>, j: int, size: u32)
    requires
        s.len() >= 512,
        0 <= j < 16,
    ensures
        le32(with_entry_size(s, j, size), 32 * j + 28) == size,
        with_entry_size(s, j, size).len() == s.len(),
        forall|k: int| 0 <= k < s.len() && !(32 * j + 28 <= k < 32 * j + 32) ==> #[trigger] with_entry_size(s, j, size)[k] == s[k],
{
    crate::bytes::lemma_le32_of_bytes(size as nat);
    assert(size as nat / 0x1000000 < 0x100);
    assert(size as nat / 0x1000000 % 0x100 == size as nat / 0x1000000);
}

} // verus!
