//! Reading a file: skip to the cluster that holds the file position by
//! following the FAT, then deliver the requested bytes cluster by cluster,
//! reading every sector of each cluster it touches.
use vstd::prelude::*;
use crate::fs::volume::{
    SimpleFileSystem, cluster_lba, fat_sector_lba, fat_link, link_continues, fat_entry_value,
};

verus! {

/// What the read asks of the disk next.
pub enum ReadAction {
    Read(u64),
    /// All bytes are delivered; the count of bytes read.
    Done(u64),
}

/// The part of the sector at index `i` of a cluster that falls in the byte
/// range `[lo, lo + len)` of the cluster.
pub open spec fn sector_overlap(sector: Seq<u8>, i: int, lo: int, len: int) -> Seq<u8> {
    let s = 512 * i;
    let a = if s > lo { s } else { lo };
    let b = if s + 512 < lo + len { s + 512 } else { lo + len };
    if a < b {
        sector.subrange(a - s, b - s)
    } else {
        Seq::empty()
    }
}

/// How many bytes of the cluster range `[lo, lo + len)` lie in its first `k` sectors.
pub open spec fn covered(k: int, lo: int, len: int) -> int {
    let e = if 512 * k < lo + len { 512 * k } else { lo + len };
    if e > lo { e - lo } else { 0 }
}

pub proof fn lemma_overlap_len(sector: Seq<u8>, k: int, lo: int, len: int)
    requires
        0 <= k,
        0 <= lo,
        0 <= len,
        sector.len() >= 512,
    ensures
        sector_overlap(sector, k, lo, len).len() == covered(k + 1, lo, len) - covered(k, lo, len),
{
}

/// The bytes a read of the cluster range `[lo, lo + len)` delivers from the
/// first `n` sectors of the cluster, in order.
pub open spec fn cluster_overlap(sectors: Seq<Seq<u8>>, n: nat, lo: int, len: int) -> Seq<u8>
    decreases n,
{
    if n == 0 {
        Seq::empty()
    } else {
        cluster_overlap(sectors, (n - 1) as nat, lo, len) + sector_overlap(sectors[n - 1], n - 1, lo, len)
    }
}

pub open spec fn min_u64(a: u64, b: u64) -> u64 {
    if a < b { a } else { b }
}

/// The fields of a read that no step changes: where the volume is, the
/// position asked for and the length asked for.
pub open spec fn same_request(o: FileRead, n: FileRead) -> bool {
    &&& n.cluster_begin_lba == o.cluster_begin_lba
    &&& n.sectors_per_clus == o.sectors_per_clus
    &&& n.fat_lba == o.fat_lba
    &&& n.offset == o.offset
    &&& n.max_read == o.max_read
}

/// `n` starts delivering cluster `current` from `read_offset`: `chunk`
/// bytes, the rest of the request or of the cluster, from its first sector.
pub open spec fn begins_cluster(n: FileRead, current: u32, cluster_start: u64, remaining: u64, read_offset: u64, data: Seq<u8>) -> bool {
    &&& n.current == current
    &&& n.cluster_start == cluster_start
    &&& n.remaining == remaining
    &&& n.read_offset == read_offset
    &&& n.chunk == min_u64(remaining, (n.sectors_per_clus * 512 - read_offset) as u64)
    &&& n.sector_index == 0
    &&& !n.skipping && !n.chaining
    &&& n.data@ == data
}

/// One step of a read, exactly: from `o`, fed `sector`, the read becomes
/// `n` and asks for `act`.
pub open spec fn read_stepped(o: FileRead, n: FileRead, sector: Seq<u8>, act: ReadAction) -> bool {
    &&& same_request(o, n)
    &&& if o.skipping {
        let next = fat_link(sector, o.current) as u32;
        let start = (o.cluster_start + o.cluster_size()) as u64;
        &&& act == ReadAction::Read(n.pending_lba() as u64)
        &&& if start + o.cluster_size() <= o.offset {
            &&& n.skipping && !n.chaining
            &&& n.current == next
            &&& n.cluster_start == start
            &&& n.remaining == o.remaining
            &&& n.data@ == o.data@
        } else {
            begins_cluster(n, next, start, o.remaining, (o.offset - start) as u64, o.data@)
        }
    } else if o.chaining {
        let next = fat_link(sector, o.current);
        if link_continues(next) {
            &&& act == ReadAction::Read(n.pending_lba() as u64)
            &&& begins_cluster(n, next as u32, o.cluster_start, o.remaining, 0, o.data@)
        } else {
            act == ReadAction::Done((o.max_read - o.remaining) as u64) && n.data@ == o.data@
        }
    } else {
        let data = o.data@ + sector_overlap(sector, o.sector_index as int, o.read_offset as int, o.chunk as int);
        &&& n.data@ == data
        &&& n.current == o.current
        &&& n.cluster_start == o.cluster_start
        &&& n.read_offset == o.read_offset
        &&& n.chunk == o.chunk
        &&& !n.skipping
        &&& if o.sector_index + 1 < o.sectors_per_clus {
            &&& act == ReadAction::Read(n.pending_lba() as u64)
            &&& n.sector_index == o.sector_index + 1
            &&& n.remaining == o.remaining
            &&& !n.chaining
        } else {
            &&& n.remaining == o.remaining - o.chunk
            &&& n.remaining > 0 ==> act == ReadAction::Read(n.pending_lba() as u64) && n.chaining
            &&& n.remaining == 0 ==> act == ReadAction::Done(o.max_read)
        }
    }
}

/// A read of `max_read` bytes from file offset `offset` of the file whose chain starts at a cluster.
pub struct FileRead {
    pub cluster_begin_lba: u64,
    pub sectors_per_clus: u8,
    pub fat_lba: u64,
    pub offset: u64,
    pub max_read: u64,
    /// File offset of the first byte of `current`.
    pub cluster_start: u64,
    pub current: u32,
    /// Still following the chain to the cluster that holds `offset`.
    pub skipping: bool,
    /// Following the chain after a cluster was read.
    pub chaining: bool,
    /// Bytes still to deliver.
    pub remaining: u64,
    /// Offset within `current` of the first byte to deliver from it.
    pub read_offset: u64,
    /// Bytes to deliver from `current`.
    pub chunk: u64,
    /// The sector of `current` asked for last.
    pub sector_index: u64,
    /// The bytes delivered so far.
    pub data: Vec<u8>,
}

impl FileRead {
    pub open spec fn cluster_size(&self) -> int {
        self.sectors_per_clus * 512
    }

    pub open spec fn wf(&self) -> bool {
        &&& self.cluster_begin_lba < 0x1_0000_0000_0000
        &&& self.fat_lba < 0x1_0000_0000_0000
        &&& self.sectors_per_clus > 0
        &&& self.current >= 2
        &&& self.offset <= u32::MAX
        &&& self.max_read <= u32::MAX
        &&& self.cluster_start <= self.offset
        &&& self.remaining <= self.max_read
        &&& (self.skipping || self.chaining) ==> self.data@.len() + self.remaining == self.max_read
        &&& !(self.skipping && self.chaining)
        &&& self.skipping ==> self.cluster_start + self.cluster_size() <= self.offset && self.remaining == self.max_read
        &&& !self.skipping && !self.chaining ==> {
            &&& self.sector_index < self.sectors_per_clus
            &&& self.read_offset + self.chunk <= self.cluster_size()
            &&& 0 < self.chunk <= self.remaining
            &&& self.data@.len() + self.remaining == self.max_read
                + covered(self.sector_index as int, self.read_offset as int, self.chunk as int)
        }
        &&& self.chaining ==> self.remaining > 0
        &&& self.skipping ==> self.remaining > 0
    }

    /// The LBA of the sector the read asked for last.
    pub open spec fn pending_lba(&self) -> int {
        if self.skipping || self.chaining {
            fat_sector_lba(self.fat_lba, self.current)
        } else {
            cluster_lba(self.cluster_begin_lba, self.sectors_per_clus, self.current) + self.sector_index
        }
    }

    fn read_pending(&self) -> (act: ReadAction)
        requires
            self.wf(),
        ensures
            act == ReadAction::Read(self.pending_lba() as u64),
            0 <= self.pending_lba() <= u64::MAX,
    {
        if self.skipping || self.chaining {
            ReadAction::Read(self.fat_lba + (self.current as u64 * 4) / 512)
        } else {
            assert((self.current - 2) * self.sectors_per_clus <= 0xFFFF_FFFF * 255) by (nonlinear_arith)
                requires
                    self.current >= 2,
            ;
            ReadAction::Read(
                self.cluster_begin_lba + (self.current as u64 - 2) * self.sectors_per_clus as u64 + self.sector_index,
            )
        }
    }

    /// Sets up the delivery from `current`, whose first byte is at file offset `cluster_start`.
    fn begin_cluster(&mut self)
        requires
            old(self).sectors_per_clus > 0,
            old(self).remaining > 0,
            old(self).cluster_start <= old(self).offset,
            old(self).offset < old(self).cluster_start + old(self).cluster_size() || old(self).chaining,
        ensures
            final(self).read_offset == if old(self).chaining { 0 } else { old(self).offset - old(self).cluster_start },
            final(self).chunk == min_u64(old(self).remaining, (old(self).cluster_size() - final(self).read_offset) as u64),
            final(self).sector_index == 0,
            !final(self).skipping && !final(self).chaining,
            final(self).cluster_begin_lba == old(self).cluster_begin_lba,
            final(self).sectors_per_clus == old(self).sectors_per_clus,
            final(self).fat_lba == old(self).fat_lba,
            final(self).offset == old(self).offset,
            final(self).max_read == old(self).max_read,
            final(self).cluster_start == old(self).cluster_start,
            final(self).current == old(self).current,
            final(self).remaining == old(self).remaining,
            final(self).data == old(self).data,
    {
        let cs = self.sectors_per_clus as u64 * 512;
        self.read_offset = if self.chaining { 0 } else { self.offset - self.cluster_start };
        let room = cs - self.read_offset;
        self.chunk = if self.remaining < room { self.remaining } else { room };
        self.sector_index = 0;
        self.skipping = false;
        self.chaining = false;
    }

    /// Starts a read of `max_read` bytes at file offset `offset` of the chain
    /// that begins at `cluster`. A zero-byte read is done at once.
    pub fn start(fs: &SimpleFileSystem, cluster: u32, offset: u64, max_read: u64) -> (r: (FileRead, ReadAction))
        requires
            fs.cluster_begin_lba < 0x1_0000_0000_0000,
            fs.part_lba + fs.reserved_secs < 0x1_0000_0000_0000,
            fs.sectors_per_clus > 0,
            offset <= u32::MAX,
            max_read <= u32::MAX,
            max_read > 0 ==> cluster >= 2,
        ensures
            r.0.offset == offset,
            r.0.max_read == max_read,
            r.0.data@.len() == 0,
            max_read == 0 ==> r.1 == ReadAction::Done(0),
            max_read > 0 ==> {
                &&& r.0.wf()
                &&& r.0.current == cluster
                &&& r.0.cluster_start == 0
                &&& r.0.skipping == (fs.sectors_per_clus * 512 <= offset)
                &&& !r.0.skipping ==> r.0.read_offset == offset && r.0.chunk == min_u64(max_read, (fs.sectors_per_clus * 512 - offset) as u64)
                &&& r.1 == ReadAction::Read(r.0.pending_lba() as u64)
            },
    {
        let mut r = FileRead {
            cluster_begin_lba: fs.cluster_begin_lba,
            sectors_per_clus: fs.sectors_per_clus,
            fat_lba: fs.part_lba + fs.reserved_secs as u64,
            offset,
            max_read,
            cluster_start: 0,
            current: cluster,
            skipping: false,
            chaining: false,
            remaining: max_read,
            read_offset: 0,
            chunk: 0,
            sector_index: 0,
            data: Vec::new(),
        };
        if max_read == 0 {
            return (r, ReadAction::Done(0));
        }
        let cs = fs.sectors_per_clus as u64 * 512;
        if cs <= offset {
            r.skipping = true;
        } else {
            r.begin_cluster();
        }
        let act = r.read_pending();
        (r, act)
    }

    /// Feeds the sector the read asked for, and says what it needs next.
    pub fn step(&mut self, sector: &[u8]) -> (act: ReadAction)
        requires
            old(self).wf(),
            sector@.len() >= 512,
            old(self).skipping ==> link_continues(fat_link(sector@, old(self).current)),
            old(self).skipping || old(self).chaining ==> fat_link(sector@, old(self).current) != 1,
        ensures
            read_stepped(*old(self), *final(self), sector@, act),
            final(self).offset == old(self).offset,
            final(self).max_read == old(self).max_read,
            act is Read ==> final(self).wf() && act == ReadAction::Read(final(self).pending_lba() as u64),
            act matches ReadAction::Done(n) ==> n == final(self).data@.len() && final(self).remaining == old(self).max_read - n,
            old(self).skipping ==> {
                &&& act is Read
                &&& final(self).data == old(self).data
                &&& final(self).current == fat_link(sector@, old(self).current)
                &&& final(self).cluster_start == old(self).cluster_start + old(self).cluster_size()
                &&& final(self).skipping == (final(self).cluster_start + old(self).cluster_size() <= old(self).offset)
            },
            old(self).chaining ==> {
                let next = fat_link(sector@, old(self).current);
                &&& final(self).data == old(self).data
                &&& link_continues(next) ==> act is Read && final(self).current == next && final(self).read_offset == 0
                    && final(self).sector_index == 0 && !final(self).chaining
                    && final(self).chunk == min_u64(old(self).remaining, old(self).cluster_size() as u64)
                &&& !link_continues(next) ==> act == ReadAction::Done((old(self).max_read - old(self).remaining) as u64)
            },
            !old(self).skipping && !old(self).chaining ==> {
                &&& final(self).data@ == old(self).data@ + sector_overlap(
                    sector@,
                    old(self).sector_index as int,
                    old(self).read_offset as int,
                    old(self).chunk as int,
                )
                &&& final(self).current == old(self).current
                &&& old(self).sector_index + 1 < old(self).sectors_per_clus ==> act is Read
                    && final(self).sector_index == old(self).sector_index + 1
                &&& old(self).sector_index + 1 >= old(self).sectors_per_clus ==> {
                    &&& final(self).remaining == old(self).remaining - old(self).chunk
                    &&& final(self).remaining > 0 ==> act is Read && final(self).chaining
                    &&& final(self).remaining == 0 ==> act == ReadAction::Done(old(self).max_read)
                }
            },
    {
        if self.skipping {
            let next = fat_entry_value(sector, self.current);
            self.current = next;
            let cs = self.sectors_per_clus as u64 * 512;
            self.cluster_start = self.cluster_start + cs;
            if self.cluster_start + cs <= self.offset {
                self.skipping = true;
            } else {
                self.skipping = false;
                self.begin_cluster();
            }
            return self.read_pending();
        }
        if self.chaining {
            let next = fat_entry_value(sector, self.current);
            if next < 0x0FFF_FFF8 && next != 0 {
                self.current = next;
                self.begin_cluster();
                return self.read_pending();
            }
            return ReadAction::Done(self.max_read - self.remaining);
        }
        self.take_overlap(sector);
        proof {
            lemma_overlap_len(sector@, self.sector_index as int, self.read_offset as int, self.chunk as int);
        }
        if self.sector_index + 1 < self.sectors_per_clus as u64 {
            self.sector_index = self.sector_index + 1;
            return self.read_pending();
        }
        self.remaining = self.remaining - self.chunk;
        if self.remaining > 0 {
            self.chaining = true;
            self.read_pending()
        } else {
            ReadAction::Done(self.max_read)
        }
    }

    /// Appends the part of `sector` that falls in the cluster range being delivered.
    fn take_overlap(&mut self, sector: &[u8])
        requires
            old(self).wf(),
            !old(self).skipping && !old(self).chaining,
            sector@.len() >= 512,
        ensures
            final(self).data@ == old(self).data@ + sector_overlap(
                sector@,
                old(self).sector_index as int,
                old(self).read_offset as int,
                old(self).chunk as int,
            ),
            final(self).data@.len() <= old(self).data@.len() + old(self).chunk,
            *final(self) == (FileRead { data: final(self).data, ..*old(self) }),
    {
        let s = 512 * self.sector_index;
        let lo = self.read_offset;
        let hi = self.read_offset + self.chunk;
        let a = if s > lo { s } else { lo };
        let b = if s + 512 < hi { s + 512 } else { hi };
        if a < b {
            let mut k = a - s;
            let ghost start = self.data@;
            while k < b - s
                invariant
                    s <= a,
                    a - s <= k <= b - s,
                    b - s <= 512,
                    sector@.len() >= 512,
                    self.data@ == start + sector@.subrange(a - s, k as int),
                    self.cluster_begin_lba == old(self).cluster_begin_lba,
                    self.sectors_per_clus == old(self).sectors_per_clus,
                    self.fat_lba == old(self).fat_lba,
                    self.offset == old(self).offset,
                    self.max_read == old(self).max_read,
                    self.cluster_start == old(self).cluster_start,
                    self.current == old(self).current,
                    self.skipping == old(self).skipping,
                    self.chaining == old(self).chaining,
                    self.remaining == old(self).remaining,
                    self.read_offset == old(self).read_offset,
                    self.chunk == old(self).chunk,
                    self.sector_index == old(self).sector_index,
                decreases b - s - k,
            {
                let ghost before = self.data@;
                self.data.push(sector[k as usize]);
                assert(sector@.subrange(a - s, k + 1) =~= sector@.subrange(a - s, k as int).push(sector@[k as int]));
                assert(self.data@ =~= before.push(sector@[k as int]));
                k = k + 1;
            }
        }
    }
}

/// The cluster `k` links after `start` in the FAT of the disk whose
/// sectors, by LBA, are `disk` (cluster 0 of the chain is `start`).
pub open spec fn chain_cluster(disk: spec_fn(int) -> Seq<u8>, fat_lba: u64, start: u32, k: nat) -> u32
    decreases k,
{
    if k == 0 {
        start
    } else {
        let p = chain_cluster(disk, fat_lba, start, (k - 1) as nat);
        fat_link(disk(fat_sector_lba(fat_lba, p)), p) as u32
    }
}

/// The bytes of the first `n` sectors of cluster `c`.
pub open spec fn cluster_bytes(disk: spec_fn(int) -> Seq<u8>, cbl: u64, spc: u8, c: u32, n: nat) -> Seq<u8>
    decreases n,
{
    if n == 0 {
        Seq::empty()
    } else {
        cluster_bytes(disk, cbl, spc, c, (n - 1) as nat) + disk(cluster_lba(cbl, spc, c) + n - 1).subrange(0, 512)
    }
}

/// The bytes of the first `m` clusters of the chain from `start`: the
/// file's bytes, cluster after cluster.
pub open spec fn file_bytes(disk: spec_fn(int) -> Seq<u8>, cbl: u64, spc: u8, fat_lba: u64, start: u32, m: nat) -> Seq<u8>
    decreases m,
{
    if m == 0 {
        Seq::empty()
    } else {
        file_bytes(disk, cbl, spc, fat_lba, start, (m - 1) as nat)
            + cluster_bytes(disk, cbl, spc, chain_cluster(disk, fat_lba, start, (m - 1) as nat), spc as nat)
    }
}

/// Whether every sector of the disk has 512 bytes or more.
pub open spec fn sectors_whole(disk: spec_fn(int) -> Seq<u8>) -> bool {
    forall|lba: int| #[trigger] disk(lba).len() >= 512
}

/// Where a read fed from `disk` stands, with its current cluster the `k`-th
/// of the chain from `start`: what it delivered is the file's bytes from
/// the position asked for, and the position it has reached is where it is
/// in that cluster.
pub open spec fn tracks_at(r: FileRead, disk: spec_fn(int) -> Seq<u8>, start: u32, k: nat) -> bool {
    let cs = r.cluster_size();
    let pos = r.offset + r.data@.len();
    let fb = file_bytes(disk, r.cluster_begin_lba, r.sectors_per_clus, r.fat_lba, start, k + 1);
    &&& r.current == chain_cluster(disk, r.fat_lba, start, k)
    &&& if r.skipping {
        r.cluster_start == k * cs && r.data@.len() == 0
    } else {
        &&& pos <= fb.len()
        &&& r.data@ == fb.subrange(r.offset as int, pos)
        &&& if r.chaining {
            pos == (k + 1) * cs
        } else {
            &&& pos == k * cs + r.read_offset + covered(r.sector_index as int, r.read_offset as int, r.chunk as int)
            &&& (r.read_offset == 0 && k * cs >= r.offset) || k * cs + r.read_offset == r.offset
            &&& r.chunk == min_u64(r.remaining, (cs - r.read_offset) as u64)
        }
    }
}

proof fn lemma_cluster_bytes(disk: spec_fn(int) -> Seq<u8>, cbl: u64, spc: u8, c: u32, n: nat)
    requires
        sectors_whole(disk),
    ensures
        cluster_bytes(disk, cbl, spc, c, n).len() == 512 * n,
        forall|i: int, t: int| 0 <= i < n && 0 <= t < 512 ==>
            #[trigger] cluster_bytes(disk, cbl, spc, c, n)[512 * i + t] == disk(cluster_lba(cbl, spc, c) + i)[t],
    decreases n,
{
    if n > 0 {
        lemma_cluster_bytes(disk, cbl, spc, c, (n - 1) as nat);
        let prev = cluster_bytes(disk, cbl, spc, c, (n - 1) as nat);
        let last = disk(cluster_lba(cbl, spc, c) + n - 1);
        assert(last.len() >= 512);
        assert forall|i: int, t: int| 0 <= i < n && 0 <= t < 512 implies
            #[trigger] cluster_bytes(disk, cbl, spc, c, n)[512 * i + t] == disk(cluster_lba(cbl, spc, c) + i)[t] by {
            if i < n - 1 {
                assert(512 * i + t < 512 * (n - 1)) by (nonlinear_arith)
                    requires
                        0 <= i < n - 1,
                        0 <= t < 512,
                ;
            } else {
                assert(512 * i + t - 512 * (n - 1) == t);
            }
        }
    }
}

proof fn lemma_file_bytes(disk: spec_fn(int) -> Seq<u8>, cbl: u64, spc: u8, fat_lba: u64, start: u32, m: nat, m2: nat)
    requires
        sectors_whole(disk),
        m <= m2,
    ensures
        file_bytes(disk, cbl, spc, fat_lba, start, m).len() == m * (spc * 512),
        file_bytes(disk, cbl, spc, fat_lba, start, m2).len() == m2 * (spc * 512),
        file_bytes(disk, cbl, spc, fat_lba, start, m) == file_bytes(disk, cbl, spc, fat_lba, start, m2).subrange(0, m * (spc * 512)),
    decreases m2,
{
    let cs = spc * 512;
    if m2 > 0 {
        lemma_cluster_bytes(disk, cbl, spc, chain_cluster(disk, fat_lba, start, (m2 - 1) as nat), spc as nat);
        if m < m2 {
            lemma_file_bytes(disk, cbl, spc, fat_lba, start, m, (m2 - 1) as nat);
        } else {
            lemma_file_bytes(disk, cbl, spc, fat_lba, start, (m2 - 1) as nat, (m2 - 1) as nat);
        }
        assert((m2 - 1) * cs + 512 * spc == m2 * cs) by (nonlinear_arith)
            requires
                cs == spc * 512,
                m2 > 0,
        ;
        let f2 = file_bytes(disk, cbl, spc, fat_lba, start, m2);
        let f1 = file_bytes(disk, cbl, spc, fat_lba, start, (m2 - 1) as nat);
        assert(m * cs <= (m2 - 1) * cs || m == m2) by (nonlinear_arith)
            requires
                m <= m2,
                cs >= 0,
        ;
        if m < m2 {
            assert(f2.subrange(0, m * cs) =~= f1.subrange(0, m * cs));
        } else {
            assert(f2.subrange(0, m * cs) =~= f2);
        }
    } else {
        assert(file_bytes(disk, cbl, spc, fat_lba, start, m).subrange(0, 0) =~= Seq::<u8>::empty());
    }
}

/// The chain position a step moves to: one cluster on when it follows a link.
pub open spec fn next_chain_index(o: FileRead, sector: Seq<u8>, k: nat) -> nat {
    if o.skipping || (o.chaining && link_continues(fat_link(sector, o.current))) { k + 1 } else { k }
}

/// A read returns the file's bytes from the position asked for: a read
/// that `start` begins on the chain from `cluster` stands at cluster 0 of
/// that chain (`law_read_start_tracks`), and each step fed the sector the
/// read asks for keeps the bytes delivered equal to the file's bytes from
/// the position asked for, moving one cluster along the chain when it
/// follows a link; a read that is done has delivered exactly those bytes.
pub proof fn law_read_step_tracks(
    o: FileRead,
    n: FileRead,
    sector: Seq<u8>,
    act: ReadAction,
    disk: spec_fn(int) -> Seq<u8>,
    start: u32,
    k: nat,
)
    requires
        sectors_whole(disk),
        o.wf(),
        tracks_at(o, disk, start, k),
        sector == disk(o.pending_lba()),
        read_stepped(o, n, sector, act),
    ensures
        act is Read ==> tracks_at(n, disk, start, next_chain_index(o, sector, k)),
        act matches ReadAction::Done(m) ==> o.offset + m <= file_bytes(disk, o.cluster_begin_lba, o.sectors_per_clus, o.fat_lba, start, k + 1).len()
            && n.data@ == file_bytes(disk, o.cluster_begin_lba, o.sectors_per_clus, o.fat_lba, start, k + 1).subrange(o.offset as int, o.offset + m),
{
    let cs = o.cluster_size();
    let cbl = o.cluster_begin_lba;
    let spc = o.sectors_per_clus;
    let fl = o.fat_lba;
    let fb1 = file_bytes(disk, cbl, spc, fl, start, k + 1);
    let fb2 = file_bytes(disk, cbl, spc, fl, start, k + 2);
    lemma_file_bytes(disk, cbl, spc, fl, start, k + 1, k + 2);
    lemma_file_bytes(disk, cbl, spc, fl, start, k, k + 1);
    assert((k + 1) * cs == k * cs + cs && (k + 2) * cs == (k + 1) * cs + cs) by (nonlinear_arith);
    if o.skipping {
        assert(n.current == chain_cluster(disk, fl, start, k + 1));
        if !n.skipping {
            assert(fb2.subrange(o.offset as int, o.offset as int) =~= n.data@);
        }
    } else if o.chaining {
        if link_continues(fat_link(sector, o.current)) {
            assert(n.current == chain_cluster(disk, fl, start, k + 1));
            assert(o.data@ =~= fb2.subrange(o.offset as int, o.offset + o.data@.len()));
        }
    } else {
        let c = o.current;
        let i = o.sector_index as int;
        let ro = o.read_offset as int;
        let ch = o.chunk as int;
        lemma_cluster_bytes(disk, cbl, spc, c, spc as nat);
        lemma_overlap_len(sector, i, ro, ch);
        let s0 = 512 * i;
        let a = if s0 > ro { s0 } else { ro };
        let b = if s0 + 512 < ro + ch { s0 + 512 } else { ro + ch };
        let pos = o.offset + o.data@.len();
        let pos2 = pos + covered(i + 1, ro, ch) - covered(i, ro, ch);
        assert(fb1 == file_bytes(disk, cbl, spc, fl, start, k) + cluster_bytes(disk, cbl, spc, c, spc as nat));
        if a < b {
            assert(covered(i, ro, ch) == a - ro);
            assert(covered(i + 1, ro, ch) == b - ro);
            assert forall|t: int| 0 <= t < b - a implies
                #[trigger] sector_overlap(sector, i, ro, ch)[t] == fb1[k * cs + a + t] by {
                let x = a + t - s0;
                assert(0 <= x < 512);
                assert(cluster_bytes(disk, cbl, spc, c, spc as nat)[512 * i + x] == disk(cluster_lba(cbl, spc, c) + i)[x]);
                assert(512 * i + x == a + t);
            }
            assert(o.data@ + sector_overlap(sector, i, ro, ch) =~= fb1.subrange(o.offset as int, pos2));
        } else {
            assert(o.data@ + sector_overlap(sector, i, ro, ch) =~= fb1.subrange(o.offset as int, pos2));
        }
        assert(n.data@.len() == pos2 - o.offset);
        if o.sector_index + 1 >= o.sectors_per_clus {
            assert(covered(spc as int, ro, ch) == ch);
        }
    }
}

/// A read begun by `start` with bytes to deliver stands at cluster 0 of the
/// chain it was given, having delivered nothing.
pub proof fn law_read_start_tracks(r: FileRead, disk: spec_fn(int) -> Seq<u8>, cluster: u32)
    requires
        sectors_whole(disk),
        r.wf(),
        r.current == cluster,
        r.cluster_start == 0,
        r.data@.len() == 0,
        r.skipping == (r.cluster_size() <= r.offset),
        !r.chaining,
        !r.skipping ==> r.read_offset == r.offset && r.sector_index == 0
            && r.chunk == min_u64(r.remaining, (r.cluster_size() - r.offset) as u64),
    ensures
        tracks_at(r, disk, cluster, 0),
{
    lemma_file_bytes(disk, r.cluster_begin_lba, r.sectors_per_clus, r.fat_lba, cluster, 1, 1);
    if !r.skipping {
        assert(r.data@ =~= file_bytes(disk, r.cluster_begin_lba, r.sectors_per_clus, r.fat_lba, cluster, 1).subrange(r.offset as int, r.offset as int));
    }
}

} // verus!
