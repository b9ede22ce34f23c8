//! The open-file table: descriptors 3 to 255, each with a first cluster, a
//! position, a directory flag and a size.
use vstd::prelude::*;
use crate::fs::dir_walk::DirOutcome;
use crate::bytes::{le32, le64, push_le32, push_le64};

verus! {

pub const FD_TABLE_SIZE: usize = 256;

/// An open file.
#[derive(Clone, Copy)]
pub struct FileDescriptor {
    pub cluster: u32,
    pub position: u64,
    pub is_dir: bool,
    pub file_size: u32,
}

impl FileDescriptor {
    /// Moves the position to `pos`.
    pub fn seek(&mut self, pos: u64)
        ensures
            *final(self) == (FileDescriptor { position: pos, ..*old(self) }),
    {
        self.position = pos;
    }
}

/// What `fstat` reports of an open file.
#[derive(Clone, Copy)]
pub struct FileStat {
    pub file_size: u32,
    pub cluster: u32,
    pub position: u64,
    pub is_dir: bool,
}

impl FileStat {
    /// The 24 bytes of the C layout written into the caller's buffer: size
    /// at 0, cluster at 4, position at 8, the directory flag at 16, then
    /// padding.
    pub fn to_bytes(&self) -> (b: Vec<u8>)
        ensures
            b@.len() == 24,
            le32(b@, 0) == self.file_size,
            le32(b@, 4) == self.cluster,
            le64(b@, 8) == self.position,
            b@[16] == (if self.is_dir { 1u8 } else { 0u8 }),
            forall|j: int| 17 <= j < 24 ==> b@[j] == 0,
    {
        let mut b: Vec<u8> = Vec::new();
        push_le32(&mut b, self.file_size);
        let ghost b1 = b@;
        push_le32(&mut b, self.cluster);
        let ghost b2 = b@;
        push_le64(&mut b, self.position);
        assert(le32(b@, 0) == le32(b1, 0));
        assert(le32(b@, 4) == le32(b2, 4));
        b.push(if self.is_dir { 1u8 } else { 0u8 });
        let ghost b3 = b@;
        let mut i: usize = 17;
        while i < 24
            invariant
                17 <= i <= 24,
                b@.len() == i,
                b@.subrange(0, 17) == b3,
                forall|j: int| 17 <= j < i ==> b@[j] == 0,
            decreases 24 - i,
        {
            b.push(0u8);
            i = i + 1;
            assert(b@.subrange(0, 17) =~= b3);
        }
        assert(le32(b@, 0) == le32(b3, 0));
        assert(le32(b@, 4) == le32(b3, 4));
        assert(le64(b@, 8) == le64(b3, 8));
        assert(b@[16] == b3[16]);
        b
    }
}

/// The table as a sequence of 256 slots.
pub type FdSlots = Seq<Option<FileDescriptor>>;

/// The first free slot at or after `i`, among slots 3 to 255.
pub open spec fn first_free_slot(t: FdSlots, i: int) -> int
    decreases 256 - i,
{
    if i >= 256 || i < 0 {
        -1
    } else if t[i] is None {
        i
    } else {
        first_free_slot(t, i + 1)
    }
}

/// Allocation: the descriptor number (or -1 when all are in use) and the table after.
pub open spec fn alloc_spec(t: FdSlots, cluster: u32, is_dir: bool, file_size: u32) -> (FdSlots, int) {
    let i = first_free_slot(t, 3);
    if i == -1 {
        (t, -1)
    } else {
        (t.update(i, Some(FileDescriptor { cluster, position: 0, is_dir, file_size })), i)
    }
}

/// The descriptor `fd` names, if it is open.
pub open spec fn get_spec(t: FdSlots, fd: u32) -> Option<FileDescriptor> {
    if fd < 256 { t[fd as int] } else { None }
}

/// Closing: descriptors 3 to 255 are emptied and succeed; others fail.
pub open spec fn close_spec(t: FdSlots, fd: u32) -> (FdSlots, bool) {
    if 3 <= fd < 256 {
        (t.update(fd as int, None), true)
    } else {
        (t, false)
    }
}

/// A 64-bit unsigned value read as a signed one.
pub open spec fn as_signed(x: u64) -> int {
    if x < 0x8000_0000_0000_0000 { x as int } else { x - 0x1_0000_0000_0000_0000 }
}

/// The position `lseek` aims at: from the start, from the position, or from the end.
pub open spec fn lseek_target(d: FileDescriptor, offset: i64, whence: u32) -> int {
    if whence == 0 {
        offset as int
    } else if whence == 1 {
        as_signed(d.position) + offset
    } else {
        d.file_size + offset
    }
}

/// Whether the `lseek` arithmetic stays within 64-bit signed range.
pub open spec fn lseek_fits(t: FdSlots, fd: u32, offset: i64, whence: u32) -> bool {
    match get_spec(t, fd) {
        Some(d) => whence > 2 || (i64::MIN <= lseek_target(d, offset, whence) <= i64::MAX),
        None => true,
    }
}

/// `lseek`: the result and the table after.
pub open spec fn lseek_spec(t: FdSlots, fd: u32, offset: i64, whence: u32) -> (FdSlots, int) {
    match get_spec(t, fd) {
        None => (t, -1),
        Some(d) => if whence > 2 || lseek_target(d, offset, whence) < 0 {
            (t, -1)
        } else {
            let p = lseek_target(d, offset, whence);
            (t.update(fd as int, Some(FileDescriptor { position: p as u64, ..d })), p)
        },
    }
}

/// `seek`: the result and the table after.
pub open spec fn seek_spec(t: FdSlots, fd: u32, pos: u64) -> (FdSlots, int) {
    match get_spec(t, fd) {
        None => (t, -1),
        Some(d) => (t.update(fd as int, Some(FileDescriptor { position: pos, ..d })), as_signed(pos)),
    }
}

/// How a file read begins.
pub enum ReadStart {
    /// The request is refused (-1).
    Refused,
    /// Nothing is left to read at the position (0).
    Nothing,
    /// Read `max_read` bytes from `offset` of the chain starting at `cluster`.
    Read { cluster: u32, offset: u64, max_read: u64 },
}

/// How a file write begins.
pub enum WriteStart {
    Refused,
    Write { cluster: u32, offset: u64 },
}

pub fn as_i64(x: u64) -> (r: i64)
    ensures
        r == as_signed(x),
{
    let r = x as i64;
    assert(r == if x < 0x8000_0000_0000_0000u64 { x as int } else { x - 0x1_0000_0000_0000_0000 }) by (bit_vector)
        requires
            r == x as i64,
    ;
    r
}

/// The descriptor table.
pub struct FdTable {
    pub slots: Vec<Option<FileDescriptor>>,
}

impl FdTable {
    pub open spec fn view(&self) -> FdSlots {
        self.slots@
    }

    pub open spec fn wf(&self) -> bool {
        self.slots@.len() == 256
    }

    /// A table with every slot free.
    pub fn new() -> (t: Self)
        ensures
            t.wf(),
            forall|i: int| 0 <= i < 256 ==> t@[i] is None,
    {
        let mut slots: Vec<Option<FileDescriptor>> = Vec::new();
        let mut i: usize = 0;
        while i < 256
            invariant
                i <= 256,
                slots@.len() == i,
                forall|k: int| 0 <= k < i ==> slots@[k] is None,
            decreases 256 - i,
        {
            slots.push(None);
            i = i + 1;
        }
        FdTable { slots }
    }

    /// Opens a descriptor at position 0 in the lowest free slot from 3 on; -1 when none is free.
    pub fn allocate_fd(&mut self, cluster: u32, is_dir: bool, file_size: u32) -> (fd: i32)
        requires
            old(self).wf(),
        ensures
            final(self).wf(),
            (final(self)@, fd as int) == alloc_spec(old(self)@, cluster, is_dir, file_size),
    {
        let mut i: usize = 3;
        while i < 256
            invariant
                3 <= i <= 256,
                self.wf(),
                self@ == old(self)@,
                first_free_slot(self@, 3) == first_free_slot(self@, i as int),
            decreases 256 - i,
        {
            if self.slots[i].is_none() {
                self.slots.set(i, Some(FileDescriptor { cluster, position: 0, is_dir, file_size }));
                return i as i32;
            }
            i = i + 1;
        }
        -1
    }

    /// The descriptor `fd` names, if it is open.
    pub fn get_fd(&self, fd: u32) -> (r: Option<FileDescriptor>)
        requires
            self.wf(),
        ensures
            r == get_spec(self@, fd),
    {
        if (fd as usize) < 256 {
            self.slots[fd as usize]
        } else {
            None
        }
    }

    /// The descriptor `fd` names, for changing it in place.
    pub fn get_fd_mut(&mut self, fd: u32) -> (r: Option<&mut FileDescriptor>)
        requires
            old(self).wf(),
        ensures
            r is None <==> get_spec(old(self)@, fd) is None,
            r is None ==> final(self)@ == old(self)@,
            r matches Some(d) ==> Some(*d) == get_spec(old(self)@, fd)
                && final(self)@ == old(self)@.update(fd as int, Some(*final(d))),
    {
        if (fd as usize) < 256 {
            self.slots[fd as usize].as_mut()
        } else {
            None
        }
    }

    /// Frees descriptors 3 to 255; refuses the others.
    pub fn close_fd(&mut self, fd: u32) -> (ok: bool)
        requires
            old(self).wf(),
        ensures
            final(self).wf(),
            (final(self)@, ok) == close_spec(old(self)@, fd),
    {
        if fd >= 3 && (fd as usize) < 256 {
            self.slots.set(fd as usize, None);
            true
        } else {
            false
        }
    }

    /// Moves the position of `fd` relative to the start (0), the position (1)
    /// or the end (2); the new position, or -1 for an unknown descriptor, an
    /// unknown `whence` or a negative result.
    pub fn sys_lseek(&mut self, fd: u32, offset: i64, whence: u32) -> (r: i64)
        requires
            old(self).wf(),
            lseek_fits(old(self)@, fd, offset, whence),
        ensures
            final(self).wf(),
            (final(self)@, r as int) == lseek_spec(old(self)@, fd, offset, whence),
    {
        let d = match self.get_fd(fd) {
            Some(d) => d,
            None => return -1,
        };
        let new_pos: i64 = if whence == 0 {
            offset
        } else if whence == 1 {
            as_i64(d.position) + offset
        } else if whence == 2 {
            d.file_size as i64 + offset
        } else {
            return -1;
        };
        if new_pos < 0 {
            return -1;
        }
        self.slots.set(fd as usize, Some(FileDescriptor { position: new_pos as u64, ..d }));
        new_pos
    }

    /// What `fstat` reports of `fd`, if it is open.
    pub fn sys_fstat(&self, fd: u32) -> (r: Option<FileStat>)
        requires
            self.wf(),
        ensures
            r is None <==> get_spec(self@, fd) is None,
            r matches Some(st) ==> {
                let d = get_spec(self@, fd).unwrap();
                st == FileStat { file_size: d.file_size, cluster: d.cluster, position: d.position, is_dir: d.is_dir }
            },
    {
        match self.get_fd(fd) {
            Some(d) => Some(FileStat { file_size: d.file_size, cluster: d.cluster, position: d.position, is_dir: d.is_dir }),
            None => None,
        }
    }

    /// Moves the position of `fd` to `pos`; the position read as signed, or -1 for an unknown descriptor.
    pub fn sys_seek(&mut self, fd: u32, pos: u64) -> (r: i64)
        requires
            old(self).wf(),
        ensures
            final(self).wf(),
            (final(self)@, r as int) == seek_spec(old(self)@, fd, pos),
    {
        match self.get_fd_mut(fd) {
            Some(d) => {
                d.seek(pos);
                as_i64(d.position)
            },
            None => -1,
        }
    }

    /// The checks a file read makes before it touches the disk.
    pub fn begin_read(&self, fd: u32, buf_ptr: u64, buf_len: u64) -> (r: ReadStart)
        requires
            self.wf(),
        ensures
            buf_ptr == 0 || buf_len == 0 || get_spec(self@, fd) is None || get_spec(self@, fd).unwrap().is_dir
                ==> (r is Refused),
            match get_spec(self@, fd) {
                Some(d) => !d.is_dir && buf_ptr != 0 && buf_len != 0 ==> {
                    let left = if d.position < d.file_size { d.file_size - d.position } else { 0 };
                    let max = if buf_len < left { buf_len as int } else { left };
                    &&& max == 0 ==> (r is Nothing)
                    &&& max > 0 ==> r == (ReadStart::Read { cluster: d.cluster, offset: d.position, max_read: max as u64 })
                },
                None => true,
            },
    {
        if buf_ptr == 0 || buf_len == 0 {
            return ReadStart::Refused;
        }
        let d = match self.get_fd(fd) {
            Some(d) => d,
            None => return ReadStart::Refused,
        };
        if d.is_dir {
            return ReadStart::Refused;
        }
        let left = (d.file_size as u64).saturating_sub(d.position);
        let max_read = if buf_len < left { buf_len } else { left };
        if max_read == 0 {
            return ReadStart::Nothing;
        }
        ReadStart::Read { cluster: d.cluster, offset: d.position, max_read }
    }

    /// Advances the position of `fd` by the bytes a read delivered.
    pub fn finish_read(&mut self, fd: u32, total: u64)
        requires
            old(self).wf(),
            get_spec(old(self)@, fd) matches Some(d) ==> d.position + total <= u64::MAX,
        ensures
            final(self).wf(),
            final(self)@ == match get_spec(old(self)@, fd) {
                Some(d) => old(self)@.update(fd as int, Some(FileDescriptor { position: (d.position + total) as u64, ..d })),
                None => old(self)@,
            },
    {
        if let Some(d) = self.get_fd_mut(fd) {
            d.position = d.position + total;
        }
    }

    /// The checks a file write makes before it touches the disk.
    pub fn begin_write(&self, fd: u32, buf_ptr: u64, buf_len: u64) -> (r: WriteStart)
        requires
            self.wf(),
        ensures
            buf_ptr == 0 || buf_len == 0 || get_spec(self@, fd) is None || get_spec(self@, fd).unwrap().is_dir
                ==> (r is Refused),
            match get_spec(self@, fd) {
                Some(d) => !d.is_dir && buf_ptr != 0 && buf_len != 0
                    ==> r == (WriteStart::Write { cluster: d.cluster, offset: d.position }),
                None => true,
            },
    {
        if buf_ptr == 0 || buf_len == 0 {
            return WriteStart::Refused;
        }
        match self.get_fd(fd) {
            Some(d) => if d.is_dir {
                WriteStart::Refused
            } else {
                WriteStart::Write { cluster: d.cluster, offset: d.position }
            },
            None => WriteStart::Refused,
        }
    }

    /// Advances the position of `fd` by the bytes a write stored; when the
    /// file grew, records the new size (the position, cut to 32 bits) and
    /// returns the file's first cluster and that size, for the directory entry.
    pub fn finish_write(&mut self, fd: u32, written: u64) -> (grown: Option<(u32, u32)>)
        requires
            old(self).wf(),
            get_spec(old(self)@, fd) matches Some(d) ==> d.position + written <= u64::MAX,
        ensures
            final(self).wf(),
            match get_spec(old(self)@, fd) {
                Some(d) => {
                    let p = (d.position + written) as u64;
                    if p > d.file_size {
                        &&& final(self)@ == old(self)@.update(fd as int, Some(FileDescriptor { position: p, file_size: (p as nat % 0x1_0000_0000) as u32, ..d }))
                        &&& grown == Some((d.cluster, (p as nat % 0x1_0000_0000) as u32))
                    } else {
                        &&& final(self)@ == old(self)@.update(fd as int, Some(FileDescriptor { position: p, ..d }))
                        &&& grown is None
                    }
                },
                None => final(self)@ == old(self)@ && grown is None,
            },
    {
        match self.get_fd_mut(fd) {
            Some(d) => {
                d.position = d.position + written;
                if d.position > d.file_size as u64 {
                    let p = d.position;
                    let size = p as u32;
                    assert(size == p % 0x1_0000_0000) by (bit_vector)
                        requires
                            size == p as u32,
                    ;
                    d.file_size = size;
                    Some((d.cluster, size))
                } else {
                    None
                }
            },
            None => None,
        }
    }

    /// Opens the file a lookup found: a new descriptor for it, or -1 when it was not found.
    pub fn open_found(&mut self, found: &DirOutcome) -> (fd: i32)
        requires
            old(self).wf(),
        ensures
            final(self).wf(),
            found matches DirOutcome::Entry { cluster, size } ==>
                (final(self)@, fd as int) == alloc_spec(old(self)@, *cluster, false, *size),
            !(found is Entry) ==> fd == -1 && final(self)@ == old(self)@,
    {
        match found {
            DirOutcome::Entry { cluster, size } => self.allocate_fd(*cluster, false, *size),
            _ => -1,
        }
    }
}

/// A newly allocated descriptor is one of 3 to 255, was free, and reads back
/// as the requested file at position 0.
pub proof fn law_allocate_then_get(t: FdSlots, cluster: u32, is_dir: bool, file_size: u32)
    requires
        t.len() == 256,
    ensures
        ({
            let (t2, fd) = alloc_spec(t, cluster, is_dir, file_size);
            fd != -1 ==> {
                &&& 3 <= fd < 256
                &&& t[fd] is None
                &&& get_spec(t2, fd as u32) == Some(FileDescriptor { cluster, position: 0, is_dir, file_size })
            }
        }),
        ({
            let (t2, fd) = alloc_spec(t, cluster, is_dir, file_size);
            fd == -1 <==> forall|i: int| 3 <= i < 256 ==> t[i] is Some
        }),
{
    lemma_first_free_slot(t, 3);
}

proof fn lemma_first_free_slot(t: FdSlots, i: int)
    requires
        0 <= i <= 256,
        t.len() == 256,
    ensures
        first_free_slot(t, i) == -1 <==> forall|k: int| i <= k < 256 ==> t[k] is Some,
        first_free_slot(t, i) != -1 ==> i <= first_free_slot(t, i) < 256 && t[first_free_slot(t, i)] is None,
    decreases 256 - i,
{
    if i < 256 {
        lemma_first_free_slot(t, i + 1);
    }
}

/// A closed descriptor no longer reads back.
pub proof fn law_close_then_get(t: FdSlots, fd: u32)
    requires
        t.len() == 256,
        3 <= fd < 256,
    ensures
        get_spec(close_spec(t, fd).0, fd) is None,
        close_spec(t, fd).1,
{
}

/// After a successful `lseek` the position is the returned offset, and
/// seeking from the start to a non-negative offset returns that offset.
pub proof fn law_lseek_sets_position(t: FdSlots, fd: u32, offset: i64, whence: u32)
    requires
        t.len() == 256,
    ensures
        ({
            let (t2, r) = lseek_spec(t, fd, offset, whence);
            r >= 0 ==> get_spec(t2, fd) is Some && get_spec(t2, fd).unwrap().position == r
        }),
        get_spec(t, fd) is Some && whence == 0 && offset >= 0 ==> lseek_spec(t, fd, offset, whence).1 == offset,
{
}

/// `seek` then `lseek(fd, 0, 1)` reports the position sought, when it is below 2^63.
pub proof fn law_seek_then_tell(t: FdSlots, fd: u32, pos: u64)
    requires
        t.len() == 256,
        get_spec(t, fd) is Some,
        pos < 0x8000_0000_0000_0000,
    ensures
        lseek_spec(seek_spec(t, fd, pos).0, fd, 0, 1).1 == pos,
{
}

} // verus!
