//! The `int 0x80` system call protocol: call numbers, how a call is laid out
//! in registers (number in rax, arguments in rdi, rsi, rdx, rcx), how the
//! kernel reads it back, and the status words it answers with.
use vstd::prelude::*;

verus! {

pub const SYS_WRITE: u64 = 0;
pub const SYS_READ: u64 = 1;
pub const SYS_EXIT: u64 = 2;
pub const SYS_OPEN: u64 = 3;
pub const SYS_CLOSE: u64 = 4;
pub const SYS_LSEEK_NUM: u64 = 5;
pub const SYS_FSTAT_NUM: u64 = 6;
pub const SYS_EXEC: u64 = 7;
pub const SYS_YIELD: u64 = 8;
pub const SYS_READ_FILE: u64 = 9;
pub const SYS_WRITE_FILE_NUM: u64 = 10;
pub const SYS_SEEK: u64 = 11;
pub const SYS_MGET: u64 = 13;
pub const SYS_MMAP: u64 = 14;
pub const SYS_WRITE_AT: u64 = 15;
pub const SYS_FORK: u64 = 16;
pub const SYS_WAITPID: u64 = 17;
pub const SYS_GETPID: u64 = 18;
pub const SYS_EXECVE: u64 = 19;
pub const SYS_SOCKET: u64 = 20;
pub const SYS_BIND: u64 = 21;
pub const SYS_LISTEN: u64 = 22;
pub const SYS_ACCEPT: u64 = 23;
pub const SYS_CONNECT: u64 = 24;
pub const SYS_SEND: u64 = 25;
pub const SYS_RECV: u64 = 26;
pub const SYS_MKDIR: u64 = 27;
pub const SYS_RMDIR: u64 = 28;
pub const SYS_UNLINK: u64 = 29;
pub const SYS_STAT: u64 = 30;
pub const SYS_CHDIR: u64 = 31;
pub const SYS_GETCWD: u64 = 32;
pub const SYS_MUNMAP: u64 = 33;
pub const SYS_MPROTECT: u64 = 34;

/// The all-ones word that reports failure.
pub const FAILURE: u64 = 0xFFFF_FFFF_FFFF_FFFF;

/// The longest path the kernel copies out of a caller's buffer.
pub const PATH_MAX: usize = 128;

/// A system call as the kernel's handler sees it.
#[derive(PartialEq, Eq, Structural, Clone, Copy, Debug)]
pub enum Syscall {
    /// Draw `len` bytes at `ptr` on the console line.
    Write { ptr: u64, len: u64 },
    /// Wait for a key press and store its scancode at `buf_ptr`.
    Read { buf_ptr: u64, buf_len: u64 },
    /// Report that the program exited.
    Exit,
    /// Open the file whose NUL-terminated path is at `path_ptr`.
    Open { path_ptr: u64 },
    Close { fd: u32 },
    Lseek { fd: u32, offset: i64, whence: u32 },
    Fstat { fd: u32, buf: u64 },
    Yield,
    ReadFile { fd: u32, buf: u64, len: u64 },
    WriteFile { fd: u32, buf: u64, len: u64 },
    Seek { fd: u32, pos: u64 },
    /// Allocate `pages` pages and store the address at `result_ptr`.
    Mget { pages: u64, align: u64, result_ptr: u64 },
    /// Allocate `pages` pages through a nested `Mget`.
    Mmap { pages: u64, align: u64, result_ptr: u64 },
    /// Draw `len` bytes at `ptr` at pixel (`x`, `y`).
    WriteAt { x: u64, y: u64, ptr: u64, len: u64 },
    /// Free `pages` pages from `addr`.
    Munmap { addr: u64, pages: u64 },
    /// A number the kernel does not serve.
    Unknown { num: u64 },
}

/// The five registers of a call: rax, rdi, rsi, rdx, rcx.
#[derive(PartialEq, Eq, Structural, Clone, Copy, Debug)]
pub struct SyscallRegs {
    pub rax: u64,
    pub rdi: u64,
    pub rsi: u64,
    pub rdx: u64,
    pub rcx: u64,
}

/// Whether `num` is a call number the handler serves.
pub open spec fn is_served(num: u64) -> bool {
    num == 0 || num == 1 || num == 2 || num == 3 || num == 4 || num == 5 || num == 6 || num == 8
        || num == 9 || num == 10 || num == 11 || num == 13 || num == 14 || num == 15 || num == 33
}

/// How the handler reads a call out of its registers.
pub open spec fn decode_spec(r: SyscallRegs) -> Syscall {
    if r.rax == 0 {
        Syscall::Write { ptr: r.rdi, len: r.rsi }
    } else if r.rax == 1 {
        Syscall::Read { buf_ptr: r.rdi, buf_len: r.rsi }
    } else if r.rax == 2 {
        Syscall::Exit
    } else if r.rax == 3 {
        Syscall::Open { path_ptr: r.rdi }
    } else if r.rax == 4 {
        Syscall::Close { fd: r.rdi as u32 }
    } else if r.rax == 5 {
        Syscall::Lseek { fd: r.rdi as u32, offset: r.rsi as i64, whence: r.rdx as u32 }
    } else if r.rax == 6 {
        Syscall::Fstat { fd: r.rdi as u32, buf: r.rsi }
    } else if r.rax == 8 {
        Syscall::Yield
    } else if r.rax == 9 {
        Syscall::ReadFile { fd: r.rdi as u32, buf: r.rsi, len: r.rdx }
    } else if r.rax == 10 {
        Syscall::WriteFile { fd: r.rdi as u32, buf: r.rsi, len: r.rdx }
    } else if r.rax == 11 {
        Syscall::Seek { fd: r.rdi as u32, pos: r.rsi }
    } else if r.rax == 13 {
        Syscall::Mget { pages: r.rdi, align: r.rsi, result_ptr: r.rdx }
    } else if r.rax == 14 {
        Syscall::Mmap { pages: r.rdi, align: r.rsi, result_ptr: r.rdx }
    } else if r.rax == 15 {
        Syscall::WriteAt { x: r.rdi, y: r.rsi, ptr: r.rdx, len: r.rcx }
    } else if r.rax == 33 {
        Syscall::Munmap { addr: r.rdi, pages: r.rsi }
    } else {
        Syscall::Unknown { num: r.rax }
    }
}

/// Reads a call out of the registers the handler finds on entry.
pub fn decode(r: SyscallRegs) -> (c: Syscall)
    ensures
        c == decode_spec(r),
{
    match r.rax {
        0 => Syscall::Write { ptr: r.rdi, len: r.rsi },
        1 => Syscall::Read { buf_ptr: r.rdi, buf_len: r.rsi },
        2 => Syscall::Exit,
        3 => Syscall::Open { path_ptr: r.rdi },
        4 => Syscall::Close { fd: r.rdi as u32 },
        5 => Syscall::Lseek { fd: r.rdi as u32, offset: r.rsi as i64, whence: r.rdx as u32 },
        6 => Syscall::Fstat { fd: r.rdi as u32, buf: r.rsi },
        8 => Syscall::Yield,
        9 => Syscall::ReadFile { fd: r.rdi as u32, buf: r.rsi, len: r.rdx },
        10 => Syscall::WriteFile { fd: r.rdi as u32, buf: r.rsi, len: r.rdx },
        11 => Syscall::Seek { fd: r.rdi as u32, pos: r.rsi },
        13 => Syscall::Mget { pages: r.rdi, align: r.rsi, result_ptr: r.rdx },
        14 => Syscall::Mmap { pages: r.rdi, align: r.rsi, result_ptr: r.rdx },
        15 => Syscall::WriteAt { x: r.rdi, y: r.rsi, ptr: r.rdx, len: r.rcx },
        33 => Syscall::Munmap { addr: r.rdi, pages: r.rsi },
        _ => Syscall::Unknown { num: r.rax },
    }
}

/// How a caller lays a call out in registers; registers a call does not use are 0.
pub open spec fn encode_spec(c: Syscall) -> SyscallRegs {
    let z = SyscallRegs { rax: 0, rdi: 0, rsi: 0, rdx: 0, rcx: 0 };
    match c {
        Syscall::Write { ptr, len } => SyscallRegs { rax: 0, rdi: ptr, rsi: len, ..z },
        Syscall::Read { buf_ptr, buf_len } => SyscallRegs { rax: 1, rdi: buf_ptr, rsi: buf_len, ..z },
        Syscall::Exit => SyscallRegs { rax: 2, ..z },
        Syscall::Open { path_ptr } => SyscallRegs { rax: 3, rdi: path_ptr, ..z },
        Syscall::Close { fd } => SyscallRegs { rax: 4, rdi: fd as u64, ..z },
        Syscall::Lseek { fd, offset, whence } => SyscallRegs {
            rax: 5,
            rdi: fd as u64,
            rsi: offset as u64,
            rdx: whence as u64,
            ..z
        },
        Syscall::Fstat { fd, buf } => SyscallRegs { rax: 6, rdi: fd as u64, rsi: buf, ..z },
        Syscall::Yield => SyscallRegs { rax: 8, ..z },
        Syscall::ReadFile { fd, buf, len } => SyscallRegs { rax: 9, rdi: fd as u64, rsi: buf, rdx: len, ..z },
        Syscall::WriteFile { fd, buf, len } => SyscallRegs { rax: 10, rdi: fd as u64, rsi: buf, rdx: len, ..z },
        Syscall::Seek { fd, pos } => SyscallRegs { rax: 11, rdi: fd as u64, rsi: pos, ..z },
        Syscall::Mget { pages, align, result_ptr } => SyscallRegs {
            rax: 13,
            rdi: pages,
            rsi: align,
            rdx: result_ptr,
            ..z
        },
        Syscall::Mmap { pages, align, result_ptr } => SyscallRegs {
            rax: 14,
            rdi: pages,
            rsi: align,
            rdx: result_ptr,
            ..z
        },
        Syscall::WriteAt { x, y, ptr, len } => SyscallRegs { rax: 15, rdi: x, rsi: y, rdx: ptr, rcx: len },
        Syscall::Munmap { addr, pages } => SyscallRegs { rax: 33, rdi: addr, rsi: pages, ..z },
        Syscall::Unknown { num } => SyscallRegs { rax: num, ..z },
    }
}

/// Lays a call out in registers the way the user-side stubs do.
pub fn encode(c: Syscall) -> (r: SyscallRegs)
    ensures
        r == encode_spec(c),
{
    let z = SyscallRegs { rax: 0, rdi: 0, rsi: 0, rdx: 0, rcx: 0 };
    match c {
        Syscall::Write { ptr, len } => SyscallRegs { rax: 0, rdi: ptr, rsi: len, ..z },
        Syscall::Read { buf_ptr, buf_len } => SyscallRegs { rax: 1, rdi: buf_ptr, rsi: buf_len, ..z },
        Syscall::Exit => SyscallRegs { rax: 2, ..z },
        Syscall::Open { path_ptr } => SyscallRegs { rax: 3, rdi: path_ptr, ..z },
        Syscall::Close { fd } => SyscallRegs { rax: 4, rdi: fd as u64, ..z },
        Syscall::Lseek { fd, offset, whence } => SyscallRegs {
            rax: 5,
            rdi: fd as u64,
            rsi: offset as u64,
            rdx: whence as u64,
            ..z
        },
        Syscall::Fstat { fd, buf } => SyscallRegs { rax: 6, rdi: fd as u64, rsi: buf, ..z },
        Syscall::Yield => SyscallRegs { rax: 8, ..z },
        Syscall::ReadFile { fd, buf, len } => SyscallRegs { rax: 9, rdi: fd as u64, rsi: buf, rdx: len, ..z },
        Syscall::WriteFile { fd, buf, len } => SyscallRegs { rax: 10, rdi: fd as u64, rsi: buf, rdx: len, ..z },
        Syscall::Seek { fd, pos } => SyscallRegs { rax: 11, rdi: fd as u64, rsi: pos, ..z },
        Syscall::Mget { pages, align, result_ptr } => SyscallRegs {
            rax: 13,
            rdi: pages,
            rsi: align,
            rdx: result_ptr,
            ..z
        },
        Syscall::Mmap { pages, align, result_ptr } => SyscallRegs {
            rax: 14,
            rdi: pages,
            rsi: align,
            rdx: result_ptr,
            ..z
        },
        Syscall::WriteAt { x, y, ptr, len } => SyscallRegs { rax: 15, rdi: x, rsi: y, rdx: ptr, rcx: len },
        Syscall::Munmap { addr, pages } => SyscallRegs { rax: 33, rdi: addr, rsi: pages, ..z },
        Syscall::Unknown { num } => SyscallRegs { rax: num, ..z },
    }
}

/// Every call a caller can lay out reads back as itself in the handler;
/// an unknown number reads back as unknown as long as it is not one the
/// handler serves.
pub proof fn law_decode_encode(c: Syscall)
    requires
        c matches Syscall::Unknown { num } ==> !is_served(num),
    ensures
        decode_spec(encode_spec(c)) == c,
{
    match c {
        Syscall::Close { fd } => {
            assert((fd as u64) as u32 == fd) by (bit_vector);
        },
        Syscall::Lseek { fd, offset, whence } => {
            assert((fd as u64) as u32 == fd) by (bit_vector);
            assert((whence as u64) as u32 == whence) by (bit_vector);
            assert((offset as u64) as i64 == offset) by (bit_vector);
        },
        Syscall::Fstat { fd, buf } => {
            assert((fd as u64) as u32 == fd) by (bit_vector);
        },
        Syscall::ReadFile { fd, buf, len } => {
            assert((fd as u64) as u32 == fd) by (bit_vector);
        },
        Syscall::WriteFile { fd, buf, len } => {
            assert((fd as u64) as u32 == fd) by (bit_vector);
        },
        Syscall::Seek { fd, pos } => {
            assert((fd as u64) as u32 == fd) by (bit_vector);
        },
        _ => {},
    }
}

/// Where the handler leaves its answer.
#[derive(PartialEq, Eq, Structural, Clone, Copy, Debug)]
pub enum ReplyTo {
    /// In rax itself, on the way out of the interrupt.
    Rax,
    /// In the kernel's system call return word, which the kernel-side stubs read.
    ReturnWord,
}

/// The register the handler answers a call in.
pub fn reply_to(c: Syscall) -> (r: ReplyTo)
    ensures
        r == (match c {
            Syscall::Write { .. } | Syscall::Read { .. } | Syscall::WriteAt { .. } | Syscall::Unknown { .. } => ReplyTo::Rax,
            _ => ReplyTo::ReturnWord,
        }),
{
    match c {
        Syscall::Write { .. } | Syscall::Read { .. } | Syscall::WriteAt { .. } | Syscall::Unknown { .. } => ReplyTo::Rax,
        _ => ReplyTo::ReturnWord,
    }
}

/// The word for a yes/no outcome: 0 for success, all ones for failure.
pub fn status_word(ok: bool) -> (r: u64)
    ensures
        r == if ok { 0 } else { FAILURE },
{
    if ok { 0 } else { FAILURE }
}

/// Whether a read of a file into (`buf`, `len`) goes ahead: only with a
/// buffer and a length; the handler answers all ones otherwise.
pub fn read_file_allowed(buf: u64, len: u64) -> (r: bool)
    ensures
        r == (buf != 0 && len > 0),
{
    buf != 0 && len > 0
}

/// Whether a console write of (`ptr`, `len`) goes ahead.
pub fn write_at_allowed(ptr: u64, len: u64) -> (r: bool)
    ensures
        r == (ptr != 0 && len != 0),
{
    ptr != 0 && len != 0
}

/// The answer to a key read: 1 once the scancode is stored, all ones when
/// the caller gave no buffer.
pub fn read_key_reply(buf_ptr: u64, buf_len: u64) -> (r: u64)
    ensures
        r == if buf_len > 0 && buf_ptr != 0 { 1 } else { FAILURE },
{
    if buf_len > 0 && buf_ptr != 0 { 1 } else { FAILURE }
}

/// Whether a scancode read from the controller ends a key read: a key
/// press (not a release) other than 0.
pub fn is_key_press(sc: u8) -> (r: bool)
    ensures
        r == (sc < 0x80 && sc != 0),
{
    sc < 0x80 && sc != 0
}

/// The length of the path in a buffer read from the caller: up to the first
/// NUL among its first 128 bytes, else 128 (or the buffer's length, if shorter).
pub open spec fn c_path_len(b: Seq<u8>) -> int
    decreases b.len(),
{
    if b.len() == 0 {
        0
    } else {
        let k = c_path_len(b.drop_last());
        if k < b.len() - 1 || k >= PATH_MAX {
            k
        } else if b.last() == 0 {
            k
        } else {
            k + 1
        }
    }
}

proof fn lemma_c_path_len(b: Seq<u8>)
    ensures
        0 <= c_path_len(b) <= b.len(),
        c_path_len(b) <= PATH_MAX,
        forall|j: int| 0 <= j < c_path_len(b) ==> b[j] != 0,
        c_path_len(b) < b.len() && c_path_len(b) < PATH_MAX ==> b[c_path_len(b)] == 0,
    decreases b.len(),
{
    if b.len() > 0 {
        let t = b.drop_last();
        lemma_c_path_len(t);
        assert(forall|j: int| 0 <= j < t.len() ==> t[j] == b[j]);
    }
}

/// The length of the NUL-terminated path at the start of `buf`, at most 128.
pub fn path_len(buf: &[u8]) -> (n: usize)
    ensures
        n == c_path_len(buf@),
        n <= PATH_MAX,
        n <= buf@.len(),
        forall|j: int| 0 <= j < n ==> buf@[j] != 0,
        n < buf@.len() && n < PATH_MAX ==> buf@[n as int] == 0,
{
    proof {
        lemma_c_path_len(buf@);
    }
    let mut i: usize = 0;
    while i < buf.len() && i < PATH_MAX
        invariant
            i <= buf@.len(),
            i <= PATH_MAX,
            forall|j: int| 0 <= j < i ==> buf@[j] != 0,
        decreases buf@.len() - i,
    {
        if buf[i] == 0 {
            proof { lemma_path_len_at(buf@, i as int); }
            return i;
        }
        i = i + 1;
    }
    proof { lemma_path_len_at(buf@, i as int); }
    i
}

/// Where the scan stops is the path's length.
proof fn lemma_path_len_at(b: Seq<u8>, i: int)
    requires
        0 <= i <= b.len(),
        i <= PATH_MAX,
        forall|j: int| 0 <= j < i ==> b[j] != 0,
        i == b.len() || i == PATH_MAX || b[i] == 0,
    ensures
        c_path_len(b) == i,
{
    lemma_c_path_len(b);
    let n = c_path_len(b);
    if n < i {
        assert(b[n] != 0);
    } else if n > i {
        assert(b[i] != 0);
    }
}

/// The buffer the kernel-side stub hands the handler for `path`: its first
/// 127 bytes at most, then a NUL.
pub fn path_buffer(path: &[u8]) -> (b: Vec<u8>)
    ensures
        b@ == path@.subrange(0, if path@.len() < 127 { path@.len() as int } else { 127 }).push(0u8),
{
    let n: usize = if path.len() < 127 { path.len() } else { 127 };
    let mut b: Vec<u8> = Vec::new();
    let mut i: usize = 0;
    while i < n
        invariant
            i <= n,
            n <= path@.len(),
            b@ == path@.subrange(0, i as int),
        decreases n - i,
    {
        b.push(path[i]);
        i = i + 1;
    }
    b.push(0u8);
    b
}

/// A path without NUL bytes comes back whole from the buffer the stub builds,
/// as long as it is at most 127 bytes; a longer one comes back cut to 127.
pub proof fn law_path_round_trip(path: Seq<u8>)
    requires
        forall|j: int| 0 <= j < path.len() ==> path[j] != 0,
    ensures
        ({
            let n = if path.len() < 127 { path.len() as int } else { 127 };
            c_path_len(path.subrange(0, n).push(0u8)) == n
        }),
{
    let n = if path.len() < 127 { path.len() as int } else { 127 };
    let b = path.subrange(0, n).push(0u8);
    lemma_path_len_at(b, n);
}

} // verus!
