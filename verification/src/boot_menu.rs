//! What the kernel decides at start: how much conventional memory the
//! firmware's memory map reports and which of its pages to hand to the page
//! allocator, which boot mode a key picks, which AHCI ports to try, and
//! where the AHCI command structures go.
use vstd::prelude::*;
use crate::bytes::{le32, le64, read_le32, read_le64};
use crate::ram::RamManager;

verus! {

/// The memory map type of conventional (free) memory.
pub const CONVENTIONAL_MEMORY: u32 = 7;
/// Pages below this address stay reserved for the kernel.
pub const FREE_FLOOR: u64 = 0x4000000;

/// Where the boot loader left the firmware's memory map: its address, its
/// length in bytes and the distance between descriptors.
#[derive(Clone, Copy)]
pub struct MemoryMapConfig {
    pub ptr: u64,
    pub len: u64,
    pub desc_size: u64,
}

/// The type, start address and page count of descriptor `i` of a map whose
/// descriptors are `ds` bytes apart.
pub open spec fn desc_type(map: Seq<u8>, ds: int, i: int) -> nat {
    le32(map, i * ds)
}

pub open spec fn desc_start(map: Seq<u8>, ds: int, i: int) -> nat {
    le64(map, i * ds + 8)
}

pub open spec fn desc_pages(map: Seq<u8>, ds: int, i: int) -> nat {
    le64(map, i * ds + 24)
}

/// The bytes of conventional memory in the first `n` descriptors.
pub open spec fn conventional_bytes(map: Seq<u8>, ds: int, n: int) -> int
    decreases n,
{
    if n <= 0 {
        0
    } else {
        conventional_bytes(map, ds, n - 1) + if desc_type(map, ds, n - 1) == CONVENTIONAL_MEMORY {
            desc_pages(map, ds, n - 1) * 4096
        } else {
            0
        }
    }
}

/// Whether a map of `len` bytes with descriptors `ds` bytes apart can be read
/// from `map`: every descriptor's fields lie in it.
pub open spec fn map_readable(map: Seq<u8>, len: u64, ds: u64) -> bool {
    ds >= 32 && len <= map.len()
}

proof fn lemma_desc_in_map(map: Seq<u8>, len: u64, ds: u64, i: int)
    requires
        map_readable(map, len, ds),
        0 <= i < len / ds,
    ensures
        i * ds + 32 <= map.len(),
        0 <= i * ds,
{
    assert(i * ds + ds <= (len / ds) * ds) by (nonlinear_arith)
        requires
            0 <= i < len / ds,
            ds > 0,
    ;
    assert((len / ds) * ds <= len) by (nonlinear_arith)
        requires
            ds > 0,
    ;
    assert(0 <= i * ds) by (nonlinear_arith)
        requires
            0 <= i,
            ds > 0,
    ;
}

proof fn lemma_conventional_monotone(map: Seq<u8>, ds: int, a: int, b: int)
    requires
        0 <= a <= b,
    ensures
        conventional_bytes(map, ds, a) <= conventional_bytes(map, ds, b),
    decreases b - a,
{
    if a < b {
        lemma_conventional_monotone(map, ds, a, b - 1);
    }
}

/// The bytes of conventional memory the map (`len` bytes at the start of
/// `map`, descriptors `ds` bytes apart) reports: each conventional
/// descriptor's page count times 4096.
pub fn conventional_ram(map: &[u8], len: u64, ds: u64) -> (total: u64)
    requires
        map_readable(map@, len, ds),
        conventional_bytes(map@, ds as int, (len / ds) as int) <= u64::MAX,
    ensures
        total == conventional_bytes(map@, ds as int, (len / ds) as int),
{
    let count = len / ds;
    let mlen = map.len();
    let mut total: u64 = 0;
    let mut i: u64 = 0;
    while i < count
        invariant
            i <= count,
            mlen == map@.len(),
            count == len / ds,
            map_readable(map@, len, ds),
            conventional_bytes(map@, ds as int, count as int) <= u64::MAX,
            total == conventional_bytes(map@, ds as int, i as int),
        decreases count - i,
    {
        proof {
            lemma_desc_in_map(map@, len, ds, i as int);
            lemma_conventional_monotone(map@, ds as int, i as int + 1, count as int);
        }
        let off = (i * ds) as usize;
        let t = read_le32(map, off);
        if t == CONVENTIONAL_MEMORY {
            let pages = read_le64(map, off + 24);
            total = total + pages * 4096;
        }
        i = i + 1;
    }
    total
}

/// Whether descriptor `i` frees page `p`: it is conventional, `p` is the
/// page of one of its page addresses `start + j * 4096`, and that address is
/// at or above `FREE_FLOOR`.
pub open spec fn desc_frees(map: Seq<u8>, ds: int, i: int, p: int) -> bool {
    &&& desc_type(map, ds, i) == CONVENTIONAL_MEMORY
    &&& exists|j: int| 0 <= j < desc_pages(map, ds, i)
        && #[trigger] page_addr(desc_start(map, ds, i) as int, j) / 4096 == p
        && page_addr(desc_start(map, ds, i) as int, j) >= FREE_FLOOR
}

pub open spec fn page_addr(start: int, j: int) -> int {
    start + j * 4096
}

/// Whether no conventional descriptor's pages run past 64 bits.
pub open spec fn starts_fit(map: Seq<u8>, len: u64, ds: u64) -> bool {
    forall|i: int| 0 <= i < len / ds && desc_type(map, ds as int, i) == CONVENTIONAL_MEMORY
        ==> desc_start(map, ds as int, i) + desc_pages(map, ds as int, i) * 4096 <= u64::MAX
}

/// Hands the allocator every page of conventional memory at or above
/// `FREE_FLOOR`: those pages, as far as the bitmap reaches, read back free;
/// every other page keeps its state.
pub fn free_conventional(mgr: &mut RamManager, map: &[u8], len: u64, ds: u64)
    requires
        old(mgr).wf(),
        map_readable(map@, len, ds),
        starts_fit(map@, len, ds),
    ensures
        final(mgr).wf(),
        final(mgr)@.len() == old(mgr)@.len(),
        forall|p: int| 0 <= p < old(mgr)@.len() ==> #[trigger] final(mgr)@[p] == (old(mgr)@[p]
            && !(exists|i: int| 0 <= i < len / ds && desc_frees(map@, ds as int, i, p))),
{
    let count = len / ds;
    let mlen = map.len();
    let ghost v0 = mgr@;
    let mut i: u64 = 0;
    while i < count
        invariant
            i <= count,
            mlen == map@.len(),
            count == len / ds,
            map_readable(map@, len, ds),
            starts_fit(map@, len, ds),
            mgr.wf(),
            mgr@.len() == v0.len(),
            forall|p: int| 0 <= p < v0.len() ==> #[trigger] mgr@[p] == (v0[p]
                && !(exists|k: int| 0 <= k < i && desc_frees(map@, ds as int, k, p))),
        decreases count - i,
    {
        proof {
            lemma_desc_in_map(map@, len, ds, i as int);
        }
        let off = (i * ds) as usize;
        let t = read_le32(map, off);
        let ghost before = mgr@;
        if t == CONVENTIONAL_MEMORY {
            let start = read_le64(map, off + 8);
            let n = read_le64(map, off + 24);
            assert(desc_type(map@, ds as int, i as int) == CONVENTIONAL_MEMORY);
            assert(start + n * 4096 <= u64::MAX);
            let mut j: u64 = 0;
            while j < n
                invariant
                    j <= n,
                    mgr.wf(),
                    mgr@.len() == before.len(),
                    start == desc_start(map@, ds as int, i as int),
                    n == desc_pages(map@, ds as int, i as int),
                    start + n * 4096 <= u64::MAX,
                    forall|p: int| 0 <= p < before.len() ==> #[trigger] mgr@[p] == (before[p]
                        && !(exists|jj: int| 0 <= jj < j && page_addr(start as int, jj) / 4096 == p
                            && page_addr(start as int, jj) >= FREE_FLOOR)),
                decreases n - j,
            {
                proof {
                    assert(j * 4096 < n * 4096) by (nonlinear_arith)
                        requires
                            j < n,
                    ;
                }
                let addr = start + j * 4096;
                let ghost mid = mgr@;
                if addr >= FREE_FLOOR {
                    let page = addr / 4096;
                    if page < mgr.total_sectors() as u64 {
                        mgr.mark_free(page as usize);
                    }
                }
                proof {
                    assert forall|p: int| 0 <= p < before.len() implies #[trigger] mgr@[p] == (before[p]
                        && !(exists|jj: int| 0 <= jj < j + 1 && page_addr(start as int, jj) / 4096 == p
                            && page_addr(start as int, jj) >= FREE_FLOOR)) by {
                        assert(page_addr(start as int, j as int) == addr);
                        if exists|jj: int| 0 <= jj < j + 1 && page_addr(start as int, jj) / 4096 == p
                            && page_addr(start as int, jj) >= FREE_FLOOR {
                            let jj = choose|jj: int| 0 <= jj < j + 1 && page_addr(start as int, jj) / 4096 == p
                                && page_addr(start as int, jj) >= FREE_FLOOR;
                            if jj < j {
                                assert(!mid[p]);
                            }
                        }
                    }
                }
                j = j + 1;
            }
        }
        proof {
            assert forall|p: int| 0 <= p < v0.len() implies #[trigger] mgr@[p] == (v0[p]
                && !(exists|k: int| 0 <= k < i + 1 && desc_frees(map@, ds as int, k, p))) by {
                if exists|k: int| 0 <= k < i + 1 && desc_frees(map@, ds as int, k, p) {
                    let k = choose|k: int| 0 <= k < i + 1 && desc_frees(map@, ds as int, k, p);
                    if k == i {
                        let jj = choose|jj: int| 0 <= jj < desc_pages(map@, ds as int, i as int)
                            && #[trigger] page_addr(desc_start(map@, ds as int, i as int) as int, jj) / 4096 == p
                            && page_addr(desc_start(map@, ds as int, i as int) as int, jj) >= FREE_FLOOR;
                        assert(!mgr@[p]);
                    } else {
                        assert(!before[p]);
                    }
                } else {
                    if t == CONVENTIONAL_MEMORY {
                        assert(!desc_frees(map@, ds as int, i as int, p));
                    }
                }
            }
        }
        i = i + 1;
    }
}

/// The boot mode a scancode picks: none for a release or 0, the standard
/// boot (1) for F1, the debug shell (2) for any other key press.
pub fn boot_mode_for(sc: u8) -> (mode: u8)
    ensures
        mode == if sc == 0 || sc & 0x80 != 0 { 0u8 } else if sc == 0x3B { 1u8 } else { 2u8 },
{
    if sc != 0 && (sc & 0x80) == 0 {
        if sc == 0x3B { 1 } else { 2 }
    } else {
        0
    }
}

/// Whether bit `i` of the implemented-ports word is set.
pub open spec fn port_implemented(pi: u32, i: int) -> bool {
    0 <= i < 32 && pi & (1u32 << (i as u32)) != 0
}

/// The AHCI ports to try, in the order the kernel tries them: every
/// implemented port, lowest first.
pub fn implemented_ports(pi: u32) -> (ports: Vec<usize>)
    ensures
        forall|k: int| 0 <= k < ports@.len() ==> port_implemented(pi, #[trigger] ports@[k] as int),
        forall|a: int, b: int| 0 <= a < b < ports@.len() ==> ports@[a] < ports@[b],
        forall|i: int| #![trigger port_implemented(pi, i)] port_implemented(pi, i) ==> ports@.contains(i as usize),
{
    let mut ports: Vec<usize> = Vec::new();
    let mut i: u32 = 0;
    while i < 32
        invariant
            i <= 32,
            forall|k: int| 0 <= k < ports@.len() ==> port_implemented(pi, #[trigger] ports@[k] as int) && ports@[k] < i,
            forall|a: int, b: int| 0 <= a < b < ports@.len() ==> ports@[a] < ports@[b],
            forall|q: int| #![trigger port_implemented(pi, q)] port_implemented(pi, q) && q < i ==> ports@.contains(q as usize),
        decreases 32 - i,
    {
        let ghost old_ports = ports@;
        if pi & (1u32 << i) != 0 {
            ports.push(i as usize);
            proof {
                assert(ports@[ports@.len() - 1] == i as usize);
            }
        }
        proof {
            assert forall|q: int| #![trigger port_implemented(pi, q)] port_implemented(pi, q) && q < i + 1 implies ports@.contains(q as usize) by {
                if q == i {
                    assert(ports@[ports@.len() - 1] == i as usize);
                } else {
                    let idx = choose|idx: int| 0 <= idx < old_ports.len() && old_ports[idx] == q as usize;
                    assert(ports@[idx] == q as usize);
                }
            }
        }
        i = i + 1;
    }
    ports
}

/// Where the AHCI command list, received-FIS area and command table go in
/// the kernel's AHCI pages, and where sectors are read to.
#[derive(Clone, Copy, PartialEq, Eq, Structural, Debug)]
pub struct AhciLayout {
    pub cl_base: u64,
    pub fb_base: u64,
    pub ct_base: u64,
    pub data_ptr: u64,
}

/// The sector buffer the kernel reads into.
pub const AHCI_DATA_PTR: u64 = 0x10000000;

/// The layout in the AHCI pages at `common`: the command list first, the
/// received-FIS area 1024 bytes on, the command table 2048 bytes on.
pub fn ahci_layout(common: u64) -> (l: AhciLayout)
    requires
        common + 2048 <= u64::MAX,
    ensures
        l == (AhciLayout { cl_base: common, fb_base: (common + 1024) as u64, ct_base: (common + 2048) as u64, data_ptr: AHCI_DATA_PTR }),
{
    AhciLayout { cl_base: common, fb_base: common + 1024, ct_base: common + 2048, data_ptr: AHCI_DATA_PTR }
}

} // verus!
