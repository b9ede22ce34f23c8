//! The kernel's page tables: one PML4 entry to one PDPT whose first 64
//! entries point to page directories that map the first 64 GiB one to one
//! in 2 MiB pages, uncached; each table takes a page from the allocator.
use vstd::prelude::*;
use crate::ram::{RamManager, run_free, mark_range};

verus! {

pub const PAGE_PRESENT: u64 = 1;
pub const PAGE_WRITABLE: u64 = 2;
pub const PAGE_USER: u64 = 4;
pub const PAGE_PWT: u64 = 8;
pub const PAGE_PCD: u64 = 0x10;
pub const PAGE_HUGE: u64 = 0x80;
/// The physical address bits of an entry.
pub const ADDR_MASK: u64 = 0x000F_FFFF_FFFF_F000;
/// The flags of a table entry that points to another table.
pub const TABLE_FLAGS: u64 = 0x07;
/// The flags of a 2 MiB page: present, writable, user, huge, write-through, cache-disabled.
pub const HUGE_FLAGS: u64 = 0x9F;
/// Page directories, one per GiB mapped.
pub const PD_COUNT: usize = 64;

/// A page table: 512 entries.
pub struct PageTable {
    pub entries: [u64; 512],
}

impl PageTable {
    /// A table with every entry 0.
    pub fn new() -> (t: Self)
        ensures
            forall|i: int| 0 <= i < 512 ==> t.entries@[i] == 0,
    {
        let mut t = PageTable { entries: [0u64; 512] };
        t.clear();
        t
    }

    /// Sets every entry to 0.
    pub fn clear(&mut self)
        ensures
            forall|i: int| 0 <= i < 512 ==> final(self).entries@[i] == 0,
    {
        let mut i: usize = 0;
        while i < 512
            invariant
                i <= 512,
                self.entries@.len() == 512,
                forall|k: int| 0 <= k < i ==> self.entries@[k] == 0,
            decreases 512 - i,
        {
            self.entries[i] = 0;
            i = i + 1;
        }
    }
}

/// The entry for the 2 MiB page `i` of GiB `j`.
pub open spec fn huge_entry(j: int, i: int) -> u64 {
    (((j * 0x4000_0000 + i * 0x20_0000) as u64) & ADDR_MASK) | HUGE_FLAGS
}

/// The entry pointing to the table at `phys`.
pub open spec fn table_entry(phys: u64) -> u64 {
    (phys & ADDR_MASK) | TABLE_FLAGS
}

/// The tables built, each with the physical page it goes to.
pub struct PagingSetup {
    pub pml4_phys: u64,
    pub pml4: PageTable,
    pub pdpt_phys: u64,
    pub pdpt: PageTable,
    pub pds: Vec<(u64, PageTable)>,
}

/// The free pages of a bitmap.
pub open spec fn free_count(v: Seq<bool>) -> nat
    decreases v.len(),
{
    if v.len() == 0 {
        0
    } else {
        free_count(v.drop_last()) + if v.last() { 0nat } else { 1nat }
    }
}

proof fn lemma_free_count_zero(v: Seq<bool>)
    ensures
        free_count(v) == 0 <==> forall|s: int| !run_free(v, s, 1),
    decreases v.len(),
{
    if v.len() > 0 {
        let t = v.drop_last();
        lemma_free_count_zero(t);
        if free_count(v) == 0 {
            assert forall|s: int| !run_free(v, s, 1) by {
                if run_free(v, s, 1) {
                    if s < t.len() {
                        assert(run_free(t, s, 1));
                    }
                }
            }
        } else {
            if !v.last() {
                assert(run_free(v, v.len() - 1, 1));
            } else {
                let s = choose|s: int| run_free(t, s, 1);
                assert(t[s] == v[s]);
                assert(run_free(v, s, 1));
            }
        }
    }
}

proof fn lemma_free_count_take(v: Seq<bool>, s: int)
    requires
        run_free(v, s, 1),
    ensures
        free_count(mark_range(v, s, 1)) + 1 == free_count(v),
    decreases v.len(),
{
    let w = mark_range(v, s, 1);
    if s == v.len() - 1 {
        assert(w.drop_last() =~= v.drop_last());
    } else {
        lemma_free_count_take(v.drop_last(), s);
        assert(w.drop_last() =~= mark_range(v.drop_last(), s, 1));
    }
}

/// Whether `s` is the lowest free page of `v`.
pub open spec fn is_lowest_free(v: Seq<bool>, s: int) -> bool {
    run_free(v, s, 1) && forall|t: int| 0 <= t < s ==> !run_free(v, t, 1)
}

/// The lowest free page of `v`, the one a one-page allocation takes.
pub open spec fn lowest_free(v: Seq<bool>) -> int {
    choose|s: int| is_lowest_free(v, s)
}

/// The pages in use after `n` one-page allocations from `v`.
pub open spec fn after_taking(v: Seq<bool>, n: nat) -> Seq<bool>
    decreases n,
{
    if n == 0 {
        v
    } else {
        let w = after_taking(v, (n - 1) as nat);
        mark_range(w, lowest_free(w), 1)
    }
}

/// The page the `k`-th (from 0) one-page allocation from `v` takes.
pub open spec fn taken_page(v: Seq<bool>, k: nat) -> int {
    lowest_free(after_taking(v, k))
}

proof fn lemma_lowest_free_unique(v: Seq<bool>, s: int)
    requires
        is_lowest_free(v, s),
    ensures
        lowest_free(v) == s,
{
    let c = lowest_free(v);
    assert(is_lowest_free(v, c));
    if c < s {
        assert(!run_free(v, c, 1));
    } else if s < c {
        assert(!run_free(v, s, 1));
    }
}

/// Takes one page from the allocator.
fn take_page(mgr: &mut RamManager) -> (r: Option<u64>)
    requires
        old(mgr).wf(),
    ensures
        final(mgr).wf(),
        r is Some <==> free_count(old(mgr)@) > 0,
        r is Some ==> free_count(final(mgr)@) + 1 == free_count(old(mgr)@),
        r matches Some(a) ==> a % 4096 == 0 && a / 4096 == lowest_free(old(mgr)@)
            && final(mgr)@ == mark_range(old(mgr)@, lowest_free(old(mgr)@), 1),
{
    proof {
        lemma_free_count_zero(mgr@);
    }
    let ghost v0 = mgr@;
    let r = mgr.allocate_sectors(1);
    proof {
        if let Some(a) = r {
            lemma_free_count_take(v0, (a / 4096) as int);
            lemma_lowest_free_unique(v0, (a / 4096) as int);
        }
    }
    r
}

proof fn lemma_huge_entry_addr(b: u64)
    requires
        b & 0xFFF == 0,
        b < 0x10_0000_0000_0000,
    ensures
        ((b & ADDR_MASK) | HUGE_FLAGS) & ADDR_MASK == b,
        ((b & ADDR_MASK) | HUGE_FLAGS) & (PAGE_PRESENT | PAGE_HUGE) == PAGE_PRESENT | PAGE_HUGE,
{
    assert(((b & 0x000F_FFFF_FFFF_F000u64) | 0x9Fu64) & 0x000F_FFFF_FFFF_F000u64 == b) by (bit_vector)
        requires
            b & 0xFFF == 0,
            b < 0x10_0000_0000_0000,
    ;
    assert(((b & 0x000F_FFFF_FFFF_F000u64) | 0x9Fu64) & 0x81u64 == 0x81u64) by (bit_vector);
    assert(1u64 | 0x80u64 == 0x81u64) by (bit_vector);
}

/// Builds the kernel's page tables, taking 66 pages from the allocator:
/// the PML4, the PDPT, then the 64 page directories in order. It fails,
/// leaving some pages taken, exactly when fewer than 66 pages are free.
pub fn init_os_paging(mgr: &mut RamManager) -> (r: Option<PagingSetup>)
    requires
        old(mgr).wf(),
    ensures
        final(mgr).wf(),
        r is Some <==> free_count(old(mgr)@) >= 66,
        r matches Some(s) ==> {
            &&& free_count(final(mgr)@) + 66 == free_count(old(mgr)@)
            &&& final(mgr)@ == after_taking(old(mgr)@, 66)
            &&& s.pml4_phys % 4096 == 0
            &&& s.pml4_phys / 4096 == taken_page(old(mgr)@, 0)
            &&& s.pdpt_phys % 4096 == 0
            &&& s.pdpt_phys / 4096 == taken_page(old(mgr)@, 1)
            &&& (forall|j: int| 0 <= j < PD_COUNT ==> (#[trigger] s.pds@[j]).0 / 4096 == taken_page(old(mgr)@, (j + 2) as nat))
            &&& s.pml4.entries@[0] == table_entry(s.pdpt_phys)
            &&& (forall|k: int| 1 <= k < 512 ==> s.pml4.entries@[k] == 0)
            &&& s.pds@.len() == PD_COUNT
            &&& (forall|j: int| 0 <= j < PD_COUNT ==> s.pdpt.entries@[j] == table_entry(#[trigger] s.pds@[j].0))
            &&& (forall|j: int| PD_COUNT <= j < 512 ==> s.pdpt.entries@[j] == 0)
            &&& (forall|j: int| 0 <= j < PD_COUNT ==> (#[trigger] s.pds@[j]).0 % 4096 == 0)
            &&& (forall|j: int, i: int| 0 <= j < PD_COUNT && 0 <= i < 512 ==>
                #[trigger] s.pds@[j].1.entries@[i] == huge_entry(j, i))
        },
{
    let ghost v0 = mgr@;
    let pml4_phys = match take_page(mgr) {
        Some(a) => a,
        None => {
            return None;
        },
    };
    assert(after_taking(v0, 0) == v0);
    assert(mgr@ == after_taking(v0, 1));
    let pdpt_phys = match take_page(mgr) {
        Some(a) => a,
        None => {
            return None;
        },
    };
    assert(mgr@ == after_taking(v0, 2));
    let mut pml4 = PageTable::new();
    let mut pdpt = PageTable::new();
    pml4.entries[0] = (pdpt_phys & ADDR_MASK) | TABLE_FLAGS;
    let mut pds: Vec<(u64, PageTable)> = Vec::new();
    let mut j: usize = 0;
    while j < PD_COUNT
        invariant
            j <= PD_COUNT,
            v0 == old(mgr)@,
            mgr.wf(),
            free_count(mgr@) + 2 + j == free_count(v0),
            mgr@ == after_taking(v0, (j + 2) as nat),
            pml4_phys / 4096 == taken_page(v0, 0),
            pdpt_phys / 4096 == taken_page(v0, 1),
            pml4_phys % 4096 == 0,
            pdpt_phys % 4096 == 0,
            pml4.entries@[0] == table_entry(pdpt_phys),
            forall|k: int| 1 <= k < 512 ==> pml4.entries@[k] == 0,
            forall|k: int| 0 <= k < j ==> (#[trigger] pds@[k]).0 / 4096 == taken_page(v0, (k + 2) as nat),
            pds@.len() == j,
            pdpt.entries@.len() == 512,
            forall|k: int| 0 <= k < j ==> pdpt.entries@[k] == table_entry(#[trigger] pds@[k].0),
            forall|k: int| j <= k < 512 ==> pdpt.entries@[k] == 0,
            forall|k: int| 0 <= k < j ==> (#[trigger] pds@[k]).0 % 4096 == 0,
            forall|k: int, i: int| 0 <= k < j && 0 <= i < 512 ==> #[trigger] pds@[k].1.entries@[i] == huge_entry(k, i),
        decreases PD_COUNT - j,
    {
        let pd_phys = match take_page(mgr) {
            Some(a) => a,
            None => {
                return None;
            },
        };
        let mut pd = PageTable::new();
        pdpt.entries[j] = (pd_phys & ADDR_MASK) | TABLE_FLAGS;
        let mut i: usize = 0;
        while i < 512
            invariant
                i <= 512,
                j < PD_COUNT,
                pd.entries@.len() == 512,
                forall|k: int| 0 <= k < i ==> pd.entries@[k] == huge_entry(j as int, k),
            decreases 512 - i,
        {
            let addr: u64 = (j as u64) * 0x4000_0000 + (i as u64) * 0x20_0000;
            pd.entries[i] = (addr & ADDR_MASK) | HUGE_FLAGS;
            i = i + 1;
        }
        pds.push((pd_phys, pd));
        j = j + 1;
    }
    Some(PagingSetup { pml4_phys, pml4, pdpt_phys, pdpt, pds })
}

/// Every address of the first 64 GiB is mapped to itself: the entry for
/// its 2 MiB page (directory `addr / 1 GiB`, entry `addr % 1 GiB / 2 MiB`)
/// is a present huge page whose address is the start of that 2 MiB page.
pub proof fn law_identity_map(addr: u64)
    requires
        addr < 64 * 0x4000_0000,
    ensures
        ({
            let j = addr / 0x4000_0000;
            let i = (addr % 0x4000_0000) / 0x20_0000;
            &&& 0 <= j < PD_COUNT
            &&& 0 <= i < 512
            &&& huge_entry(j as int, i as int) & ADDR_MASK == addr - addr % 0x20_0000
            &&& huge_entry(j as int, i as int) & (PAGE_PRESENT | PAGE_HUGE) == PAGE_PRESENT | PAGE_HUGE
        }),
{
    let j = addr / 0x4000_0000;
    let i = (addr % 0x4000_0000) / 0x20_0000;
    let b = (j * 0x4000_0000 + i * 0x20_0000) as u64;
    assert(b == addr - addr % 0x20_0000);
    assert(b & 0xFFF == 0) by (bit_vector)
        requires
            b == addr - addr % 0x20_0000,
    ;
    lemma_huge_entry_addr(b);
}

proof fn lemma_exists_lowest(v: Seq<bool>, s: int)
    requires
        run_free(v, s, 1),
    ensures
        is_lowest_free(v, lowest_free(v)),
    decreases s,
{
    if forall|t: int| 0 <= t < s ==> !run_free(v, t, 1) {
        assert(is_lowest_free(v, s));
    } else {
        let t = choose|t: int| 0 <= t < s && run_free(v, t, 1);
        lemma_exists_lowest(v, t);
    }
}

/// After `k` takes from a bitmap with at least `k + 1` free pages, the next
/// take finds the lowest free page, and `k` fewer pages are free.
proof fn lemma_taking(v: Seq<bool>, k: nat)
    requires
        free_count(v) > k,
    ensures
        after_taking(v, k).len() == v.len(),
        free_count(after_taking(v, k)) + k == free_count(v),
        is_lowest_free(after_taking(v, k), taken_page(v, k)),
    decreases k,
{
    if k > 0 {
        lemma_taking(v, (k - 1) as nat);
        let w = after_taking(v, (k - 1) as nat);
        lemma_free_count_take(w, lowest_free(w));
    }
    let w = after_taking(v, k);
    lemma_free_count_zero(w);
    let s = choose|s: int| run_free(w, s, 1);
    lemma_exists_lowest(w, s);
}

/// A page in use stays in use through further takes.
proof fn lemma_used_stays_used(v: Seq<bool>, k: nat, n: nat, p: int)
    requires
        k <= n,
        0 <= p < after_taking(v, k).len(),
        after_taking(v, k)[p],
    ensures
        after_taking(v, n).len() == after_taking(v, k).len(),
        after_taking(v, n)[p],
    decreases n - k,
{
    if k < n {
        lemma_used_stays_used(v, k, (n - 1) as nat, p);
    }
}

/// The tables' pages are fresh pages: with at least `n` pages free, the
/// `k`-th page taken (from 0, `k < n`) was free before the takes, is in use
/// after all `n`, and lies above every page taken before it, so no two
/// tables share a page.
pub proof fn law_taken_pages_are_fresh(v: Seq<bool>, n: nat, k: nat)
    requires
        free_count(v) >= n,
        k < n,
    ensures
        0 <= taken_page(v, k) < v.len(),
        !v[taken_page(v, k)],
        after_taking(v, n)[taken_page(v, k)],
        forall|m: nat| m < k ==> taken_page(v, m) < taken_page(v, k),
{
    lemma_taking(v, k);
    let p = taken_page(v, k);
    if v[p] {
        lemma_used_stays_used(v, 0, k, p);
    }
    lemma_taking(v, 0);
    assert(after_taking(v, k + 1) == mark_range(after_taking(v, k), p, 1));
    lemma_used_stays_used(v, k + 1, n, p);
    assert forall|m: nat| m < k implies taken_page(v, m) < taken_page(v, k) by {
        lemma_taking(v, m);
        let q = taken_page(v, m);
        assert(after_taking(v, m + 1) == mark_range(after_taking(v, m), q, 1));
        lemma_used_stays_used(v, m + 1, k, q);
        if p < q {
            assert(!run_free(after_taking(v, m), p, 1));
            lemma_used_stays_used(v, m, k, p);
        }
    }
}

} // verus!
