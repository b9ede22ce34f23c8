//! The physical page bitmap: one bit per 4 KiB page, set when the page is in use.
use vstd::prelude::*;

verus! {

pub const PAGE_SIZE: u64 = 4096;

/// Bit `k` of `b`.
pub open spec fn byte_bit(b: u8, k: u8) -> bool {
    (b >> k) & 1u8 == 1u8
}

proof fn lemma_set_bit(b: u8, m: u8, k: u8)
    requires
        m < 8,
        k < 8,
    ensures
        byte_bit(b | (1u8 << m), k) == (k == m || byte_bit(b, k)),
{
    assert(((b | (1u8 << m)) >> k) & 1u8 == 1u8 <==> (k == m || (b >> k) & 1u8 == 1u8)) by (bit_vector)
        requires
            m < 8,
            k < 8,
    ;
}

proof fn lemma_clear_bit(b: u8, m: u8, k: u8)
    requires
        m < 8,
        k < 8,
    ensures
        byte_bit(b & !(1u8 << m), k) == (k != m && byte_bit(b, k)),
{
    assert(((b & !(1u8 << m)) >> k) & 1u8 == 1u8 <==> (k != m && (b >> k) & 1u8 == 1u8)) by (bit_vector)
        requires
            m < 8,
            k < 8,
    ;
}

proof fn lemma_full_byte(k: u8)
    requires
        k < 8,
    ensures
        byte_bit(0xFFu8, k),
{
    assert((0xFFu8 >> k) & 1u8 == 1u8) by (bit_vector)
        requires
            k < 8,
    ;
}

/// Whether sectors `[s, s + n)` all lie below `total` and are free in `v`.
pub open spec fn run_free(v: Seq<bool>, s: int, n: int) -> bool {
    0 <= s && s + n <= v.len() && forall|k: int| s <= k < s + n ==> !v[k]
}

/// Whether sector `i` starts an aligned fit of `n` sectors: `i` free, its
/// address a multiple of `align`, and `[i, i + n)` free (sectors past the
/// end count as used).
pub open spec fn aligned_fit(v: Seq<bool>, i: int, n: int, align: int) -> bool {
    &&& 0 <= i < v.len()
    &&& !v[i]
    &&& (i * 4096) % align == 0
    &&& forall|k: int| i <= k < i + n ==> !#[trigger] blocked(v, k)
}

/// Whether sector `k` cannot take part in an allocation: past the end or in use.
pub open spec fn blocked(v: Seq<bool>, k: int) -> bool {
    k >= v.len() || v[k]
}

/// `v` with `[s, s + n)` marked used.
pub open spec fn mark_range(v: Seq<bool>, s: int, n: int) -> Seq<bool> {
    Seq::new(v.len(), |k: int| if s <= k < s + n { true } else { v[k] })
}

/// The sector bitmap allocator.
pub struct RamManager {
    bitmap: Vec<u8>,
    total_sectors: usize,
}

impl RamManager {
    /// Which sectors are in use.
    pub closed spec fn view(&self) -> Seq<bool> {
        Seq::new(self.total_sectors as nat, |i: int| byte_bit(self.bitmap@[i / 8], (i % 8) as u8))
    }

    pub closed spec fn wf(&self) -> bool {
        &&& self.bitmap@.len() == (self.total_sectors + 7) / 8
        &&& self.total_sectors * 4096 <= u64::MAX
    }

    pub open spec fn spec_total_sectors(&self) -> nat {
        self@.len()
    }

    /// A manager for `total_ram` bytes, with every page marked used.
    pub fn new(total_ram: u64) -> (m: Self)
        requires
            total_ram / 4096 <= usize::MAX,
        ensures
            m.wf(),
            m@.len() == total_ram / 4096,
            forall|i: int| 0 <= i < m@.len() ==> m@[i],
    {
        let total_sectors = (total_ram / PAGE_SIZE) as usize;
        let byte_size = total_sectors / 8 + if total_sectors % 8 == 0 { 0 } else { 1 };
        assert(byte_size == (total_sectors + 7) / 8);
        let mut bitmap: Vec<u8> = Vec::new();
        let mut i: usize = 0;
        while i < byte_size
            invariant
                i <= byte_size,
                bitmap@.len() == i,
                forall|k: int| 0 <= k < i ==> bitmap@[k] == 0xFF,
            decreases byte_size - i,
        {
            bitmap.push(0xFF);
            i = i + 1;
        }
        let m = RamManager { bitmap, total_sectors };
        assert forall|i: int| 0 <= i < m@.len() implies m@[i] by {
            lemma_full_byte((i % 8) as u8);
        }
        m
    }

    /// The number of pages the manager covers.
    pub fn total_sectors(&self) -> (n: usize)
        ensures
            n == self@.len(),
    {
        self.total_sectors
    }

    /// Marks page `sector_idx` used; pages past the end are ignored.
    pub fn mark_used(&mut self, sector_idx: usize)
        requires
            old(self).wf(),
        ensures
            final(self).wf(),
            final(self)@ == if sector_idx < old(self)@.len() { old(self)@.update(sector_idx as int, true) } else { old(self)@ },
    {
        if sector_idx >= self.total_sectors {
            return;
        }
        let byte_idx = sector_idx / 8;
        let bit_idx = (sector_idx % 8) as u8;
        let val = self.bitmap[byte_idx];
        let ghost old_view = self@;
        self.bitmap.set(byte_idx, val | (1u8 << bit_idx));
        assert forall|i: int| 0 <= i < self@.len() implies self@[i] == old_view.update(sector_idx as int, true)[i] by {
            if i / 8 == byte_idx {
                lemma_set_bit(val, bit_idx, (i % 8) as u8);
            }
        }
        assert(self@ =~= old_view.update(sector_idx as int, true));
    }

    /// Marks page `sector_idx` free; pages past the end are ignored.
    pub fn mark_free(&mut self, sector_idx: usize)
        requires
            old(self).wf(),
        ensures
            final(self).wf(),
            final(self)@ == if sector_idx < old(self)@.len() { old(self)@.update(sector_idx as int, false) } else { old(self)@ },
    {
        if sector_idx >= self.total_sectors {
            return;
        }
        let byte_idx = sector_idx / 8;
        let bit_idx = (sector_idx % 8) as u8;
        let val = self.bitmap[byte_idx];
        let ghost old_view = self@;
        self.bitmap.set(byte_idx, val & !(1u8 << bit_idx));
        assert forall|i: int| 0 <= i < self@.len() implies self@[i] == old_view.update(sector_idx as int, false)[i] by {
            if i / 8 == byte_idx {
                lemma_clear_bit(val, bit_idx, (i % 8) as u8);
            }
        }
        assert(self@ =~= old_view.update(sector_idx as int, false));
    }

    /// Whether page `sector_idx` is in use; pages past the end count as used.
    pub fn is_used(&self, sector_idx: usize) -> (r: bool)
        requires
            self.wf(),
        ensures
            r == (sector_idx >= self@.len() || self@[sector_idx as int]),
    {
        if sector_idx >= self.total_sectors {
            return true;
        }
        let byte_idx = sector_idx / 8;
        let bit_idx = (sector_idx % 8) as u8;
        (self.bitmap[byte_idx] >> bit_idx) & 1u8 == 1u8
    }

    fn mark_run(&mut self, start: usize, n: usize)
        requires
            old(self).wf(),
            start + n <= old(self)@.len(),
        ensures
            final(self).wf(),
            final(self)@ == mark_range(old(self)@, start as int, n as int),
    {
        let ghost v0 = self@;
        let mut j: usize = 0;
        while j < n
            invariant
                j <= n,
                start + n <= v0.len(),
                v0.len() == self.total_sectors,
                self.wf(),
                self@ == mark_range(v0, start as int, j as int),
            decreases n - j,
        {
            self.mark_used(start + j);
            j = j + 1;
            assert(self@ =~= mark_range(v0, start as int, j as int));
        }
    }

    /// Allocates the first run of `n` free pages, marking them used; its
    /// address, or `None` when there is no such run (always for `n == 0`).
    pub fn allocate_sectors(&mut self, n: usize) -> (r: Option<u64>)
        requires
            old(self).wf(),
        ensures
            final(self).wf(),
            r is None <==> n == 0 || forall|s: int| !run_free(old(self)@, s, n as int),
            r is None ==> final(self)@ == old(self)@,
            r matches Some(addr) ==> {
                let s = addr / 4096;
                &&& addr % 4096 == 0
                &&& run_free(old(self)@, s as int, n as int)
                &&& forall|t: int| 0 <= t < s ==> !run_free(old(self)@, t, n as int)
                &&& final(self)@ == mark_range(old(self)@, s as int, n as int)
            },
    {
        let ghost v = self@;
        let mut consecutive: usize = 0;
        let mut start_idx: usize = 0;
        let mut i: usize = 0;
        while i < self.total_sectors
            invariant
                self.wf(),
                self@ == v,
                i <= v.len(),
                consecutive <= i,
                n > 0 ==> consecutive < n,
                start_idx == i - consecutive,
                forall|k: int| i - consecutive <= k < i ==> !v[k],
                consecutive < i ==> v[i - consecutive - 1],
                n > 0 ==> forall|t: int| 0 <= t && t + n <= i ==> !run_free(v, t, n as int),
                v.len() == self.total_sectors,
                v == old(self)@,
            decreases v.len() - i,
        {
            let ghost c0 = consecutive;
            if !self.is_used(i) {
                if consecutive == 0 {
                    start_idx = i;
                }
                consecutive = consecutive + 1;
                if consecutive == n {
                    assert(run_free(v, start_idx as int, n as int));
                    let addr = (start_idx as u64) * PAGE_SIZE;
                    self.mark_run(start_idx, n);
                    assert(addr / 4096 == start_idx);
                    return Some(addr);
                }
                if n > 0 {
                    assert forall|t: int| 0 <= t && t + n <= i + 1 implies !run_free(v, t, n as int) by {
                        if t + n == i + 1 {
                            assert(c0 < i);
                            assert(v[i - c0 - 1]);
                        }
                    }
                }
            } else {
                consecutive = 0;
                start_idx = i + 1;
                if n > 0 {
                    assert forall|t: int| 0 <= t && t + n <= i + 1 implies !run_free(v, t, n as int) by {
                        if t + n == i + 1 {
                            assert(v[i as int]);
                        }
                    }
                }
            }
            i = i + 1;
        }
        assert(n == 0 || forall|t: int| !run_free(v, t, n as int));
        None
    }

    /// Allocates `n` pages at the first free page whose address is a
    /// multiple of `alignment` and that starts a free run of `n` pages.
    pub fn allocate_aligned(&mut self, n: usize, alignment: u64) -> (r: Option<u64>)
        requires
            old(self).wf(),
            alignment > 0,
        ensures
            final(self).wf(),
            r is None <==> forall|i: int| !aligned_fit(old(self)@, i, n as int, alignment as int),
            r is None ==> final(self)@ == old(self)@,
            r matches Some(addr) ==> {
                let s = addr / 4096;
                &&& addr % 4096 == 0
                &&& aligned_fit(old(self)@, s as int, n as int, alignment as int)
                &&& forall|t: int| 0 <= t < s ==> !aligned_fit(old(self)@, t, n as int, alignment as int)
                &&& final(self)@ == mark_range(old(self)@, s as int, n as int)
            },
    {
        let ghost v = self@;
        let mut i: usize = 0;
        while i < self.total_sectors
            invariant
                self.wf(),
                self@ == v,
                i <= v.len(),
                alignment > 0,
                v.len() == self.total_sectors,
                v == old(self)@,
                forall|t: int| 0 <= t < i ==> !aligned_fit(v, t, n as int, alignment as int),
            decreases v.len() - i,
        {
            let addr = (i as u64) * PAGE_SIZE;
            if !self.is_used(i) && addr % alignment == 0 {
                let mut fit = true;
                let mut j: usize = 0;
                while j < n && fit
                    invariant
                        self.wf(),
                        self@ == v,
                        i < v.len(),
                        v.len() == self.total_sectors,
                        i + j <= v.len(),
                        j <= n,
                        fit ==> forall|k: int| i <= k < i + j ==> !#[trigger] blocked(v, k),
                        !fit ==> exists|k: int| i <= k < i + n && #[trigger] blocked(v, k),
                    decreases n - j + if fit { 1int } else { 0int },
                {
                    if i + j >= self.total_sectors || self.is_used(i + j) {
                        fit = false;
                        assert(blocked(v, i + j));
                    } else {
                        j = j + 1;
                    }
                }
                if !fit {
                    assert forall|t: int| t == i implies !aligned_fit(v, t, n as int, alignment as int) by {
                        let k = choose|k: int| i <= k < i + n && #[trigger] blocked(v, k);
                        assert(blocked(v, k));
                    }
                }
                if fit {
                    if n > 0 {
                        assert(!blocked(v, i + n - 1));
                    }
                    assert(addr == i * 4096);
                    assert(aligned_fit(v, i as int, n as int, alignment as int));
                    self.mark_run(i, n);
                    assert(addr / 4096 == i);
                    return Some(addr);
                }
            }
            i = i + 1;
        }
        None
    }

    /// Marks `pages` pages starting at the page of `addr` free, as unmapping does.
    pub fn free_range(&mut self, addr: u64, pages: u64)
        requires
            old(self).wf(),
            addr / 4096 + pages <= usize::MAX,
        ensures
            final(self).wf(),
            final(self)@ == free_run(old(self)@, (addr / 4096) as int, pages as int),
    {
        let start = (addr / 4096) as usize;
        let ghost v0 = self@;
        let mut i: u64 = 0;
        while i < pages
            invariant
                i <= pages,
                start == addr / 4096,
                start + pages <= usize::MAX,
                self.wf(),
                self@ == Seq::new(v0.len(), |k: int| if start <= k < start + i { false } else { v0[k] }),
            decreases pages - i,
        {
            self.mark_free(start + i as usize);
            i = i + 1;
            assert(self@ =~= Seq::new(v0.len(), |k: int| if start <= k < start + i { false } else { v0[k] }));
        }
        assert(self@ =~= Seq::new(v0.len(), |k: int| if addr / 4096 <= k < addr / 4096 + pages { false } else { v0[k] }));
    }
}

/// Allocates `n` pages first-fit; the address, or `u64::MAX` when none fits.
pub fn allocate_sectors_direct(mgr: &mut RamManager, n: usize) -> (addr: u64)
    requires
        old(mgr).wf(),
    ensures
        final(mgr).wf(),
        addr == u64::MAX <==> (n == 0 || forall|s: int| !run_free(old(mgr)@, s, n as int)),
        addr != u64::MAX ==> addr % 4096 == 0
            && run_free(old(mgr)@, (addr / 4096) as int, n as int)
            && (forall|t: int| 0 <= t < addr / 4096 ==> !run_free(old(mgr)@, t, n as int))
            && final(mgr)@ == mark_range(old(mgr)@, (addr / 4096) as int, n as int),
        addr == u64::MAX ==> final(mgr)@ == old(mgr)@,
{
    match mgr.allocate_sectors(n) {
        Some(addr) => {
            assert(addr != u64::MAX) by {
                assert(addr % 4096 == 0);
            }
            addr
        },
        None => 0xFFFF_FFFF_FFFF_FFFF,
    }
}

/// Pages freed and then allocated again: once page `i` is marked free, a
/// one-page allocation succeeds, and marking a page used makes it read back used.
pub proof fn law_free_page_is_allocatable(v: Seq<bool>, i: int)
    requires
        0 <= i < v.len(),
    ensures
        run_free(v.update(i, false), i, 1),
        v.update(i, true)[i],
{
}

/// No page is handed out twice: a run found free after an earlier run was
/// marked used does not overlap that earlier run.
pub proof fn law_allocations_disjoint(v: Seq<bool>, s1: int, n1: int, s2: int, n2: int)
    requires
        run_free(v, s1, n1),
        run_free(mark_range(v, s1, n1), s2, n2),
        n1 > 0,
        n2 > 0,
    ensures
        s1 + n1 <= s2 || s2 + n2 <= s1,
{
    if !(s1 + n1 <= s2 || s2 + n2 <= s1) {
        let k = if s1 > s2 { s1 } else { s2 };
        assert(mark_range(v, s1, n1)[k]);
    }
}

/// With page-sized alignment, an aligned fit is exactly a free run: an
/// aligned allocation of `n >= 1` pages picks the same pages as a first-fit one.
pub proof fn law_page_aligned_fit_is_free_run(v: Seq<bool>, i: int, n: int)
    requires
        n >= 1,
    ensures
        aligned_fit(v, i, n, 4096) <==> run_free(v, i, n),
{
    if 0 <= i {
        assert((i * 4096) % 4096 == 0) by (nonlinear_arith)
            requires
                0 <= i,
        ;
    }
    if aligned_fit(v, i, n, 4096) {
        assert(!blocked(v, i + n - 1));
        assert forall|k: int| i <= k < i + n implies !v[k] by {
            assert(!blocked(v, k));
        }
    }
    if run_free(v, i, n) {
        assert(!v[i]);
        assert forall|k: int| i <= k < i + n implies !#[trigger] blocked(v, k) by {
            assert(!v[k]);
        }
    }
}

/// `v` with pages `[s, s + n)` marked free, as `free_range` leaves it.
pub open spec fn free_run(v: Seq<bool>, s: int, n: int) -> Seq<bool> {
    Seq::new(v.len(), |k: int| if s <= k < s + n { false } else { v[k] })
}

/// Unmapping undoes a first-fit allocation: freeing the run just allocated
/// gives back the bitmap from before, and the next first-fit allocation of
/// the same size starts at the same page.
pub proof fn law_unmap_undoes_allocation(v: Seq<bool>, s: int, n: int, s2: int)
    requires
        n >= 1,
        run_free(v, s, n),
        forall|t: int| 0 <= t < s ==> !run_free(v, t, n),
        run_free(free_run(mark_range(v, s, n), s, n), s2, n),
        forall|t: int| 0 <= t < s2 ==> !run_free(free_run(mark_range(v, s, n), s, n), t, n),
    ensures
        free_run(mark_range(v, s, n), s, n) == v,
        s2 == s,
{
    assert(free_run(mark_range(v, s, n), s, n) =~= v);
    if s2 < s {
        assert(!run_free(v, s2, n));
    } else if s < s2 {
        assert(!run_free(v, s, n));
    }
}

} // verus!
