//! Little-endian field access and byte appending shared by the on-disk and
//! on-wire formats.
use vstd::prelude::*;

verus! {

/// The little-endian 16-bit value at `off`.
pub open spec fn le16(d: Seq<u8>, off: int) -> nat {
    d[off] as nat + (d[off + 1] as nat) * 0x100
}

/// The little-endian 32-bit value at `off`.
pub open spec fn le32(d: Seq<u8>, off: int) -> nat {
    le16(d, off) + le16(d, off + 2) * 0x10000
}

/// The little-endian 64-bit value at `off`.
pub open spec fn le64(d: Seq<u8>, off: int) -> nat {
    le32(d, off) + le32(d, off + 4) * 0x1_0000_0000
}

pub fn read_le16(d: &[u8], off: usize) -> (r: u16)
    requires
        off + 2 <= d@.len(),
    ensures
        r == le16(d@, off as int),
{
    d[off] as u16 + (d[off + 1] as u16) * 0x100
}

pub fn read_le32(d: &[u8], off: usize) -> (r: u32)
    requires
        off + 4 <= d@.len(),
    ensures
        r == le32(d@, off as int),
{
    let _n = d.len();
    let lo = read_le16(d, off);
    let hi = read_le16(d, off + 2);
    lo as u32 + (hi as u32) * 0x10000
}

pub fn read_le64(d: &[u8], off: usize) -> (r: u64)
    requires
        off + 8 <= d@.len(),
    ensures
        r == le64(d@, off as int),
{
    let _n = d.len();
    let lo = read_le32(d, off);
    let hi = read_le32(d, off + 4);
    lo as u64 + (hi as u64) * 0x1_0000_0000
}

/// Appends every byte of `s` to `v`.
pub fn push_all(v: &mut Vec<u8>, s: &[u8])
    ensures
        final(v)@ == old(v)@ + s@,
{
    let ghost start = v@;
    let mut i: usize = 0;
    while i < s.len()
        invariant
            i <= s@.len(),
            v@ == start + s@.subrange(0, i as int),
        decreases s@.len() - i,
    {
        v.push(s[i]);
        i = i + 1;
        assert(s@.subrange(0, i as int) =~= s@.subrange(0, i as int - 1).push(s@[i as int - 1]));
    }
    assert(s@.subrange(0, s@.len() as int) =~= s@);
}


/// Appends `x` as two little-endian bytes.
pub fn push_le16(v: &mut Vec<u8>, x: u16)
    ensures
        final(v)@.len() == old(v)@.len() + 2,
        forall|j: int| 0 <= j < old(v)@.len() ==> final(v)@[j] == old(v)@[j],
        final(v)@[old(v)@.len() as int] == x % 256,
        final(v)@[old(v)@.len() as int + 1] == x / 256,
        le16(final(v)@, old(v)@.len() as int) == x,
{
    v.push((x % 256) as u8);
    v.push((x / 256) as u8);
}

/// Appends `x` as four little-endian bytes.
pub fn push_le32(v: &mut Vec<u8>, x: u32)
    ensures
        final(v)@.len() == old(v)@.len() + 4,
        forall|j: int| 0 <= j < old(v)@.len() ==> final(v)@[j] == old(v)@[j],
        le32(final(v)@, old(v)@.len() as int) == x,
{
    let ghost n = v@.len() as int;
    push_le16(v, (x % 65536) as u16);
    let ghost mid = v@;
    push_le16(v, (x / 65536) as u16);
    assert(le16(v@, n) == le16(mid, n));
}

/// Appends `x` as eight little-endian bytes.
pub fn push_le64(v: &mut Vec<u8>, x: u64)
    ensures
        final(v)@.len() == old(v)@.len() + 8,
        forall|j: int| 0 <= j < old(v)@.len() ==> final(v)@[j] == old(v)@[j],
        le64(final(v)@, old(v)@.len() as int) == x,
{
    let ghost n = v@.len() as int;
    push_le32(v, (x % 0x1_0000_0000) as u32);
    let ghost mid = v@;
    push_le32(v, (x / 0x1_0000_0000) as u32);
    assert(le16(v@, n) == le16(mid, n));
    assert(le16(v@, n + 2) == le16(mid, n + 2));
    assert(le32(v@, n) == le32(mid, n));
}


/// Splitting a 32-bit value into its four little-endian bytes and reading
/// them back gives the value.
pub proof fn lemma_le32_of_bytes(v: nat)
    requires
        v < 0x1_0000_0000,
    ensures
        (v % 0x100) + (v / 0x100 % 0x100) * 0x100 + ((v / 0x10000 % 0x100) + (v / 0x1000000 % 0x100) * 0x100) * 0x10000 == v,
{
    let x = v as u32;
    assert((x % 0x100) + (x / 0x100 % 0x100) * 0x100 + ((x / 0x10000 % 0x100) + (x / 0x1000000 % 0x100) * 0x100) * 0x10000 == x) by (bit_vector);
}

} // verus!
