//! The Internet one's complement checksum: carry folding and 16-bit word sums.
use vstd::prelude::*;
use vstd::arithmetic::div_mod::*;

verus! {

/// Folds the carries of a running sum back into its low 16 bits until it fits.
pub open spec fn fold_carries(s: nat) -> nat
    decreases s,
{
    if s < 0x10000 {
        s
    } else {
        proof {
            lemma_fold_step_smaller(s);
        }
        fold_carries((s % 0x10000 + s / 0x10000) as nat)
    }
}

pub proof fn lemma_fold_step_smaller(s: nat)
    requires
        s >= 0x10000,
    ensures
        s % 0x10000 + s / 0x10000 < s,
        s % 0x10000 + s / 0x10000 > 0,
        (s % 0x10000 + s / 0x10000) as int % 0xFFFF == s as int % 0xFFFF,
{
    let q = s / 0x10000;
    let r = s % 0x10000;
    lemma_fundamental_div_mod(s as int, 0x10000);
    assert(q >= 1) by {
        lemma_div_pos_is_pos(s as int, 0x10000);
        if q == 0 {
            assert(s == r);
        }
    }
    assert(s as int == 0xFFFF * q + (q + r));
    lemma_mod_multiples_vanish(q as int, (q + r) as int, 0xFFFF);
}

/// Folding keeps the value modulo 0xFFFF, and a positive value folds into `1..=0xFFFF`.
pub proof fn lemma_fold_carries(s: nat)
    ensures
        fold_carries(s) <= 0xFFFF,
        fold_carries(s) as int % 0xFFFF == s as int % 0xFFFF,
        s > 0 ==> fold_carries(s) >= 1,
        s == 0 ==> fold_carries(s) == 0,
    decreases s,
{
    if s >= 0x10000 {
        lemma_fold_step_smaller(s);
        lemma_fold_carries((s % 0x10000 + s / 0x10000) as nat);
    }
}

/// One's complement of the folded sum: what the checksum fields hold.
pub open spec fn ones_complement(s: nat) -> nat {
    (0xFFFF - fold_carries(s)) as nat
}

/// When a positive sum is completed by its own one's complement, the sum folds to 0xFFFF.
pub proof fn lemma_complemented_sum_folds_to_ffff(s: nat, c: nat)
    requires
        s > 0,
        c % 0xFFFF == ones_complement(s) % 0xFFFF,
    ensures
        fold_carries(s + c) == 0xFFFF,
{
    lemma_fold_carries(s);
    lemma_fold_carries(s + c);
    let f = fold_carries(s);
    lemma_add_mod_noop(s as int, c as int, 0xFFFF);
    lemma_add_mod_noop(f as int, (0xFFFF - f) as int, 0xFFFF);
    assert((s + c) as int % 0xFFFF == 0);
    let g = fold_carries(s + c);
    assert(1 <= g <= 0xFFFF);
    if g < 0xFFFF {
        assert(g as int % 0xFFFF == g);
    }
}

/// Folds the carries of a 32-bit running sum into 16 bits.
pub fn fold_u32(sum: u32) -> (r: u16)
    ensures
        r == fold_carries(sum as nat),
{
    let mut s = sum;
    while s >> 16u32 != 0
        invariant
            fold_carries(s as nat) == fold_carries(sum as nat),
        decreases s,
    {
        assert(s >> 16u32 == s / 0x10000) by (bit_vector);
        assert(s & 0xFFFFu32 == s % 0x10000) by (bit_vector);
        assert(s >= 0x10000) by {
            if s < 0x10000 {
                assert(s / 0x10000 == 0);
            }
        }
        proof {
            lemma_fold_step_smaller(s as nat);
        }
        s = (s & 0xFFFF) + (s >> 16);
    }
    assert(s >> 16u32 == s / 0x10000) by (bit_vector);
    assert(s < 0x10000) by {
        if s >= 0x10000 {
            lemma_div_pos_is_pos(s as int, 0x10000);
        }
    }
    s as u16
}

/// The big-endian 16-bit word that starts at byte `i`; an odd last byte is padded with zero.
pub open spec fn be_word(d: Seq<u8>, i: int) -> nat {
    if i + 1 < d.len() {
        (d[i] as nat) * 256 + d[i + 1] as nat
    } else {
        (d[i] as nat) * 256
    }
}

/// Sum of the big-endian 16-bit words of `d` from byte `i` on.
pub open spec fn be_words_sum_from(d: Seq<u8>, i: int) -> nat
    decreases d.len() - i,
{
    if i < 0 || i >= d.len() {
        0
    } else if i + 2 >= d.len() {
        be_word(d, i)
    } else {
        be_word(d, i) + be_words_sum_from(d, i + 2)
    }
}

/// Sum of all big-endian 16-bit words of `d`.
pub open spec fn be_words_sum(d: Seq<u8>) -> nat {
    be_words_sum_from(d, 0)
}

pub proof fn lemma_be_words_sum_from_bound(d: Seq<u8>, i: int)
    requires
        0 <= i <= d.len(),
    ensures
        be_words_sum_from(d, i) <= 0xFFFF * ((d.len() - i + 1) / 2),
    decreases d.len() - i,
{
    if i < d.len() {
        assert(be_word(d, i) <= 0xFFFF);
        if i + 2 < d.len() {
            lemma_be_words_sum_from_bound(d, i + 2);
            let k = (d.len() - (i + 2) + 1) / 2;
            assert((d.len() - i + 1) / 2 == k + 1);
            assert(0xFFFF * (k + 1) == 0xFFFF * k + 0xFFFF) by (nonlinear_arith);
        }
    }
}

/// The word sum of `n` bytes is at most `0xFFFF` per started word.
pub proof fn lemma_be_words_sum_bound(d: Seq<u8>)
    ensures
        be_words_sum(d) <= 0xFFFF * ((d.len() + 1) / 2),
{
    lemma_be_words_sum_from_bound(d, 0);
}

pub proof fn lemma_sum_from_agree(a: Seq<u8>, b: Seq<u8>, j: int, i: int)
    requires
        a.len() == b.len(),
        0 <= j <= i,
        forall|k: int| j <= k < a.len() ==> a[k] == b[k],
    ensures
        be_words_sum_from(a, i) == be_words_sum_from(b, i),
    decreases a.len() - i,
{
    if i < a.len() && i + 2 < a.len() {
        lemma_sum_from_agree(a, b, j, i + 2);
    }
}

/// Writing the big-endian word `c` over a zero word at even offset `p` adds `c` to the sum.
pub proof fn lemma_sum_with_word(seg0: Seq<u8>, seg: Seq<u8>, p: int, c: u16, i: int)
    requires
        seg0.len() == seg.len(),
        p + 2 <= seg.len(),
        0 <= i <= p,
        i % 2 == 0,
        p % 2 == 0,
        forall|k: int| 0 <= k < seg.len() && k != p && k != p + 1 ==> seg0[k] == seg[k],
        seg0[p] == 0 && seg0[p + 1] == 0,
        seg[p] == c as nat / 256 && seg[p + 1] == c as nat % 256,
    ensures
        be_words_sum_from(seg, i) == be_words_sum_from(seg0, i) + c,
    decreases p - i,
{
    if i < p {
        lemma_sum_with_word(seg0, seg, p, c, i + 2);
    } else {
        lemma_sum_from_agree(seg0, seg, p + 2, p + 2);
        assert(be_word(seg, p) == c);
        assert(be_word(seg0, p) == 0);
    }
}

/// Any sum completed by its own one's complement folds to 0xFFFF.
pub proof fn lemma_complement_closes(s: nat)
    ensures
        fold_carries(s + ones_complement(s)) == 0xFFFF,
{
    lemma_fold_carries(s);
    if s > 0 {
        lemma_complemented_sum_folds_to_ffff(s, ones_complement(s));
    } else {
        assert(ones_complement(s) == 0xFFFF);
    }
}

/// The Internet checksum of `data`: one's complement of the folded sum of its big-endian words.
pub fn internet_checksum(data: &[u8]) -> (r: u16)
    requires
        be_words_sum(data@) <= u32::MAX,
    ensures
        r == ones_complement(be_words_sum(data@)),
{
    let sum = add_be_words(0, data);
    let folded = fold_u32(sum);
    proof {
        lemma_fold_carries(sum as nat);
    }
    0xFFFF - folded
}

/// Adds the big-endian 16-bit words of `data` to `start`.
pub fn add_be_words(start: u32, data: &[u8]) -> (sum: u32)
    requires
        start + be_words_sum(data@) <= u32::MAX,
    ensures
        sum == start + be_words_sum(data@),
{
    let mut sum = start;
    let mut i: usize = 0;
    while i < data.len()
        invariant
            i <= data.len(),
            sum + be_words_sum_from(data@, i as int) == start + be_words_sum(data@),
            start + be_words_sum(data@) <= u32::MAX,
        decreases data.len() - i,
    {
        if i + 1 < data.len() {
            let word: u32 = (data[i] as u32) * 256 + (data[i + 1] as u32);
            assert(word == be_word(data@, i as int));
            sum = sum + word;
            i = i + 2;
        } else {
            let word: u32 = (data[i] as u32) * 256;
            assert(word == be_word(data@, i as int));
            sum = sum + word;
            i = data.len();
        }
    }
    sum
}

} // verus!
