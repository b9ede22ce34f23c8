//! Short (8.3) names as shown to the user, and ASCII case-insensitive comparison.
use vstd::prelude::*;

verus! {

/// `s` with its spaces removed.
pub open spec fn strip_spaces(s: Seq<u8>) -> Seq<u8>
    decreases s.len(),
{
    if s.len() == 0 {
        Seq::empty()
    } else if s.last() == 0x20 {
        strip_spaces(s.drop_last())
    } else {
        strip_spaces(s.drop_last()).push(s.last())
    }
}

/// The 8.3 name as displayed: base name without spaces, then a dot and the
/// extension without spaces when the extension does not start with a space.
pub open spec fn display_name(name: Seq<u8>) -> Seq<u8> {
    if name[8] != 0x20 {
        strip_spaces(name.subrange(0, 8)).push(0x2e) + strip_spaces(name.subrange(8, 11))
    } else {
        strip_spaces(name.subrange(0, 8))
    }
}

proof fn lemma_strip_len(s: Seq<u8>)
    ensures
        strip_spaces(s).len() <= s.len(),
    decreases s.len(),
{
    if s.len() > 0 {
        lemma_strip_len(s.drop_last());
    }
}

fn append_stripped(out: &mut Vec<u8>, name: &[u8; 11], from: usize, to: usize)
    requires
        from <= to <= 11,
    ensures
        final(out)@ == old(out)@ + strip_spaces(name@.subrange(from as int, to as int)),
{
    let ghost start = out@;
    let mut k = from;
    while k < to
        invariant
            from <= k <= to <= 11,
            out@ == start + strip_spaces(name@.subrange(from as int, k as int)),
        decreases to - k,
    {
        assert(name@.subrange(from as int, k + 1).drop_last() =~= name@.subrange(from as int, k as int));
        if name[k] != 0x20 {
            out.push(name[k]);
            assert(out@ =~= start + strip_spaces(name@.subrange(from as int, k + 1)));
        }
        k = k + 1;
    }
}

/// The displayed form of a short name, as the directory walks compare and list it.
pub fn format_short_name(name: &[u8; 11]) -> (out: Vec<u8>)
    ensures
        out@ == display_name(name@),
        out@.len() <= 12,
{
    let mut out: Vec<u8> = Vec::new();
    append_stripped(&mut out, name, 0, 8);
    if name[8] != 0x20 {
        out.push(0x2e);
        append_stripped(&mut out, name, 8, 11);
    }
    proof {
        lemma_strip_len(name@.subrange(0, 8));
        lemma_strip_len(name@.subrange(8, 11));
    }
    assert(out@ =~= display_name(name@));
    out
}

/// Whether a byte is not a space.
pub open spec fn not_space(b: u8) -> bool {
    b != 0x20
}

proof fn lemma_strip_is_filter(s: Seq<u8>)
    ensures
        strip_spaces(s) == s.filter(|b: u8| not_space(b)),
    decreases s.len(),
{
    reveal_with_fuel(Seq::filter, 2);
    if s.len() > 0 {
        lemma_strip_is_filter(s.drop_last());
    }
}

/// The displayed short name keeps every non-space byte and the extension:
/// it is the base name's non-space bytes, then, exactly when the
/// extension's first byte is not a space, a dot and the extension's
/// non-space bytes.
pub proof fn law_display_name_keeps_extension(name: Seq<u8>)
    requires
        name.len() == 11,
    ensures
        name[8] != 0x20 ==> display_name(name)
            == name.subrange(0, 8).filter(|b: u8| not_space(b)) + seq![0x2eu8] + name.subrange(8, 11).filter(|b: u8| not_space(b)),
        name[8] == 0x20 ==> display_name(name) == name.subrange(0, 8).filter(|b: u8| not_space(b)),
{
    lemma_strip_is_filter(name.subrange(0, 8));
    lemma_strip_is_filter(name.subrange(8, 11));
    if name[8] != 0x20 {
        assert(strip_spaces(name.subrange(0, 8)).push(0x2e) =~= strip_spaces(name.subrange(0, 8)) + seq![0x2eu8]);
    }
}

/// ASCII lower case of a byte.
pub open spec fn ascii_lower(b: u8) -> u8 {
    if 0x41 <= b <= 0x5a {
        (b + 0x20) as u8
    } else {
        b
    }
}

/// Equality of byte strings ignoring ASCII case.
pub open spec fn eq_ignore_ascii_case(a: Seq<u8>, b: Seq<u8>) -> bool {
    a.len() == b.len() && forall|i: int| 0 <= i < a.len() ==> ascii_lower(#[trigger] a[i]) == ascii_lower(b[i])
}

fn to_ascii_lower(b: u8) -> (r: u8)
    ensures
        r == ascii_lower(b),
{
    if 0x41 <= b && b <= 0x5a {
        b + 0x20
    } else {
        b
    }
}

/// Compares two byte strings ignoring ASCII case.
pub fn bytes_eq_ignore_ascii_case(a: &[u8], b: &[u8]) -> (r: bool)
    ensures
        r == eq_ignore_ascii_case(a@, b@),
{
    if a.len() != b.len() {
        return false;
    }
    let mut i: usize = 0;
    while i < a.len()
        invariant
            a@.len() == b@.len(),
            i <= a@.len(),
            forall|k: int| 0 <= k < i ==> ascii_lower(#[trigger] a@[k]) == ascii_lower(b@[k]),
        decreases a@.len() - i,
    {
        if to_ascii_lower(a[i]) != to_ascii_lower(b[i]) {
            return false;
        }
        i = i + 1;
    }
    true
}

/// Whether `p` is a prefix of `s`.
pub open spec fn is_prefix(p: Seq<u8>, s: Seq<u8>) -> bool {
    p.len() <= s.len() && s.subrange(0, p.len() as int) == p
}

/// Whether `p` is a prefix of `s`, byte for byte.
pub fn bytes_starts_with(s: &[u8], p: &[u8]) -> (r: bool)
    ensures
        r == is_prefix(p@, s@),
{
    if p.len() > s.len() {
        return false;
    }
    let mut i: usize = 0;
    while i < p.len()
        invariant
            p@.len() <= s@.len(),
            i <= p@.len(),
            forall|k: int| 0 <= k < i ==> s@[k] == p@[k],
        decreases p@.len() - i,
    {
        if s[i] != p[i] {
            assert(s@.subrange(0, p@.len() as int)[i as int] != p@[i as int]);
            return false;
        }
        i = i + 1;
    }
    assert(s@.subrange(0, p@.len() as int) =~= p@);
    true
}

} // verus!
