//! Verified helpers for comparing and scanning strings.
//!
//! Rules match node names against known patterns (equality, prefixes,
//! substrings) and read decimal numbers out of compiler type strings;
//! everything here is specified over the `Seq<char>` view of `str`.

use vstd::prelude::*;

verus! {

/// Does `s` start with the prefix `p`?
pub open spec fn spec_starts_with(s: Seq<char>, p: Seq<char>) -> bool {
    p.len() <= s.len() && s.subrange(0, p.len() as int) == p
}

/// Does `s` contain `p` as a contiguous substring?
pub open spec fn spec_contains(s: Seq<char>, p: Seq<char>) -> bool {
    exists|i: int|
        0 <= i && i + p.len() <= s.len() && #[trigger] s.subrange(i, i + p.len() as int) == p
}

/// String equality, decided character by character.
pub fn str_eq(a: &str, b: &str) -> (r: bool)
    ensures
        r == (a@ == b@),
{
    let alen = a.unicode_len();
    let blen = b.unicode_len();
    if alen != blen {
        assert(a@ != b@) by {
            assert(a@.len() != b@.len());
        }
        return false;
    }
    let mut i: usize = 0;
    while i < alen
        invariant
            i <= alen,
            alen == a@.len(),
            alen == b@.len(),
            forall|j: int| 0 <= j < i ==> a@[j] == b@[j],
        decreases alen - i,
    {
        if a.get_char(i) != b.get_char(i) {
            return false;
        }
        i += 1;
    }
    proof {
        assert(a@ =~= b@);
    }
    true
}

/// Prefix test against `spec_starts_with`.
pub fn starts_with_str(s: &str, p: &str) -> (r: bool)
    ensures
        r == spec_starts_with(s@, p@),
{
    let slen = s.unicode_len();
    let plen = p.unicode_len();
    if plen > slen {
        return false;
    }
    let mut i: usize = 0;
    while i < plen
        invariant
            i <= plen,
            plen <= slen,
            slen == s@.len(),
            plen == p@.len(),
            forall|j: int| 0 <= j < i ==> s@[j] == p@[j],
        decreases plen - i,
    {
        if s.get_char(i) != p.get_char(i) {
            assert(!spec_starts_with(s@, p@)) by {
                assert(s@.subrange(0, p@.len() as int)[i as int] != p@[i as int]);
            }
            return false;
        }
        i += 1;
    }
    proof {
        assert(s@.subrange(0, p@.len() as int) =~= p@);
    }
    true
}

/// Does `s` match `p` starting at position `at`?
fn matches_at(s: &str, p: &str, at: usize) -> (r: bool)
    requires
        at + p@.len() <= s@.len(),
    ensures
        r == (s@.subrange(at as int, at + p@.len() as int) == p@),
{
    let slen = s.unicode_len();
    let plen = p.unicode_len();
    let mut i: usize = 0;
    while i < plen
        invariant
            i <= plen,
            plen == p@.len(),
            slen == s@.len(),
            at + plen <= slen,
            forall|j: int| 0 <= j < i ==> s@[at + j] == p@[j],
        decreases plen - i,
    {
        if s.get_char(at + i) != p.get_char(i) {
            assert(s@.subrange(at as int, at + p@.len() as int)[i as int] != p@[i as int]);
            return false;
        }
        i += 1;
    }
    proof {
        assert(s@.subrange(at as int, at + p@.len() as int) =~= p@);
    }
    true
}

/// Substring test against `spec_contains`.
pub fn contains_str(s: &str, p: &str) -> (r: bool)
    ensures
        r == spec_contains(s@, p@),
{
    let slen = s.unicode_len();
    let plen = p.unicode_len();
    if plen > slen {
        return false;
    }
    if plen == 0 {
        proof {
            let i0: int = 0;
            assert(s@.subrange(i0, i0 + p@.len() as int) =~= p@);
        }
        return true;
    }
    let mut i: usize = 0;
    while i <= slen - plen
        invariant
            0 < plen <= slen,
            i <= slen,
            slen == s@.len(),
            plen == p@.len(),
            forall|k: int| 0 <= k < i ==> #[trigger] s@.subrange(k, k + p@.len() as int) != p@,
        decreases slen - i,
    {
        if matches_at(s, p, i) {
            proof {
                assert(s@.subrange(i as int, i as int + p@.len() as int) == p@);
            }
            return true;
        }
        i += 1;
    }
    false
}

/// Is `c` an ASCII decimal digit?
pub open spec fn spec_is_digit(c: char) -> bool {
    48 <= c as u32 <= 57
}

/// The numeric value of a digit; zero for anything else, which keeps
/// `str_to_nat` total.
pub open spec fn digit_val(c: char) -> nat {
    if spec_is_digit(c) {
        (c as u32 - 48) as nat
    } else {
        0
    }
}

/// The number denoted by a sequence of decimal digits.
pub open spec fn str_to_nat(s: Seq<char>) -> nat
    decreases s.len(),
{
    if s.len() == 0 {
        0
    } else {
        str_to_nat(s.drop_last()) * 10 + digit_val(s.last())
    }
}

/// Every position of `s` holds a decimal digit.
pub open spec fn all_digits(s: Seq<char>) -> bool {
    forall|i: int| 0 <= i < s.len() ==> spec_is_digit(#[trigger] s[i])
}

/// A longer digit prefix never denotes a smaller number.
proof fn lemma_str_to_nat_prefix(s: Seq<char>, j: int)
    requires
        0 <= j <= s.len(),
    ensures
        str_to_nat(s.take(j)) <= str_to_nat(s),
    decreases s.len() - j,
{
    if j < s.len() {
        lemma_str_to_nat_prefix(s, j + 1);
        let t = s.take(j + 1);
        assert(t.drop_last() =~= s.take(j));
        assert(str_to_nat(s.take(j)) <= str_to_nat(t));
    } else {
        assert(s.take(j) =~= s);
    }
}

/// Parse a decimal number, rejecting empty input, non-digits and overflow.
pub fn parse_u128(s: &str) -> (r: Option<u128>)
    ensures
        r is Some <==> s@.len() > 0 && all_digits(s@) && str_to_nat(s@) <= u128::MAX,
        r is Some ==> r->0 == str_to_nat(s@),
{
    let slen = s.unicode_len();
    if slen == 0 {
        return None;
    }
    let mut acc: u128 = 0;
    let mut i: usize = 0;
    while i < slen
        invariant
            i <= slen,
            slen == s@.len(),
            all_digits(s@.take(i as int)),
            acc == str_to_nat(s@.take(i as int)),
        decreases slen - i,
    {
        let c = s.get_char(i);
        let u = c as u32;
        if u < 48 || u > 57 {
            assert(!all_digits(s@)) by {
                assert(!spec_is_digit(s@[i as int]));
            }
            return None;
        }
        let d = (u - 48) as u128;
        proof {
            assert(s@.take(i + 1).drop_last() =~= s@.take(i as int));
            assert(s@.take(i + 1).last() == s@[i as int]);
        }
        if acc > (u128::MAX - d) / 10 {
            assert(str_to_nat(s@.take(i + 1)) > u128::MAX);
            proof {
                lemma_str_to_nat_prefix(s@, i + 1);
            }
            return None;
        }
        acc = acc * 10 + d;
        i += 1;
    }
    proof {
        assert(s@.take(slen as int) =~= s@);
    }
    Some(acc)
}


/// Does `s` end with the suffix `p`?
pub open spec fn spec_ends_with(s: Seq<char>, p: Seq<char>) -> bool {
    p.len() <= s.len() && s.subrange(s.len() - p.len(), s.len() as int) == p
}

/// Suffix test against `spec_ends_with`.
pub fn ends_with_str(s: &str, p: &str) -> (r: bool)
    ensures
        r == spec_ends_with(s@, p@),
{
    let slen = s.unicode_len();
    let plen = p.unicode_len();
    if plen > slen {
        return false;
    }
    let base = slen - plen;
    let mut i: usize = 0;
    while i < plen
        invariant
            i <= plen,
            base == slen - plen,
            plen <= slen,
            slen == s@.len(),
            plen == p@.len(),
            forall|j: int| 0 <= j < i ==> s@[base + j] == p@[j],
        decreases plen - i,
    {
        if s.get_char(base + i) != p.get_char(i) {
            assert(s@.subrange(s@.len() - p@.len(), s@.len() as int)[i as int] != p@[i as int]);
            return false;
        }
        i += 1;
    }
    proof {
        assert(s@.subrange(s@.len() - p@.len(), s@.len() as int) =~= p@);
    }
    true
}

/// Lexicographic order on character sequences, by scalar value.
pub open spec fn spec_str_le(a: Seq<char>, b: Seq<char>) -> bool
    decreases a.len(),
{
    if a.len() == 0 {
        true
    } else if b.len() == 0 {
        false
    } else if (a.first() as u32) < (b.first() as u32) {
        true
    } else if (a.first() as u32) > (b.first() as u32) {
        false
    } else {
        spec_str_le(a.drop_first(), b.drop_first())
    }
}

/// Lexicographic comparison against `spec_str_le`.
pub fn str_le(a: &str, b: &str) -> (r: bool)
    ensures
        r == spec_str_le(a@, b@),
{
    let alen = a.unicode_len();
    let blen = b.unicode_len();
    let mut i: usize = 0;
    proof {
        assert(a@.skip(0) =~= a@);
        assert(b@.skip(0) =~= b@);
    }
    while i < alen && i < blen
        invariant
            i <= alen,
            i <= blen,
            alen == a@.len(),
            blen == b@.len(),
            spec_str_le(a@, b@) == spec_str_le(a@.skip(i as int), b@.skip(i as int)),
        decreases alen - i,
    {
        let ca = a.get_char(i) as u32;
        let cb = b.get_char(i) as u32;
        proof {
            assert(a@.skip(i as int).first() == a@[i as int]);
            assert(b@.skip(i as int).first() == b@[i as int]);
            assert(a@.skip(i as int).drop_first() =~= a@.skip(i + 1));
            assert(b@.skip(i as int).drop_first() =~= b@.skip(i + 1));
        }
        if ca < cb {
            return true;
        }
        if ca > cb {
            return false;
        }
        i += 1;
    }
    proof {
        if i >= alen {
            assert(a@.skip(i as int).len() == 0);
        } else {
            assert(b@.skip(i as int).len() == 0);
            assert(a@.skip(i as int).len() > 0);
        }
    }
    i >= alen
}


/// The position of the first occurrence of `c` at or after `i`, or the
/// text's end.
pub open spec fn spec_find_char_from(s: Seq<char>, c: char, i: int) -> int
    decreases s.len() - i,
{
    if i < 0 || i >= s.len() {
        s.len() as int
    } else if s[i] == c {
        i
    } else {
        spec_find_char_from(s, c, i + 1)
    }
}

/// The found position never precedes where the search started.
pub proof fn lemma_find_char_bounds(s: Seq<char>, c: char, i: int)
    requires
        0 <= i <= s.len(),
    ensures
        i <= spec_find_char_from(s, c, i) <= s.len(),
    decreases s.len() - i,
{
    if i < s.len() && s[i] != c {
        lemma_find_char_bounds(s, c, i + 1);
    }
}

/// Find the first occurrence of `c` at or after `from`.
pub fn find_char_from(s: &str, c: char, from: usize) -> (r: usize)
    requires
        from <= s@.len(),
    ensures
        r == spec_find_char_from(s@, c, from as int),
        from <= r <= s@.len(),
{
    let n = s.unicode_len();
    let mut i: usize = from;
    while i < n
        invariant
            from <= i <= n,
            n == s@.len(),
            spec_find_char_from(s@, c, from as int) == spec_find_char_from(s@, c, i as int),
        decreases n - i,
    {
        if s.get_char(i) == c {
            return i;
        }
        i += 1;
    }
    n
}

} // verus!
