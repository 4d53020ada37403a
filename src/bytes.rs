//! Byte-string helpers shared by the classifier and the resolver.

use vstd::prelude::*;

verus! {

/// `\n`.
pub const NEWLINE: u8 = 10;

/// `\r`.
pub const CARRIAGE_RETURN: u8 = 13;

/// ASCII whitespace: space, tab, line feed, form feed, carriage return.
pub open spec fn is_space(b: u8) -> bool {
    b == 32 || b == 9 || b == 10 || b == 12 || b == 13
}

/// Empty once ASCII whitespace is trimmed.
pub open spec fn is_blank(s: Seq<u8>) -> bool {
    forall|i: int| 0 <= i < s.len() ==> is_space(#[trigger] s[i])
}

/// The first index at or after `i` whose byte is not ASCII whitespace,
/// or `s.len()` when there is none.
pub open spec fn skip_space(s: Seq<u8>, i: int) -> int
    decreases s.len() - i,
{
    if 0 <= i < s.len() && is_space(s[i]) {
        skip_space(s, i + 1)
    } else {
        i
    }
}

/// `n` occurs in `h` at index `i`.
pub open spec fn matches_at(h: Seq<u8>, n: Seq<u8>, i: int) -> bool {
    0 <= i && i + n.len() <= h.len() && h.subrange(i, i + n.len()) == n
}

/// The first index at or after `i` where `n` occurs in `h`.
pub open spec fn find_from(h: Seq<u8>, n: Seq<u8>, i: int) -> Option<int>
    decreases h.len() + 1 - i,
{
    if i < 0 || i + n.len() > h.len() {
        None
    } else if matches_at(h, n, i) {
        Some(i)
    } else {
        find_from(h, n, i + 1)
    }
}

/// What skipping whitespace from `i` reaches.
pub proof fn lemma_skip_space(s: Seq<u8>, i: int)
    requires
        0 <= i <= s.len(),
    ensures
        i <= skip_space(s, i) <= s.len(),
        forall|t: int| i <= t < skip_space(s, i) ==> is_space(#[trigger] s[t]),
        skip_space(s, i) == s.len() || !is_space(s[skip_space(s, i)]),
    decreases s.len() - i,
{
    if i < s.len() && is_space(s[i]) {
        lemma_skip_space(s, i + 1);
    }
}

/// The bytes from `i` on are blank exactly when skipping whitespace from
/// `i` reaches the end.
pub proof fn lemma_blank_iff_skip(s: Seq<u8>, i: int)
    requires
        0 <= i <= s.len(),
    ensures
        is_blank(s.subrange(i, s.len() as int)) <==> skip_space(s, i) == s.len(),
{
    lemma_skip_space(s, i);
    let r = skip_space(s, i);
    let sub = s.subrange(i, s.len() as int);
    if r == s.len() {
        assert forall|t: int| 0 <= t < sub.len() implies is_space(#[trigger] sub[t]) by {
            assert(sub[t] == s[i + t]);
        }
    } else {
        assert(sub[r - i] == s[r]);
    }
}

/// A found occurrence lies at or after the start and matches there.
pub proof fn lemma_find_from(h: Seq<u8>, n: Seq<u8>, i: int)
    ensures
        find_from(h, n, i) matches Some(j) ==> i <= j && matches_at(h, n, j),
    decreases h.len() + 1 - i,
{
    if !(i < 0 || i + n.len() > h.len()) && !matches_at(h, n, i) {
        lemma_find_from(h, n, i + 1);
    }
}

/// Executable counterpart of [`is_space`].
pub fn is_space_byte(b: u8) -> (r: bool)
    ensures
        r == is_space(b),
{
    b == 32 || b == 9 || b == 10 || b == 12 || b == 13
}

/// Executable counterpart of [`skip_space`].
pub fn skip_space_from(s: &[u8], start: usize) -> (r: usize)
    requires
        start <= s@.len(),
    ensures
        r as int == skip_space(s@, start as int),
        start <= r <= s@.len(),
{
    let mut i = start;
    while i < s.len() && is_space_byte(s[i])
        invariant
            start <= i <= s@.len(),
            skip_space(s@, i as int) == skip_space(s@, start as int),
        decreases s@.len() - i,
    {
        i = i + 1;
    }
    i
}

/// Executable counterpart of [`matches_at`], where the needle fits.
pub fn matches_at_exec(h: &[u8], n: &[u8], i: usize) -> (r: bool)
    requires
        i + n@.len() <= h@.len(),
    ensures
        r == matches_at(h@, n@, i as int),
{
    let hl = h.len();
    let mut j: usize = 0;
    while j < n.len()
        invariant
            j <= n@.len(),
            hl == h@.len(),
            i + n@.len() <= h@.len(),
            forall|t: int| 0 <= t < j ==> h@[i + t] == n@[t],
        decreases n@.len() - j,
    {
        if h[i + j] != n[j] {
            assert(h@.subrange(i as int, i + n@.len())[j as int] != n@[j as int]);
            return false;
        }
        j = j + 1;
    }
    assert(h@.subrange(i as int, i + n@.len()) =~= n@);
    true
}

/// The first occurrence of `n` in `h` at or after `start`.
pub fn find_exec(h: &[u8], n: &[u8], start: usize) -> (r: Option<usize>)
    requires
        start <= h@.len(),
    ensures
        match r {
            Some(j) => find_from(h@, n@, start as int) == Some(j as int),
            None => find_from(h@, n@, start as int) is None,
        },
{
    if n.len() == 0 {
        assert(h@.subrange(start as int, start as int) =~= n@);
        return Some(start);
    }
    let mut i = start;
    while i <= h.len()
        invariant
            start <= i,
            n@.len() > 0,
            find_from(h@, n@, i as int) == find_from(h@, n@, start as int),
        decreases h@.len() + 1 - i,
    {
        if n.len() > h.len() - i {
            return None;
        }
        if matches_at_exec(h, n, i) {
            return Some(i);
        }
        i = i + 1;
    }
    None
}

/// The pieces of `b` between occurrences of `sep`, in order: one more piece
/// than there are separators, the last one possibly empty.
pub open spec fn split_at_byte(b: Seq<u8>, sep: u8) -> Seq<Seq<u8>>
    decreases b.len(),
{
    if b.len() == 0 {
        seq![Seq::empty()]
    } else {
        let prev = split_at_byte(b.drop_last(), sep);
        if b.last() == sep {
            prev.push(Seq::empty())
        } else {
            prev.update(prev.len() - 1, prev.last().push(b.last()))
        }
    }
}

/// ASCII lower case of one byte; other bytes are kept.
pub open spec fn lower(b: u8) -> u8 {
    if 65 <= b <= 90 {
        (b + 32) as u8
    } else {
        b
    }
}

/// ASCII lower case of each byte.
pub open spec fn lower_bytes(s: Seq<u8>) -> Seq<u8> {
    s.map_values(|b: u8| lower(b))
}

/// Equal once ASCII letters are folded to lower case.
pub open spec fn same_ignoring_case(a: Seq<u8>, b: Seq<u8>) -> bool {
    lower_bytes(a) == lower_bytes(b)
}

/// `n` occurs somewhere in `h`.
pub open spec fn contains(h: Seq<u8>, n: Seq<u8>) -> bool {
    find_from(h, n, 0) is Some
}

/// Executable counterpart of [`lower`].
pub fn lower_byte(b: u8) -> (r: u8)
    ensures
        r == lower(b),
{
    if 65 <= b && b <= 90 {
        b + 32
    } else {
        b
    }
}

/// The ASCII lower case of `s`.
pub fn to_lower_vec(s: &[u8]) -> (r: Vec<u8>)
    ensures
        r@ == lower_bytes(s@),
{
    let mut r: Vec<u8> = Vec::new();
    let mut i: usize = 0;
    while i < s.len()
        invariant
            i <= s@.len(),
            r@ == lower_bytes(s@.subrange(0, i as int)),
        decreases s@.len() - i,
    {
        r.push(lower_byte(s[i]));
        assert(lower_bytes(s@.subrange(0, i + 1)) =~= lower_bytes(s@.subrange(0, i as int)).push(
            lower(s@[i as int]),
        ));
        i = i + 1;
    }
    assert(s@.subrange(0, i as int) =~= s@);
    r
}

/// Whether `a` and `b` are equal once ASCII letters are folded to lower case.
pub fn eq_ignore_case(a: &[u8], b: &[u8]) -> (r: bool)
    ensures
        r == same_ignoring_case(a@, b@),
{
    if a.len() != b.len() {
        assert(lower_bytes(a@).len() != lower_bytes(b@).len());
        return false;
    }
    let mut i: usize = 0;
    while i < a.len()
        invariant
            i <= a@.len(),
            a@.len() == b@.len(),
            forall|t: int| 0 <= t < i ==> lower(a@[t]) == lower(b@[t]),
        decreases a@.len() - i,
    {
        if lower_byte(a[i]) != lower_byte(b[i]) {
            assert(lower_bytes(a@)[i as int] != lower_bytes(b@)[i as int]);
            return false;
        }
        i = i + 1;
    }
    assert(lower_bytes(a@) =~= lower_bytes(b@));
    true
}

/// Whether `n` occurs somewhere in `h`.
pub fn contains_exec(h: &[u8], n: &[u8]) -> (r: bool)
    ensures
        r == contains(h@, n@),
{
    find_exec(h, n, 0).is_some()
}

} // verus!
