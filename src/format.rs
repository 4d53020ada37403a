//! Numbers and rows as text.

use vstd::prelude::*;

use crate::types::{FileCounts, Tally};

verus! {

/// The character of a decimal digit.
pub open spec fn digit_char(d: nat) -> char {
    ((48 + d) as u8) as char
}

/// The decimal representation of `n`, without leading zeros.
pub open spec fn decimal(n: nat) -> Seq<char>
    decreases n,
{
    if n < 10 {
        seq![digit_char(n)]
    } else {
        decimal(n / 10).push(digit_char(n % 10))
    }
}

/// Digits with a comma before each group of three, counted from the right.
pub open spec fn group_thousands(d: Seq<char>) -> Seq<char>
    decreases d.len(),
{
    if d.len() <= 3 {
        d
    } else {
        group_thousands(d.subrange(0, d.len() - 3)) + seq![','] + d.subrange(d.len() - 3, d.len() as int)
    }
}

/// One CSV row: language, files, code, comment, blank, total, and a newline.
pub open spec fn csv_row(lang: Seq<char>, c: Tally) -> Seq<char> {
    lang + seq![','] + decimal(c.files) + seq![','] + decimal(c.code) + seq![','] + decimal(c.comment)
        + seq![','] + decimal(c.blank) + seq![','] + decimal(c.total) + seq!['\n']
}

/// Relies on `String`'s `FromIterator<&char>`: the characters, in order.
#[verifier::external_body]
fn string_from_chars(v: &Vec<char>) -> (r: String)
    ensures
        r@ == v@,
{
    v.iter().collect()
}

fn decimal_chars(n: usize) -> (r: Vec<char>)
    ensures
        r@ == decimal(n as nat),
    decreases n,
{
    if n < 10 {
        let d = ((48 + n) as u8) as char;
        let r = vec![d];
        assert(r@ =~= seq![digit_char(n as nat)]);
        r
    } else {
        let mut r = decimal_chars(n / 10);
        let d = ((48 + n % 10) as u8) as char;
        r.push(d);
        r
    }
}

/// `d[..len]` with thousands separators.
fn group_prefix(d: &Vec<char>, len: usize) -> (r: Vec<char>)
    requires
        len <= d@.len(),
    ensures
        r@ == group_thousands(d@.subrange(0, len as int)),
    decreases len,
{
    if len <= 3 {
        let mut r: Vec<char> = Vec::new();
        let mut i: usize = 0;
        while i < len
            invariant
                i <= len,
                len <= d@.len(),
                r@ == d@.subrange(0, i as int),
            decreases len - i,
        {
            r.push(d[i]);
            assert(d@.subrange(0, i + 1) =~= d@.subrange(0, i as int).push(d@[i as int]));
            i = i + 1;
        }
        r
    } else {
        let mut r = group_prefix(d, len - 3);
        r.push(',');
        r.push(d[len - 3]);
        r.push(d[len - 2]);
        r.push(d[len - 1]);
        let ghost p = d@.subrange(0, len as int);
        assert(p.subrange(0, p.len() - 3) =~= d@.subrange(0, len - 3));
        assert(r@ =~= group_thousands(d@.subrange(0, len - 3)) + seq![','] + p.subrange(
            p.len() - 3,
            p.len() as int,
        ));
        r
    }
}

/// `n` in decimal, with a comma between groups of three digits
/// (`1234567` gives `1,234,567`).
pub fn format_num(n: usize) -> (r: String)
    ensures
        r@ == group_thousands(decimal(n as nat)),
{
    let d = decimal_chars(n);
    let g = group_prefix(&d, d.len());
    assert(d@.subrange(0, d@.len() as int) =~= d@);
    string_from_chars(&g)
}

fn push_decimal(out: &mut String, n: usize)
    ensures
        final(out)@ == old(out)@ + decimal(n as nat),
{
    let d = decimal_chars(n);
    let s = string_from_chars(&d);
    out.append(s.as_str());
}

/// Appends the CSV row of one language (or of the totals) to `out`.
pub fn push_row(out: &mut String, lang: &str, c: &FileCounts)
    ensures
        final(out)@ == old(out)@ + csv_row(lang@, c@),
{
    let ghost o = out@;
    out.append(lang);
    out.append(",");
    push_decimal(out, c.files);
    out.append(",");
    push_decimal(out, c.code);
    out.append(",");
    push_decimal(out, c.comment);
    out.append(",");
    push_decimal(out, c.blank);
    out.append(",");
    push_decimal(out, c.total);
    out.append("\n");
    proof {
        reveal_strlit(",");
        reveal_strlit("\n");
        assert(out@ =~= o + csv_row(lang@, c@));
    }
}

/// Column widths of the per-language table.
#[derive(Clone, Copy, Debug, PartialEq, Eq)]
pub struct ColWidths {
    pub lang: usize,
    pub files: usize,
    pub blank: usize,
    pub comm: usize,
    pub code: usize,
    pub total: usize,
}

/// `n` spaces.
pub open spec fn spaces(n: nat) -> Seq<char> {
    Seq::new(n, |i: int| ' ')
}

/// `s` followed by spaces up to width `w`.
pub open spec fn pad_right(s: Seq<char>, w: nat) -> Seq<char> {
    if s.len() >= w {
        s
    } else {
        s + spaces((w - s.len()) as nat)
    }
}

/// Spaces up to width `w`, then `s`.
pub open spec fn pad_left(s: Seq<char>, w: nat) -> Seq<char> {
    if s.len() >= w {
        s
    } else {
        spaces((w - s.len()) as nat) + s
    }
}

/// A count as the table shows it.
pub open spec fn shown(n: nat) -> Seq<char> {
    group_thousands(decimal(n))
}

/// One table row: the name left-aligned, then files, blank, comment, code and
/// total right-aligned, each cell padded to its width and cells joined by `sep`.
pub open spec fn table_row(lang: Seq<char>, c: Tally, w: ColWidths, sep: Seq<char>) -> Seq<char> {
    pad_right(lang, w.lang as nat) + sep + pad_left(shown(c.files), w.files as nat) + sep + pad_left(
        shown(c.blank),
        w.blank as nat,
    ) + sep + pad_left(shown(c.comment), w.comm as nat) + sep + pad_left(shown(c.code), w.code as nat)
        + sep + pad_left(shown(c.total), w.total as nat)
}

/// Relies on `str::chars`: the characters of the string, in order.
#[verifier::external_body]
fn chars_of(s: &str) -> (r: Vec<char>)
    ensures
        r@ == s@,
{
    s.chars().collect()
}

fn append_chars(out: &mut Vec<char>, s: &Vec<char>)
    ensures
        final(out)@ == old(out)@ + s@,
{
    let ghost o = out@;
    let mut i: usize = 0;
    while i < s.len()
        invariant
            i <= s@.len(),
            out@ == o + s@.subrange(0, i as int),
        decreases s@.len() - i,
    {
        out.push(s[i]);
        assert(s@.subrange(0, i + 1) =~= s@.subrange(0, i as int).push(s@[i as int]));
        i = i + 1;
    }
    assert(s@.subrange(0, i as int) =~= s@);
}

fn append_spaces(out: &mut Vec<char>, n: usize)
    ensures
        final(out)@ == old(out)@ + spaces(n as nat),
{
    let ghost o = out@;
    let mut i: usize = 0;
    while i < n
        invariant
            i <= n,
            out@ == o + spaces(i as nat),
        decreases n - i,
    {
        out.push(' ');
        assert(spaces((i + 1) as nat) =~= spaces(i as nat).push(' '));
        i = i + 1;
    }
}

/// Appends `s` padded to width `w`: on the left when `right_align`, else on the right.
fn append_padded(out: &mut Vec<char>, s: &Vec<char>, w: usize, right_align: bool)
    ensures
        final(out)@ == old(out)@ + if right_align {
            pad_left(s@, w as nat)
        } else {
            pad_right(s@, w as nat)
        },
{
    let ghost o = out@;
    if s.len() >= w {
        append_chars(out, s);
    } else if right_align {
        append_spaces(out, w - s.len());
        append_chars(out, s);
        assert(out@ =~= o + (spaces((w - s@.len()) as nat) + s@));
    } else {
        append_chars(out, s);
        append_spaces(out, w - s.len());
        assert(out@ =~= o + (s@ + spaces((w - s@.len()) as nat)));
    }
}

fn shown_chars(n: usize) -> (r: Vec<char>)
    ensures
        r@ == shown(n as nat),
{
    let d = decimal_chars(n);
    assert(d@.subrange(0, d@.len() as int) =~= d@);
    group_prefix(&d, d.len())
}

/// One row of the per-language table.
pub fn format_row(lang: &str, c: &FileCounts, w: &ColWidths, sep: &str) -> (r: String)
    ensures
        r@ == table_row(lang@, c@, *w, sep@),
{
    let sep_chars = chars_of(sep);
    let mut out: Vec<char> = Vec::new();
    append_padded(&mut out, &chars_of(lang), w.lang, false);
    append_chars(&mut out, &sep_chars);
    append_padded(&mut out, &shown_chars(c.files), w.files, true);
    append_chars(&mut out, &sep_chars);
    append_padded(&mut out, &shown_chars(c.blank), w.blank, true);
    append_chars(&mut out, &sep_chars);
    append_padded(&mut out, &shown_chars(c.comment), w.comm, true);
    append_chars(&mut out, &sep_chars);
    append_padded(&mut out, &shown_chars(c.code), w.code, true);
    append_chars(&mut out, &sep_chars);
    append_padded(&mut out, &shown_chars(c.total), w.total, true);
    assert(out@ =~= table_row(lang@, c@, *w, sep@));
    string_from_chars(&out)
}

} // verus!
