//! What the traversal is told to keep or skip: the extension allow-list
//! (`rs, .PY,js` names `rs`, `py` and `js`) and the patterns of a custom
//! ignore file.

use vstd::prelude::*;

use crate::bytes::{
    is_blank, is_space, is_space_byte, lemma_blank_iff_skip, lower_bytes,
    matches_at_exec, skip_space, skip_space_from, split_at_byte, to_lower_vec, NEWLINE,
};

verus! {

/// `,`.
pub const COMMA: u8 = 44;

/// `.`.
pub const DOT: u8 = 46;

/// The end of `s[lo..end]` once trailing ASCII whitespace is dropped.
pub open spec fn trim_end(s: Seq<u8>, lo: int, end: int) -> int
    decreases end - lo,
{
    if lo < end && is_space(s[end - 1]) {
        trim_end(s, lo, end - 1)
    } else {
        end
    }
}

/// The first index at or after `i` that is not a dot, before `end`.
pub open spec fn skip_dots(s: Seq<u8>, i: int, end: int) -> int
    decreases end - i,
{
    if 0 <= i < end && s[i] == DOT {
        skip_dots(s, i + 1, end)
    } else {
        i
    }
}

/// One list item as an extension: trimmed of ASCII whitespace, without
/// leading dots, in ASCII lower case.
pub open spec fn normalize_item(p: Seq<u8>) -> Seq<u8> {
    let a = skip_space(p, 0);
    let e = trim_end(p, a, p.len() as int);
    lower_bytes(p.subrange(skip_dots(p, a, e), e))
}

/// The extensions of the items that are not blank, in order.
pub open spec fn extensions_of_items(items: Seq<Seq<u8>>) -> Seq<Seq<u8>>
    decreases items.len(),
{
    if items.len() == 0 {
        Seq::empty()
    } else if is_blank(items.last()) {
        extensions_of_items(items.drop_last())
    } else {
        extensions_of_items(items.drop_last()).push(normalize_item(items.last()))
    }
}

/// The extensions a comma-separated allow-list names.
pub open spec fn extension_list(list: Seq<u8>) -> Seq<Seq<u8>> {
    extensions_of_items(split_at_byte(list, COMMA))
}

/// The extension of one item, or `None` for a blank item.
fn normalize_exec(p: &[u8]) -> (r: Option<Vec<u8>>)
    ensures
        is_blank(p@) ==> r is None,
        !is_blank(p@) ==> (r matches Some(v) && v@ == normalize_item(p@)),
{
    let a = skip_space_from(p, 0);
    proof {
        lemma_blank_iff_skip(p@, 0);
        assert(p@.subrange(0, p@.len() as int) =~= p@);
    }
    if a == p.len() {
        return None;
    }
    let mut e = p.len();
    while e > a && is_space_byte(p[e - 1])
        invariant
            a <= e <= p@.len(),
            trim_end(p@, a as int, e as int) == trim_end(p@, a as int, p@.len() as int),
        decreases e - a,
    {
        e = e - 1;
    }
    let mut d = a;
    while d < e && p[d] == DOT
        invariant
            a <= d <= e,
            e <= p@.len(),
            skip_dots(p@, d as int, e as int) == skip_dots(p@, a as int, e as int),
        decreases e - d,
    {
        d = d + 1;
    }
    Some(to_lower_vec(&p[d..e]))
}

/// The extensions that a comma-separated allow-list names: each item not
/// blank, trimmed of ASCII whitespace, without leading dots, in ASCII lower
/// case.
pub fn parse_extension_list(list: &[u8]) -> (r: Vec<Vec<u8>>)
    ensures
        r@.map_values(|v: Vec<u8>| v@) == extension_list(list@),
{
    let mut out: Vec<Vec<u8>> = Vec::new();
    let ghost mut done: Seq<Seq<u8>> = Seq::empty();
    let mut start: usize = 0;
    let mut i: usize = 0;
    assert(list@.subrange(0, 0) =~= Seq::<u8>::empty());
    assert(done.push(list@.subrange(0, 0)) =~= seq![Seq::<u8>::empty()]);
    while i < list.len()
        invariant
            start <= i <= list@.len(),
            split_at_byte(list@.subrange(0, i as int), COMMA) == done.push(list@.subrange(start as int, i as int)),
            out@.map_values(|v: Vec<u8>| v@) == extensions_of_items(done),
        decreases list@.len() - i,
    {
        let ghost prefix = list@.subrange(0, i as int);
        assert(list@.subrange(0, i + 1).drop_last() =~= prefix);
        if list[i] == COMMA {
            let piece = &list[start..i];
            match normalize_exec(piece) {
                Some(v) => {
                    out.push(v);
                },
                None => {},
            }
            proof {
                let old_done = done;
                done = done.push(list@.subrange(start as int, i as int));
                assert(done.drop_last() =~= old_done);
                assert(list@.subrange(i + 1, i + 1) =~= Seq::<u8>::empty());
                assert(out@.map_values(|v: Vec<u8>| v@) =~= extensions_of_items(done));
            }
            start = i + 1;
        } else {
            assert(list@.subrange(start as int, i + 1) =~= list@.subrange(start as int, i as int).push(list@[i as int]));
            assert(done.push(list@.subrange(start as int, i as int)).update(done.len() as int, list@.subrange(start as int, i + 1))
                =~= done.push(list@.subrange(start as int, i + 1)));
        }
        i = i + 1;
    }
    let piece = &list[start..i];
    match normalize_exec(piece) {
        Some(v) => {
            out.push(v);
        },
        None => {},
    }
    proof {
        assert(list@.subrange(0, i as int) =~= list@);
        let all = done.push(list@.subrange(start as int, i as int));
        assert(all.drop_last() =~= done);
        assert(out@.map_values(|v: Vec<u8>| v@) =~= extensions_of_items(all));
    }
    out
}

/// `#`.
pub const HASH: u8 = 35;

/// `p` without leading and trailing ASCII whitespace.
pub open spec fn trim(p: Seq<u8>) -> Seq<u8> {
    let a = skip_space(p, 0);
    p.subrange(a, trim_end(p, a, p.len() as int))
}

/// The trimmed lines that are neither empty nor comments (`#...`), in order.
pub open spec fn patterns_of_lines(lines: Seq<Seq<u8>>) -> Seq<Seq<u8>>
    decreases lines.len(),
{
    if lines.len() == 0 {
        Seq::empty()
    } else {
        let t = trim(lines.last());
        if t.len() == 0 || t[0] == HASH {
            patterns_of_lines(lines.drop_last())
        } else {
            patterns_of_lines(lines.drop_last()).push(t)
        }
    }
}

/// The patterns of an ignore file's text.
pub open spec fn ignore_patterns_of(text: Seq<u8>) -> Seq<Seq<u8>> {
    patterns_of_lines(split_at_byte(text, NEWLINE))
}

/// The pattern of one line, or `None` for a blank or comment line.
fn pattern_of_line(p: &[u8]) -> (r: Option<Vec<u8>>)
    ensures
        match r {
            Some(v) => trim(p@).len() > 0 && trim(p@)[0] != HASH && v@ == trim(p@),
            None => trim(p@).len() == 0 || trim(p@)[0] == HASH,
        },
{
    let a = skip_space_from(p, 0);
    let mut e = p.len();
    while e > a && is_space_byte(p[e - 1])
        invariant
            a <= e <= p@.len(),
            trim_end(p@, a as int, e as int) == trim_end(p@, a as int, p@.len() as int),
        decreases e - a,
    {
        e = e - 1;
    }
    if e == a || p[a] == HASH {
        return None;
    }
    Some(vstd::slice::slice_to_vec(&p[a..e]))
}

/// The patterns of a custom ignore file: each line trimmed of ASCII
/// whitespace, leaving out empty lines and lines that start with `#`.
pub fn ignore_patterns(text: &[u8]) -> (r: Vec<Vec<u8>>)
    ensures
        r@.map_values(|v: Vec<u8>| v@) == ignore_patterns_of(text@),
{
    let mut out: Vec<Vec<u8>> = Vec::new();
    let ghost mut done: Seq<Seq<u8>> = Seq::empty();
    let mut start: usize = 0;
    let mut i: usize = 0;
    assert(text@.subrange(0, 0) =~= Seq::<u8>::empty());
    assert(done.push(text@.subrange(0, 0)) =~= seq![Seq::<u8>::empty()]);
    while i < text.len()
        invariant
            start <= i <= text@.len(),
            split_at_byte(text@.subrange(0, i as int), NEWLINE) == done.push(text@.subrange(start as int, i as int)),
            out@.map_values(|v: Vec<u8>| v@) == patterns_of_lines(done),
        decreases text@.len() - i,
    {
        assert(text@.subrange(0, i + 1).drop_last() =~= text@.subrange(0, i as int));
        if text[i] == NEWLINE {
            match pattern_of_line(&text[start..i]) {
                Some(v) => {
                    out.push(v);
                },
                None => {},
            }
            proof {
                let old_done = done;
                done = done.push(text@.subrange(start as int, i as int));
                assert(done.drop_last() =~= old_done);
                assert(text@.subrange(i + 1, i + 1) =~= Seq::<u8>::empty());
                assert(out@.map_values(|v: Vec<u8>| v@) =~= patterns_of_lines(done));
            }
            start = i + 1;
        } else {
            assert(text@.subrange(start as int, i + 1) =~= text@.subrange(start as int, i as int).push(text@[i as int]));
            assert(done.push(text@.subrange(start as int, i as int)).update(done.len() as int, text@.subrange(start as int, i + 1))
                =~= done.push(text@.subrange(start as int, i + 1)));
        }
        i = i + 1;
    }
    match pattern_of_line(&text[start..i]) {
        Some(v) => {
            out.push(v);
        },
        None => {},
    }
    proof {
        assert(text@.subrange(0, i as int) =~= text@);
        let all = done.push(text@.subrange(start as int, i as int));
        assert(all.drop_last() =~= done);
        assert(out@.map_values(|v: Vec<u8>| v@) =~= patterns_of_lines(all));
    }
    out
}

/// The size lies within the bounds that are set.
pub open spec fn size_ok(size: u64, min: Option<u64>, max: Option<u64>) -> bool {
    &&& (min matches Some(lo) ==> size >= lo)
    &&& (max matches Some(hi) ==> size <= hi)
}

/// The views of byte vectors.
pub open spec fn byte_views(v: Seq<Vec<u8>>) -> Seq<Seq<u8>> {
    v.map_values(|x: Vec<u8>| x@)
}

/// Whether the traversal keeps a file: with an allow-list, its extension in
/// lower case must be on it (a file without extension is dropped); when its
/// size is known, the size must lie within the bounds.
pub open spec fn keeps(
    ext: Option<Seq<u8>>,
    allowed: Option<Seq<Seq<u8>>>,
    size: Option<u64>,
    min: Option<u64>,
    max: Option<u64>,
) -> bool {
    &&& (allowed matches Some(a) ==> (ext matches Some(e) && a.contains(lower_bytes(e))))
    &&& (size matches Some(sz) ==> size_ok(sz, min, max))
}

fn same_bytes(a: &[u8], b: &[u8]) -> (r: bool)
    ensures
        r == (a@ == b@),
{
    if a.len() != b.len() {
        return false;
    }
    let m = matches_at_exec(a, b, 0);
    assert(a@.subrange(0, a@.len() as int) =~= a@);
    m
}

fn list_contains(list: &Vec<Vec<u8>>, x: &[u8]) -> (r: bool)
    ensures
        r == byte_views(list@).contains(x@),
{
    let mut i: usize = 0;
    while i < list.len()
        invariant
            i <= list@.len(),
            forall|t: int| 0 <= t < i ==> (#[trigger] list@[t])@ != x@,
        decreases list@.len() - i,
    {
        if same_bytes(list[i].as_slice(), x) {
            assert(byte_views(list@)[i as int] == x@);
            return true;
        }
        i = i + 1;
    }
    assert(!byte_views(list@).contains(x@)) by {
        if byte_views(list@).contains(x@) {
            let j = choose|j: int| 0 <= j < byte_views(list@).len() && byte_views(list@)[j] == x@;
            assert(list@[j]@ == x@);
        }
    }
    false
}

/// Decides whether the traversal keeps a file with extension `ext`, given
/// the allow-list (lower case, as [`parse_extension_list`] gives it), the
/// file's size if it was read, and the size bounds.
pub fn keep_entry(
    ext: Option<&[u8]>,
    allowed: Option<&Vec<Vec<u8>>>,
    size: Option<u64>,
    min: Option<u64>,
    max: Option<u64>,
) -> (r: bool)
    ensures
        r == keeps(
            match ext {
                Some(e) => Some(e@),
                None => None,
            },
            match allowed {
                Some(a) => Some(byte_views(a@)),
                None => None,
            },
            size,
            min,
            max,
        ),
{
    match allowed {
        Some(a) => match ext {
            Some(e) => {
                let lower = to_lower_vec(e);
                if !list_contains(a, lower.as_slice()) {
                    return false;
                }
            },
            None => {
                return false;
            },
        },
        None => {},
    }
    match size {
        Some(sz) => {
            let lo_ok = match min {
                Some(lo) => sz >= lo,
                None => true,
            };
            let hi_ok = match max {
                Some(hi) => sz <= hi,
                None => true,
            };
            lo_ok && hi_ok
        },
        None => true,
    }
}

} // verus!
