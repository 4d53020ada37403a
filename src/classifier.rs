//! The per-line classification state machine, and a classifier that takes
//! a byte stream in chunks of any size.

use vstd::prelude::*;

use crate::bytes::{
    find_exec, find_from, is_blank, lemma_blank_iff_skip, lemma_find_from, lemma_skip_space,
    matches_at, matches_at_exec, skip_space, skip_space_from, split_at_byte, CARRIAGE_RETURN,
    NEWLINE,
};
use crate::types::{FileCounts, Tally};

verus! {

/// How one line is counted.
#[derive(Clone, Copy, Debug, PartialEq, Eq, Structural)]
pub enum LineKind {
    Code,
    Comment,
    Blank,
}

/// The classifier's state between lines: outside any block comment, or
/// inside one that the block end marker of the marker set in use closes.
#[derive(Clone, Copy, Debug, PartialEq, Eq, Structural)]
pub enum BlockState {
    Normal,
    InBlock,
}

/// The comment markers of one language, as bytes.
#[derive(Debug)]
pub struct MarkerSet {
    /// Prefixes that make a line a comment, tried in order.
    pub line_markers: Vec<Vec<u8>>,
    /// Start and end of a block comment, if the language has one.
    pub block_markers: Option<(Vec<u8>, Vec<u8>)>,
}

/// Mathematical model of a [`MarkerSet`].
pub struct Markers {
    pub line: Seq<Seq<u8>>,
    pub block: Option<(Seq<u8>, Seq<u8>)>,
}

impl View for MarkerSet {
    type V = Markers;

    open spec fn view(&self) -> Markers {
        Markers {
            line: self.line_markers@.map_values(|v: Vec<u8>| v@),
            block: match self.block_markers {
                Some((s, e)) => Some((s@, e@)),
                None => None,
            },
        }
    }
}

/// A line's content: the line without one trailing carriage return.
pub open spec fn line_content(line: Seq<u8>) -> Seq<u8> {
    if line.len() > 0 && line.last() == CARRIAGE_RETURN {
        line.drop_last()
    } else {
        line
    }
}

/// Some line marker is a prefix of the content trimmed from index `k`.
pub open spec fn starts_with_line_marker(c: Seq<u8>, k: int, line: Seq<Seq<u8>>) -> bool {
    exists|idx: int| 0 <= idx < line.len() && matches_at(c, #[trigger] line[idx], k)
}

/// Classifies one line (without its newline) in state `st`: the kind of the
/// line and the state for the next one.
pub open spec fn classify_line(line: Seq<u8>, st: BlockState, m: Markers) -> (LineKind, BlockState) {
    let c = line_content(line);
    let k = skip_space(c, 0);
    if k == c.len() {
        (LineKind::Blank, st)
    } else {
        match m.block {
            Some((s, e)) => {
                if st == BlockState::InBlock {
                    match find_from(c, e, k) {
                        Some(j) => (
                            if is_blank(c.subrange(j + e.len(), c.len() as int)) {
                                LineKind::Comment
                            } else {
                                LineKind::Code
                            },
                            BlockState::Normal,
                        ),
                        None => (LineKind::Comment, BlockState::InBlock),
                    }
                } else {
                    match find_from(c, s, k) {
                        Some(i) => match find_from(c, e, i + s.len()) {
                            Some(j) => (
                                if is_blank(c.subrange(k, i)) && is_blank(
                                    c.subrange(j + e.len(), c.len() as int),
                                ) {
                                    LineKind::Comment
                                } else {
                                    LineKind::Code
                                },
                                BlockState::Normal,
                            ),
                            None => (
                                if is_blank(c.subrange(k, i)) {
                                    LineKind::Comment
                                } else {
                                    LineKind::Code
                                },
                                BlockState::InBlock,
                            ),
                        },
                        None => (
                            if starts_with_line_marker(c, k, m.line) {
                                LineKind::Comment
                            } else {
                                LineKind::Code
                            },
                            BlockState::Normal,
                        ),
                    }
                }
            },
            None => (
                if starts_with_line_marker(c, k, m.line) {
                    LineKind::Comment
                } else {
                    LineKind::Code
                },
                BlockState::Normal,
            ),
        }
    }
}

fn starts_with_line_marker_exec(c: &[u8], k: usize, markers: &MarkerSet) -> (r: bool)
    requires
        k <= c@.len(),
    ensures
        r == starts_with_line_marker(c@, k as int, markers@.line),
{
    let ghost line = markers@.line;
    let mut idx: usize = 0;
    while idx < markers.line_markers.len()
        invariant
            idx <= markers.line_markers@.len(),
            k <= c@.len(),
            line == markers@.line,
            forall|t: int| 0 <= t < idx ==> !matches_at(c@, #[trigger] line[t], k as int),
        decreases markers.line_markers@.len() - idx,
    {
        let m = markers.line_markers[idx].as_slice();
        assert(m@ == line[idx as int]);
        if m.len() <= c.len() - k && matches_at_exec(c, m, k) {
            return true;
        }
        idx = idx + 1;
    }
    false
}

/// Executable counterpart of [`classify_line`].
pub fn classify_line_bytes(line: &[u8], st: BlockState, markers: &MarkerSet) -> (r: (
    LineKind,
    BlockState,
))
    ensures
        r == classify_line(line@, st, markers@),
{
    let len = line.len();
    let n = if len > 0 && line[len - 1] == CARRIAGE_RETURN {
        len - 1
    } else {
        len
    };
    let c = &line[0..n];
    assert(c@ == line_content(line@)) by {
        assert(line@.drop_last() =~= line@.subrange(0, len - 1));
        assert(line@ =~= line@.subrange(0, len as int));
    }
    let k = skip_space_from(c, 0);
    proof {
        lemma_skip_space(c@, 0);
    }
    if k == c.len() {
        return (LineKind::Blank, st);
    }
    match &markers.block_markers {
        Some((s, e)) => {
            let s = s.as_slice();
            let e = e.as_slice();
            if st == BlockState::InBlock {
                match find_exec(c, e, k) {
                    Some(j) => {
                        proof {
                            lemma_find_from(c@, e@, k as int);
                            lemma_blank_iff_skip(c@, j + e@.len());
                        }
                        let after = skip_space_from(c, j + e.len());
                        if after == c.len() {
                            (LineKind::Comment, BlockState::Normal)
                        } else {
                            (LineKind::Code, BlockState::Normal)
                        }
                    },
                    None => (LineKind::Comment, BlockState::InBlock),
                }
            } else {
                match find_exec(c, s, k) {
                    Some(i) => {
                        proof {
                            lemma_find_from(c@, s@, k as int);
                        }
                        let before_blank = i == k;
                        assert(before_blank == is_blank(c@.subrange(k as int, i as int))) by {
                            if i > k {
                                assert(c@.subrange(k as int, i as int)[0] == c@[k as int]);
                            }
                        }
                        match find_exec(c, e, i + s.len()) {
                            Some(j) => {
                                proof {
                                    lemma_find_from(c@, e@, i + s@.len());
                                    lemma_blank_iff_skip(c@, j + e@.len());
                                }
                                let after = skip_space_from(c, j + e.len());
                                if before_blank && after == c.len() {
                                    (LineKind::Comment, BlockState::Normal)
                                } else {
                                    (LineKind::Code, BlockState::Normal)
                                }
                            },
                            None => {
                                if before_blank {
                                    (LineKind::Comment, BlockState::InBlock)
                                } else {
                                    (LineKind::Code, BlockState::InBlock)
                                }
                            },
                        }
                    },
                    None => {
                        if starts_with_line_marker_exec(c, k, markers) {
                            (LineKind::Comment, BlockState::Normal)
                        } else {
                            (LineKind::Code, BlockState::Normal)
                        }
                    },
                }
            }
        },
        None => {
            if starts_with_line_marker_exec(c, k, markers) {
                (LineKind::Comment, BlockState::Normal)
            } else {
                (LineKind::Code, BlockState::Normal)
            }
        },
    }
}

/// The lines of `b`: each run of bytes ended by a newline, and a final run
/// that the end of the bytes ends, when it is not empty.
pub open spec fn lines_of(b: Seq<u8>) -> Seq<Seq<u8>> {
    let p = split_at_byte(b, NEWLINE);
    if p.last().len() == 0 {
        p.drop_last()
    } else {
        p
    }
}

/// Classifies `lines` in order, starting outside any block comment: the kind
/// of each line and the state after the last one.
pub open spec fn run_lines(lines: Seq<Seq<u8>>, m: Markers) -> (Seq<LineKind>, BlockState)
    decreases lines.len(),
{
    if lines.len() == 0 {
        (Seq::empty(), BlockState::Normal)
    } else {
        let prev = run_lines(lines.drop_last(), m);
        let step = classify_line(lines.last(), prev.1, m);
        (prev.0.push(step.0), step.1)
    }
}

/// How many of `ks` are `k`.
pub open spec fn count_kind(ks: Seq<LineKind>, k: LineKind) -> nat
    decreases ks.len(),
{
    if ks.len() == 0 {
        0
    } else {
        count_kind(ks.drop_last(), k) + if ks.last() == k {
            1nat
        } else {
            0nat
        }
    }
}

/// The counts of one file whose lines have the kinds `ks`.
pub open spec fn tally_of_kinds(ks: Seq<LineKind>) -> Tally {
    Tally {
        files: 1,
        total: ks.len(),
        code: count_kind(ks, LineKind::Code),
        comment: count_kind(ks, LineKind::Comment),
        blank: count_kind(ks, LineKind::Blank),
    }
}

/// The kind of each line of `bytes` under the markers `m`.
pub open spec fn line_kinds(bytes: Seq<u8>, m: Markers) -> Seq<LineKind> {
    run_lines(lines_of(bytes), m).0
}

/// The counts of one file with contents `bytes` under the markers `m`.
pub open spec fn file_tally(bytes: Seq<u8>, m: Markers) -> Tally {
    tally_of_kinds(line_kinds(bytes, m))
}

proof fn lemma_run_len(lines: Seq<Seq<u8>>, m: Markers)
    ensures
        run_lines(lines, m).0.len() == lines.len(),
    decreases lines.len(),
{
    if lines.len() > 0 {
        lemma_run_len(lines.drop_last(), m);
    }
}

proof fn lemma_count_sum(ks: Seq<LineKind>)
    ensures
        count_kind(ks, LineKind::Code) + count_kind(ks, LineKind::Comment) + count_kind(
            ks,
            LineKind::Blank,
        ) == ks.len(),
    decreases ks.len(),
{
    if ks.len() > 0 {
        lemma_count_sum(ks.drop_last());
    }
}

/// Every file's counts satisfy `total == code + comment + blank`.
pub proof fn lemma_file_tally_consistent(bytes: Seq<u8>, m: Markers)
    ensures
        file_tally(bytes, m).consistent(),
        file_tally(bytes, m).files == 1,
{
    lemma_count_sum(line_kinds(bytes, m));
}

/// An empty file counts as one file with no lines.
pub proof fn lemma_empty_file(m: Markers)
    ensures
        file_tally(Seq::empty(), m) == (Tally { files: 1, total: 0, code: 0, comment: 0, blank: 0 }),
{
    assert(lines_of(Seq::empty()) =~= Seq::<Seq<u8>>::empty());
}

proof fn lemma_find_none_from(h: Seq<u8>, n: Seq<u8>, i: int, k: int)
    requires
        0 <= i <= k,
        find_from(h, n, i) is None,
    ensures
        find_from(h, n, k) is None,
    decreases k - i,
{
    if i < k {
        if !(i + n.len() > h.len()) {
            lemma_find_none_from(h, n, i + 1, k);
        } else {
            assert(find_from(h, n, k) is None);
        }
    }
}

/// Once a block comment is open, each following line in which the end
/// marker does not occur counts as comment, or as blank when it holds only
/// whitespace, and the comment stays open: an unterminated block comment
/// runs to the end of the file.
pub proof fn lemma_unterminated_block(prev: Seq<Seq<u8>>, lines: Seq<Seq<u8>>, m: Markers)
    requires
        m.block is Some,
        run_lines(prev, m).1 == BlockState::InBlock,
        forall|i: int|
            0 <= i < lines.len() ==> find_from(line_content(#[trigger] lines[i]), m.block->Some_0.1, 0) is None,
    ensures
        run_lines(prev + lines, m).1 == BlockState::InBlock,
        run_lines(prev + lines, m).0.len() == prev.len() + lines.len(),
        forall|i: int|
            0 <= i < lines.len() ==> run_lines(prev + lines, m).0[prev.len() + i] == if is_blank(
                line_content(#[trigger] lines[i]),
            ) {
                LineKind::Blank
            } else {
                LineKind::Comment
            },
    decreases lines.len(),
{
    lemma_run_len(prev + lines, m);
    if lines.len() == 0 {
        assert(prev + lines =~= prev);
    } else {
        let init = lines.drop_last();
        let last = lines.last();
        assert forall|i: int| 0 <= i < init.len() implies find_from(
            line_content(#[trigger] init[i]),
            m.block->Some_0.1,
            0,
        ) is None by {
            assert(init[i] == lines[i]);
        }
        lemma_unterminated_block(prev, init, m);
        assert((prev + lines).drop_last() =~= prev + init);
        assert((prev + lines).last() == last);
        let c = line_content(last);
        let e = m.block->Some_0.1;
        let k = skip_space(c, 0);
        lemma_skip_space(c, 0);
        lemma_blank_iff_skip(c, 0);
        assert(c.subrange(0, c.len() as int) =~= c);
        assert(lines[lines.len() - 1] == last);
        lemma_find_none_from(c, e, 0, k);
        let ks0 = run_lines(prev + init, m).0;
        let k_last = classify_line(last, BlockState::InBlock, m).0;
        assert forall|i: int| 0 <= i < lines.len() implies run_lines(prev + lines, m).0[prev.len() + i]
            == if is_blank(line_content(#[trigger] lines[i])) {
            LineKind::Blank
        } else {
            LineKind::Comment
        } by {
            if i < init.len() {
                assert(init[i] == lines[i]);
                assert(ks0.push(k_last)[prev.len() + i] == ks0[prev.len() + i]);
            }
        }
    }
}

proof fn lemma_split_nonempty(b: Seq<u8>, sep: u8)
    ensures
        split_at_byte(b, sep).len() >= 1,
    decreases b.len(),
{
    if b.len() > 0 {
        lemma_split_nonempty(b.drop_last(), sep);
    }
}

/// After a newline (or at the start), splitting continues afresh.
proof fn lemma_split_concat(p: Seq<u8>, s: Seq<u8>)
    requires
        p.len() == 0 || p.last() == NEWLINE,
    ensures
        split_at_byte(p + s, NEWLINE) == split_at_byte(p, NEWLINE).drop_last() + split_at_byte(s, NEWLINE),
        split_at_byte(p, NEWLINE).last() == Seq::<u8>::empty(),
    decreases s.len(),
{
    lemma_split_nonempty(p, NEWLINE);
    if p.len() > 0 {
        lemma_split_nonempty(p.drop_last(), NEWLINE);
    }
    let a = split_at_byte(p, NEWLINE).drop_last();
    if s.len() == 0 {
        assert(p + s =~= p);
        assert(split_at_byte(s, NEWLINE) =~= seq![Seq::<u8>::empty()]);
        assert(split_at_byte(p, NEWLINE) =~= a + seq![Seq::<u8>::empty()]);
    } else {
        let s0 = s.drop_last();
        lemma_split_concat(p, s0);
        lemma_split_nonempty(s0, NEWLINE);
        assert((p + s).drop_last() =~= p + s0);
        assert((p + s).last() == s.last());
        let t = split_at_byte(s0, NEWLINE);
        if s.last() == NEWLINE {
            assert((a + t).push(Seq::empty()) =~= a + t.push(Seq::empty()));
        } else {
            assert((a + t).update((a + t).len() - 1, (a + t).last().push(s.last())) =~= a + t.update(
                t.len() - 1,
                t.last().push(s.last()),
            ));
        }
    }
}

/// The lines of `p + s`, where `p` ends with a newline or is empty, are
/// those of `p` followed by those of `s`.
pub proof fn lemma_lines_concat(p: Seq<u8>, s: Seq<u8>)
    requires
        p.len() == 0 || p.last() == NEWLINE,
    ensures
        lines_of(p + s) == lines_of(p) + lines_of(s),
{
    lemma_split_concat(p, s);
    lemma_split_nonempty(s, NEWLINE);
    let a = split_at_byte(p, NEWLINE).drop_last();
    let t = split_at_byte(s, NEWLINE);
    assert((a + t).last() == t.last());
    if t.last().len() == 0 {
        assert((a + t).drop_last() =~= a + t.drop_last());
    }
}

proof fn lemma_run_prefix(prev: Seq<Seq<u8>>, lines: Seq<Seq<u8>>, m: Markers)
    ensures
        run_lines(prev + lines, m).0.subrange(0, prev.len() as int) == run_lines(prev, m).0,
    decreases lines.len(),
{
    lemma_run_len(prev, m);
    lemma_run_len(prev + lines, m);
    if lines.len() == 0 {
        assert(prev + lines =~= prev);
        assert(run_lines(prev, m).0.subrange(0, prev.len() as int) =~= run_lines(prev, m).0);
    } else {
        lemma_run_prefix(prev, lines.drop_last(), m);
        assert((prev + lines).drop_last() =~= prev + lines.drop_last());
        let ks0 = run_lines(prev + lines.drop_last(), m).0;
        lemma_run_len(prev + lines.drop_last(), m);
        let k = classify_line((prev + lines).last(), run_lines(prev + lines.drop_last(), m).1, m).0;
        assert(ks0.push(k).subrange(0, prev.len() as int) =~= ks0.subrange(0, prev.len() as int));
    }
}

/// How a line counts inside a block comment that its line does not close.
pub open spec fn kind_in_open_block(l: Seq<u8>) -> LineKind {
    if is_blank(line_content(l)) {
        LineKind::Blank
    } else {
        LineKind::Comment
    }
}

/// An unterminated block comment, over bytes: when the bytes `p` end (with a
/// newline) inside an open block comment and no line of `s` holds the end
/// marker, each line of `s` counts as comment, or as blank when it holds only
/// whitespace, and the lines of `p` count as before.
pub proof fn lemma_unterminated_block_bytes(p: Seq<u8>, s: Seq<u8>, m: Markers)
    requires
        m.block is Some,
        p.len() == 0 || p.last() == NEWLINE,
        run_lines(lines_of(p), m).1 == BlockState::InBlock,
        forall|i: int|
            0 <= i < lines_of(s).len() ==> find_from(
                line_content(#[trigger] lines_of(s)[i]),
                m.block->Some_0.1,
                0,
            ) is None,
    ensures
        line_kinds(p + s, m) == line_kinds(p, m) + lines_of(s).map_values(|l: Seq<u8>| kind_in_open_block(l)),
        run_lines(lines_of(p + s), m).1 == BlockState::InBlock,
{
    lemma_lines_concat(p, s);
    let prev = lines_of(p);
    let ls = lines_of(s);
    lemma_unterminated_block(prev, ls, m);
    lemma_run_prefix(prev, ls, m);
    lemma_run_len(prev, m);
    let all = run_lines(prev + ls, m).0;
    let want = run_lines(prev, m).0 + ls.map_values(|l: Seq<u8>| kind_in_open_block(l));
    assert forall|i: int| 0 <= i < all.len() implies all[i] == want[i] by {
        if i < prev.len() {
            assert(all.subrange(0, prev.len() as int)[i] == all[i]);
        } else {
            assert(ls[i - prev.len()] == ls[i - prev.len()]);
            assert(all[prev.len() + (i - prev.len())] == kind_in_open_block(ls[i - prev.len()]));
        }
    }
    assert(all =~= want);
}

/// Counts the lines of a byte stream delivered in chunks of any size.
/// Where a chunk ends carries no meaning: the result depends only on all the
/// bytes fed, in order.
pub struct LineClassifier {
    state: BlockState,
    pending: Vec<u8>,
    counts: FileCounts,
    fed: Ghost<Seq<u8>>,
    done: Ghost<Seq<Seq<u8>>>,
    markers: Ghost<Markers>,
}

impl LineClassifier {
    /// All bytes fed so far.
    pub closed spec fn fed(&self) -> Seq<u8> {
        self.fed@
    }

    /// The markers the classifier was made for.
    pub closed spec fn markers(&self) -> Markers {
        self.markers@
    }

    /// The counts and state are those of the complete lines fed so far; the
    /// bytes after the last newline wait in `pending`.
    pub closed spec fn wf(&self) -> bool {
        &&& split_at_byte(self.fed@, NEWLINE) == self.done@.push(self.pending@)
        &&& self.done@.len() + self.pending@.len() <= self.fed@.len()
        &&& self.fed@.len() <= usize::MAX
        &&& self.counts@ == tally_of_kinds(run_lines(self.done@, self.markers@).0)
        &&& self.state == run_lines(self.done@, self.markers@).1
    }

    /// A classifier for a stream in the language of `markers`; pass the same
    /// markers to each later call.
    pub fn new(markers: &MarkerSet) -> (r: LineClassifier)
        ensures
            r.wf(),
            r.fed() == Seq::<u8>::empty(),
            r.markers() == markers@,
    {
        let r = LineClassifier {
            state: BlockState::Normal,
            pending: Vec::new(),
            counts: FileCounts::one_file(),
            fed: Ghost(Seq::empty()),
            done: Ghost(Seq::empty()),
            markers: Ghost(markers@),
        };
        assert(r.done@.push(r.pending@) =~= seq![Seq::<u8>::empty()]);
        r
    }

    /// Adds the kind of one completed line to the counts.
    fn count_line(&mut self, kind: LineKind)
        requires
            old(self).counts@.total + 1 <= usize::MAX,
            old(self).counts@.consistent(),
        ensures
            final(self).counts@ == (Tally {
                files: old(self).counts@.files,
                total: old(self).counts@.total + 1,
                code: old(self).counts@.code + if kind == LineKind::Code {
                    1nat
                } else {
                    0nat
                },
                comment: old(self).counts@.comment + if kind == LineKind::Comment {
                    1nat
                } else {
                    0nat
                },
                blank: old(self).counts@.blank + if kind == LineKind::Blank {
                    1nat
                } else {
                    0nat
                },
            }),
            final(self).state == old(self).state,
            final(self).pending == old(self).pending,
            final(self).fed == old(self).fed,
            final(self).done == old(self).done,
            final(self).markers == old(self).markers,
    {
        self.counts.total = self.counts.total + 1;
        match kind {
            LineKind::Code => self.counts.code = self.counts.code + 1,
            LineKind::Comment => self.counts.comment = self.counts.comment + 1,
            LineKind::Blank => self.counts.blank = self.counts.blank + 1,
        }
    }

    fn push_byte(&mut self, b: u8, markers: &MarkerSet)
        requires
            old(self).wf(),
            markers@ == old(self).markers(),
            old(self).fed().len() + 1 <= usize::MAX,
        ensures
            final(self).wf(),
            final(self).fed() == old(self).fed().push(b),
            final(self).markers() == old(self).markers(),
    {
        let ghost fed0 = self.fed@;
        let ghost done0 = self.done@;
        let ghost p0 = self.pending@;
        let ghost m = self.markers@;
        proof {
            lemma_count_sum(run_lines(done0, m).0);
            lemma_run_len(done0, m);
        }
        if b == NEWLINE {
            let (kind, next) = classify_line_bytes(self.pending.as_slice(), self.state, markers);
            self.count_line(kind);
            self.state = next;
            self.pending.clear();
            proof {
                self.done@ = done0.push(p0);
                self.fed@ = fed0.push(b);
                assert(self.fed@.drop_last() =~= fed0);
                assert(self.done@.drop_last() =~= done0);
                assert(self.done@.push(self.pending@) =~= done0.push(p0).push(Seq::empty()));
                let ks0 = run_lines(done0, m).0;
                assert(ks0.push(kind).drop_last() =~= ks0);
            }
        } else {
            self.pending.push(b);
            proof {
                self.fed@ = fed0.push(b);
                assert(self.fed@.drop_last() =~= fed0);
                assert(self.done@.push(self.pending@) =~= done0.push(p0).update(
                    done0.len() as int,
                    p0.push(b),
                ));
            }
        }
    }

    /// Feeds the next chunk of the stream.
    pub fn feed(&mut self, chunk: &[u8], markers: &MarkerSet)
        requires
            old(self).wf(),
            markers@ == old(self).markers(),
            old(self).fed().len() + chunk@.len() <= usize::MAX,
        ensures
            final(self).wf(),
            final(self).fed() == old(self).fed() + chunk@,
            final(self).markers() == old(self).markers(),
    {
        let ghost fed0 = self.fed();
        let mut i: usize = 0;
        while i < chunk.len()
            invariant
                i <= chunk@.len(),
                self.wf(),
                markers@ == self.markers(),
                self.markers() == old(self).markers(),
                fed0 == old(self).fed(),
                fed0.len() + chunk@.len() <= usize::MAX,
                self.fed() == fed0 + chunk@.subrange(0, i as int),
            decreases chunk@.len() - i,
        {
            self.push_byte(chunk[i], markers);
            assert(chunk@.subrange(0, i + 1) =~= chunk@.subrange(0, i as int).push(chunk@[i as int]));
            i = i + 1;
        }
        assert(chunk@.subrange(0, i as int) =~= chunk@);
    }

    /// The counts of everything fed so far, as one file; a final line
    /// without a newline counts too.
    pub fn finish(&self, markers: &MarkerSet) -> (r: FileCounts)
        requires
            self.wf(),
            markers@ == self.markers(),
        ensures
            r@ == file_tally(self.fed(), self.markers()),
    {
        let ghost m = self.markers@;
        let ghost done = self.done@;
        let ghost p = self.pending@;
        proof {
            lemma_count_sum(run_lines(done, m).0);
            lemma_run_len(done, m);
        }
        if self.pending.len() == 0 {
            proof {
                assert(done.push(p).drop_last() =~= done);
            }
            self.counts
        } else {
            let (kind, _next) = classify_line_bytes(self.pending.as_slice(), self.state, markers);
            let mut c = self.counts;
            c.total = c.total + 1;
            match kind {
                LineKind::Code => c.code = c.code + 1,
                LineKind::Comment => c.comment = c.comment + 1,
                LineKind::Blank => c.blank = c.blank + 1,
            }
            proof {
                assert(done.push(p).drop_last() =~= done);
                let ks0 = run_lines(done, m).0;
                assert(ks0.push(kind).drop_last() =~= ks0);
            }
            c
        }
    }
}

/// Counts the lines of `bytes` as one file.
pub fn classify_bytes(bytes: &[u8], markers: &MarkerSet) -> (r: FileCounts)
    ensures
        r@ == file_tally(bytes@, markers@),
{
    // A slice's length is a `usize`, which bounds what `feed` may take.
    let len = bytes.len();
    assert(len == bytes@.len());
    let mut lc = LineClassifier::new(markers);
    lc.feed(bytes, markers);
    assert(Seq::<u8>::empty() + bytes@ =~= bytes@);
    lc.finish(markers)
}

} // verus!
