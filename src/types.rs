//! Line tallies of files and of revision changes.

use vstd::prelude::*;

verus! {

/// Line tallies as unbounded naturals: the mathematical model of [`FileCounts`].
pub struct Tally {
    pub files: nat,
    pub total: nat,
    pub code: nat,
    pub comment: nat,
    pub blank: nat,
}

impl Tally {
    /// The identity of merging.
    pub open spec fn zero() -> Tally {
        Tally { files: 0, total: 0, code: 0, comment: 0, blank: 0 }
    }

    /// Pointwise sum: the monoid operation behind merging.
    pub open spec fn plus(self, o: Tally) -> Tally {
        Tally {
            files: self.files + o.files,
            total: self.total + o.total,
            code: self.code + o.code,
            comment: self.comment + o.comment,
            blank: self.blank + o.blank,
        }
    }

    /// Every field can be held in a `usize`.
    pub open spec fn fits(self) -> bool {
        &&& self.files <= usize::MAX
        &&& self.total <= usize::MAX
        &&& self.code <= usize::MAX
        &&& self.comment <= usize::MAX
        &&& self.blank <= usize::MAX
    }

    /// Every line is exactly one of code, comment or blank.
    pub open spec fn consistent(self) -> bool {
        self.total == self.code + self.comment + self.blank
    }
}

/// Per-file (or aggregated) counts of lines by kind.
#[derive(Clone, Copy, Debug, PartialEq, Eq)]
pub struct FileCounts {
    pub files: usize,
    pub total: usize,
    pub code: usize,
    pub comment: usize,
    pub blank: usize,
}

impl View for FileCounts {
    type V = Tally;

    open spec fn view(&self) -> Tally {
        Tally {
            files: self.files as nat,
            total: self.total as nat,
            code: self.code as nat,
            comment: self.comment as nat,
            blank: self.blank as nat,
        }
    }
}

impl Default for FileCounts {
    fn default() -> (r: FileCounts)
        ensures
            r@ == Tally::zero(),
    {
        FileCounts { files: 0, total: 0, code: 0, comment: 0, blank: 0 }
    }
}

impl FileCounts {
    /// The counts of one file before any line is read.
    pub fn one_file() -> (r: FileCounts)
        ensures
            r@ == (Tally { files: 1, total: 0, code: 0, comment: 0, blank: 0 }),
    {
        FileCounts { files: 1, total: 0, code: 0, comment: 0, blank: 0 }
    }

    /// Adds `other` into `self`, field by field.
    pub fn merge(&mut self, other: &FileCounts)
        requires
            old(self)@.plus(other@).fits(),
        ensures
            final(self)@ == old(self)@.plus(other@),
    {
        self.files = self.files + other.files;
        self.total = self.total + other.total;
        self.code = self.code + other.code;
        self.comment = self.comment + other.comment;
        self.blank = self.blank + other.blank;
    }
}

/// Merging is commutative.
pub proof fn lemma_merge_commutative(a: Tally, b: Tally)
    ensures
        a.plus(b) == b.plus(a),
{
}

/// Merging is associative, so any grouping of merges gives one result.
pub proof fn lemma_merge_associative(a: Tally, b: Tally, c: Tally)
    ensures
        a.plus(b).plus(c) == a.plus(b.plus(c)),
{
}

/// The all-zero tally is the identity of merging.
pub proof fn lemma_merge_identity(a: Tally)
    ensures
        a.plus(Tally::zero()) == a,
        Tally::zero().plus(a) == a,
{
}

/// Merging preserves `total == code + comment + blank`.
pub proof fn lemma_merge_consistent(a: Tally, b: Tally)
    requires
        a.consistent(),
        b.consistent(),
    ensures
        a.plus(b).consistent(),
{
}

/// Signed change of line counts between two revisions, summed over files.
#[derive(Clone, Copy, Debug, PartialEq, Eq)]
pub struct LineDelta {
    pub files: isize,
    pub code_added: isize,
    pub code_removed: isize,
    pub comment_added: isize,
    pub blank_added: isize,
    pub total_net: isize,
}

impl Default for LineDelta {
    fn default() -> (r: LineDelta)
        ensures
            r.files == 0 && r.code_added == 0 && r.code_removed == 0 && r.comment_added == 0
                && r.blank_added == 0 && r.total_net == 0,
    {
        LineDelta {
            files: 0,
            code_added: 0,
            code_removed: 0,
            comment_added: 0,
            blank_added: 0,
            total_net: 0,
        }
    }
}

/// The value fits in an `isize`.
pub open spec fn fits_isize(x: int) -> bool {
    isize::MIN <= x <= isize::MAX
}

/// How many code lines fell from `base` to `head`: zero when they did not.
pub open spec fn code_fall(base: usize, head: usize) -> int {
    if base > head {
        base - head
    } else {
        0
    }
}

impl LineDelta {
    /// Adds one file whose (code, comment, blank) counts went from `base` to
    /// `head`: one more file, each net change added in, and the code lines
    /// that fell (if any) added to `code_removed`.
    pub fn add_file_delta(&mut self, base: (usize, usize, usize), head: (usize, usize, usize))
        requires
            fits_isize(old(self).files + 1),
            fits_isize(old(self).code_added + head.0 - base.0),
            fits_isize(old(self).code_removed + code_fall(base.0, head.0)),
            fits_isize(old(self).comment_added + head.1 - base.1),
            fits_isize(old(self).blank_added + head.2 - base.2),
            head.0 + head.1 + head.2 <= isize::MAX,
            base.0 + base.1 + base.2 <= isize::MAX,
            fits_isize(old(self).total_net + (head.0 + head.1 + head.2) - (base.0 + base.1 + base.2)),
        ensures
            final(self).files == old(self).files + 1,
            final(self).code_added == old(self).code_added + head.0 - base.0,
            final(self).code_removed == old(self).code_removed + code_fall(base.0, head.0),
            final(self).comment_added == old(self).comment_added + head.1 - base.1,
            final(self).blank_added == old(self).blank_added + head.2 - base.2,
            final(self).total_net == old(self).total_net + (head.0 + head.1 + head.2) - (base.0 + base.1
                + base.2),
    {
        let (base_code, base_comment, base_blank) = base;
        let (head_code, head_comment, head_blank) = head;
        self.files = self.files + 1;
        self.code_added = self.code_added + (head_code as isize - base_code as isize);
        if base_code > head_code {
            self.code_removed = self.code_removed + (base_code as isize - head_code as isize);
        }
        self.comment_added = self.comment_added + (head_comment as isize - base_comment as isize);
        self.blank_added = self.blank_added + (head_blank as isize - base_blank as isize);
        let head_total = (head_code + head_comment + head_blank) as isize;
        let base_total = (base_code + base_comment + base_blank) as isize;
        self.total_net = self.total_net + (head_total - base_total);
    }
}

impl LineDelta {
    /// Adds the changes of `other`, field by field.
    pub fn merge(&mut self, other: &LineDelta)
        requires
            fits_isize(old(self).files + other.files),
            fits_isize(old(self).code_added + other.code_added),
            fits_isize(old(self).code_removed + other.code_removed),
            fits_isize(old(self).comment_added + other.comment_added),
            fits_isize(old(self).blank_added + other.blank_added),
            fits_isize(old(self).total_net + other.total_net),
        ensures
            final(self).files == old(self).files + other.files,
            final(self).code_added == old(self).code_added + other.code_added,
            final(self).code_removed == old(self).code_removed + other.code_removed,
            final(self).comment_added == old(self).comment_added + other.comment_added,
            final(self).blank_added == old(self).blank_added + other.blank_added,
            final(self).total_net == old(self).total_net + other.total_net,
    {
        self.files = self.files + other.files;
        self.code_added = self.code_added + other.code_added;
        self.code_removed = self.code_removed + other.code_removed;
        self.comment_added = self.comment_added + other.comment_added;
        self.blank_added = self.blank_added + other.blank_added;
        self.total_net = self.total_net + other.total_net;
    }
}

/// The change of one file between two revisions.
#[derive(Clone, Debug, Default)]
pub struct DiffPerFile {
    pub path: String,
    pub status: String,
    pub language: String,
    pub code_delta: isize,
    pub comment_delta: isize,
    pub blank_delta: isize,
    pub total_delta: isize,
}

/// Every count fits in an `isize`.
pub open spec fn counts_fit_isize(c: FileCounts) -> bool {
    c.total <= isize::MAX && c.code <= isize::MAX && c.comment <= isize::MAX && c.blank
        <= isize::MAX
}

impl DiffPerFile {
    /// The row of one file whose counts went from `base` to `head`.
    pub fn from_counts(
        path: String,
        status: String,
        language: String,
        base: &FileCounts,
        head: &FileCounts,
    ) -> (r: DiffPerFile)
        requires
            counts_fit_isize(*base),
            counts_fit_isize(*head),
        ensures
            r.path == path,
            r.status == status,
            r.language == language,
            r.code_delta == head.code - base.code,
            r.comment_delta == head.comment - base.comment,
            r.blank_delta == head.blank - base.blank,
            r.total_delta == head.total - base.total,
    {
        DiffPerFile {
            path,
            status,
            language,
            code_delta: head.code as isize - base.code as isize,
            comment_delta: head.comment as isize - base.comment as isize,
            blank_delta: head.blank as isize - base.blank as isize,
            total_delta: head.total as isize - base.total as isize,
        }
    }
}

} // verus!
