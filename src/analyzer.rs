//! Counting one file's lines: resolve its language, then classify its bytes
//! with that language's markers.

use vstd::prelude::*;

use crate::classifier::{classify_bytes, file_tally, MarkerSet, Markers};
use crate::languages::{markers_for_name, LanguageRegistry};
use crate::resolver::{lit, resolve_language};
use crate::types::{FileCounts, Tally};

verus! {

/// The markers used for a file of language `lang`; a file of no known
/// language has none.
pub open spec fn markers_for_language(
    specs: Seq<crate::languages::LanguageSpec>,
    lang: Option<Seq<char>>,
) -> Markers {
    match lang {
        Some(n) => markers_for_name(specs, n),
        None => Markers { line: Seq::empty(), block: None },
    }
}

/// Counts the lines of `bytes`, the contents of a file named `file_name`
/// (a path hint: nothing is read from disk), under the markers of the
/// language that the name and the contents resolve to.
pub fn analyze_bytes(reg: &LanguageRegistry, file_name: &str, bytes: &[u8]) -> (r: FileCounts)
    ensures
        r@ == file_tally(
            bytes@,
            markers_for_language(
                reg.specs(),
                resolve_language(reg.specs(), reg.groups(), lit(file_name), bytes@),
            ),
        ),
{
    let markers = match reg.resolve(file_name, bytes) {
        Some(lang) => reg.markers_for(lang.as_str()),
        None => {
            let m = MarkerSet { line_markers: Vec::new(), block_markers: None };
            assert(m@.line =~= Seq::<Seq<u8>>::empty());
            m
        },
    };
    classify_bytes(bytes, &markers)
}

/// What the scan does with one file.
#[derive(Clone, Copy, Debug, PartialEq, Eq, Structural)]
pub enum FileOutcome {
    /// No language was found: the file is counted as ignored.
    Ignored,
    /// The file is empty and empty files are skipped.
    Skipped,
    /// The file's lines are counted.
    Counted,
}

/// Decides what the scan does with a file.
pub fn file_outcome(resolved: bool, is_empty: bool, skip_empty: bool) -> (r: FileOutcome)
    ensures
        r == (if !resolved {
            FileOutcome::Ignored
        } else if is_empty && skip_empty {
            FileOutcome::Skipped
        } else {
            FileOutcome::Counted
        }),
{
    if !resolved {
        FileOutcome::Ignored
    } else if is_empty && skip_empty {
        FileOutcome::Skipped
    } else {
        FileOutcome::Counted
    }
}

/// The counts a file contributes: those of its bytes, or all zero (no file
/// at all) when it is empty and empty files are skipped.
pub fn counts_with_policy(bytes: &[u8], markers: &MarkerSet, skip_empty: bool) -> (r: FileCounts)
    ensures
        skip_empty && bytes@.len() == 0 ==> r@ == Tally::zero(),
        !(skip_empty && bytes@.len() == 0) ==> r@ == file_tally(bytes@, markers@),
{
    if skip_empty && bytes.len() == 0 {
        FileCounts::default()
    } else {
        classify_bytes(bytes, markers)
    }
}

/// Statistics of one scan.
#[derive(Clone, Copy, Debug, PartialEq, Eq)]
pub struct ScanStats {
    /// Files found by the traversal.
    pub total_files: usize,
    /// Files whose language was found.
    pub unique_files: usize,
    /// Files whose language was not found.
    pub ignored_files: usize,
    /// Empty files of a known language.
    pub empty_files: usize,
}

impl ScanStats {
    /// Nothing counted yet.
    pub fn new() -> (r: ScanStats)
        ensures
            r.total_files == 0 && r.unique_files == 0 && r.ignored_files == 0 && r.empty_files == 0,
    {
        ScanStats { total_files: 0, unique_files: 0, ignored_files: 0, empty_files: 0 }
    }

    /// Records one file found by the traversal.
    pub fn record(&mut self, resolved: bool, is_empty: bool)
        requires
            old(self).total_files < usize::MAX,
            old(self).unique_files < usize::MAX,
            old(self).ignored_files < usize::MAX,
            old(self).empty_files < usize::MAX,
        ensures
            final(self).total_files == old(self).total_files + 1,
            final(self).ignored_files == old(self).ignored_files + if resolved {
                0int
            } else {
                1int
            },
            final(self).unique_files == old(self).unique_files + if resolved {
                1int
            } else {
                0int
            },
            final(self).empty_files == old(self).empty_files + if resolved && is_empty {
                1int
            } else {
                0int
            },
    {
        self.total_files = self.total_files + 1;
        if resolved {
            self.unique_files = self.unique_files + 1;
            if is_empty {
                self.empty_files = self.empty_files + 1;
            }
        } else {
            self.ignored_files = self.ignored_files + 1;
        }
    }

    /// Adds the statistics of another worker's share.
    pub fn merge(&mut self, other: &ScanStats)
        requires
            old(self).total_files + other.total_files <= usize::MAX,
            old(self).unique_files + other.unique_files <= usize::MAX,
            old(self).ignored_files + other.ignored_files <= usize::MAX,
            old(self).empty_files + other.empty_files <= usize::MAX,
        ensures
            final(self).total_files == old(self).total_files + other.total_files,
            final(self).unique_files == old(self).unique_files + other.unique_files,
            final(self).ignored_files == old(self).ignored_files + other.ignored_files,
            final(self).empty_files == old(self).empty_files + other.empty_files,
    {
        self.total_files = self.total_files + other.total_files;
        self.unique_files = self.unique_files + other.unique_files;
        self.ignored_files = self.ignored_files + other.ignored_files;
        self.empty_files = self.empty_files + other.empty_files;
    }
}

} // verus!
