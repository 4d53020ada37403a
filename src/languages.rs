//! Per-language identification and comment-marker data, and the registry
//! that checks it once and answers lookups.

use vstd::prelude::*;
use vstd::slice::slice_to_vec;
use vstd::utf8::encode_utf8;

use crate::bytes::{eq_ignore_case, is_blank, lemma_blank_iff_skip, same_ignoring_case, skip_space_from};
use crate::classifier::{MarkerSet, Markers};

verus! {

/// One language: its name, how files of it are recognised, and its comment
/// markers.
#[derive(Debug)]
pub struct LanguageSpec {
    pub name: String,
    pub extensions: Vec<String>,
    pub line_markers: Vec<String>,
    pub block_markers: Option<(String, String)>,
    pub special_filenames: Vec<String>,
}

/// One content rule of an ambiguous extension: when `pattern` occurs in the
/// first lines of a file, the file is `language`.
#[derive(Debug)]
pub struct SniffRule {
    pub pattern: String,
    pub language: String,
}

/// An extension that several languages share, told apart by content: the
/// rules are tried in order, and `default_language` applies when none matches.
#[derive(Debug)]
pub struct SniffGroup {
    pub extension: String,
    pub rules: Vec<SniffRule>,
    pub default_language: String,
}

/// Mathematical model of a [`LanguageSpec`].
#[verifier::ext_equal]
pub struct LanguageModel {
    pub name: Seq<char>,
    pub extensions: Seq<Seq<char>>,
    pub line_markers: Seq<Seq<char>>,
    pub block_markers: Option<(Seq<char>, Seq<char>)>,
    pub special_filenames: Seq<Seq<char>>,
}

impl View for LanguageSpec {
    type V = LanguageModel;

    open spec fn view(&self) -> LanguageModel {
        LanguageModel {
            name: self.name@,
            extensions: self.extensions@.map_values(|s: String| s@),
            line_markers: self.line_markers@.map_values(|s: String| s@),
            block_markers: match self.block_markers {
                Some((s, e)) => Some((s@, e@)),
                None => None,
            },
            special_filenames: self.special_filenames@.map_values(|s: String| s@),
        }
    }
}

/// Mathematical model of a [`SniffRule`]: pattern and language.
#[verifier::ext_equal]
pub struct RuleModel {
    pub pattern: Seq<char>,
    pub language: Seq<char>,
}

/// Mathematical model of a [`SniffGroup`].
#[verifier::ext_equal]
pub struct GroupModel {
    pub extension: Seq<char>,
    pub rules: Seq<RuleModel>,
    pub default_language: Seq<char>,
}

impl View for SniffGroup {
    type V = GroupModel;

    open spec fn view(&self) -> GroupModel {
        GroupModel {
            extension: self.extension@,
            rules: self.rules@.map_values(|r: SniffRule| RuleModel { pattern: r.pattern@, language: r.language@ }),
            default_language: self.default_language@,
        }
    }
}

/// Why a set of language specifications was refused.
#[derive(Debug, PartialEq, Eq)]
pub enum RegistryError {
    /// The language at this index has a blank name.
    EmptyName(usize),
    /// Two languages have this name.
    DuplicateName(String),
    /// Two entries claim this extension, which no content rule tells apart.
    DuplicateExtension(String),
    /// Two entries claim this special filename.
    DuplicateSpecialFilename(String),
    /// This language has a block marker pair with an empty start or end.
    EmptyBlockMarker(String),
    /// A content rule group names this language, which no entry has.
    UnknownLanguage(String),
}

/// The UTF-8 bytes of a string.
pub open spec fn utf8(s: String) -> Seq<u8> {
    encode_utf8(s@)
}

/// The extensions (`special == false`) or special filenames (`special`) of a language.
pub open spec fn claims(l: LanguageSpec, special: bool) -> Seq<String> {
    if special {
        l.special_filenames@
    } else {
        l.extensions@
    }
}

/// Entry `j` of language `i`'s extensions or special filenames.
pub open spec fn claim_at(specs: Seq<LanguageSpec>, special: bool, i: int, j: int) -> Seq<u8> {
    utf8(claims(specs[i], special)[j])
}

/// `(i, j)` names an entry of language `i`.
pub open spec fn valid_claim(specs: Seq<LanguageSpec>, special: bool, i: int, j: int) -> bool {
    0 <= i < specs.len() && 0 <= j < claims(specs[i], special).len()
}

/// An extension that a content rule group covers.
pub open spec fn is_sniffed(groups: Seq<SniffGroup>, ext: Seq<u8>) -> bool {
    exists|g: int| 0 <= g < groups.len() && same_ignoring_case(utf8(#[trigger] groups[g].extension), ext)
}

/// Two distinct entries that may not both stand: they are equal up to ASCII
/// case, and are not an extension that a content rule group covers.
pub open spec fn conflict(
    specs: Seq<LanguageSpec>,
    groups: Seq<SniffGroup>,
    special: bool,
    i1: int,
    j1: int,
    i2: int,
    j2: int,
) -> bool {
    &&& valid_claim(specs, special, i1, j1)
    &&& valid_claim(specs, special, i2, j2)
    &&& (i1, j1) != (i2, j2)
    &&& same_ignoring_case(claim_at(specs, special, i1, j1), claim_at(specs, special, i2, j2))
    &&& (special || !is_sniffed(groups, claim_at(specs, special, i1, j1)))
}

/// No two entries conflict.
pub open spec fn no_conflict(specs: Seq<LanguageSpec>, groups: Seq<SniffGroup>, special: bool) -> bool {
    forall|i1: int, j1: int, i2: int, j2: int|
        !#[trigger] conflict(specs, groups, special, i1, j1, i2, j2)
}

/// Every name is non-blank and no two languages share one.
pub open spec fn names_valid(specs: Seq<LanguageSpec>) -> bool {
    &&& forall|i: int| 0 <= i < specs.len() ==> !is_blank(utf8(#[trigger] specs[i].name))
    &&& forall|i1: int, i2: int|
        0 <= i1 < i2 < specs.len() ==> (#[trigger] specs[i1]).name@ != (#[trigger] specs[i2]).name@
}

/// A block marker pair, if any, has a non-empty start and end.
pub open spec fn block_valid(l: LanguageSpec) -> bool {
    l.block_markers matches Some((s, e)) ==> s@.len() > 0 && e@.len() > 0
}

/// Names are present and distinct, and block markers are not empty.
pub open spec fn names_and_blocks_valid(specs: Seq<LanguageSpec>) -> bool {
    names_valid(specs) && forall|i: int| 0 <= i < specs.len() ==> block_valid(#[trigger] specs[i])
}

/// Some language is named `name`.
pub open spec fn names_language(specs: Seq<LanguageSpec>, name: Seq<char>) -> bool {
    exists|i: int| 0 <= i < specs.len() && (#[trigger] specs[i]).name@ == name
}

/// Every language that a content rule group names, as a rule's or as the
/// default, is in the registry.
pub open spec fn group_valid(specs: Seq<LanguageSpec>, g: SniffGroup) -> bool {
    &&& names_language(specs, g.default_language@)
    &&& forall|r: int| 0 <= r < g.rules@.len() ==> names_language(specs, (#[trigger] g.rules@[r]).language@)
}

/// What the registry demands of its languages.
pub open spec fn specs_valid(specs: Seq<LanguageSpec>, groups: Seq<SniffGroup>) -> bool {
    &&& names_valid(specs)
    &&& no_conflict(specs, groups, false)
    &&& no_conflict(specs, groups, true)
    &&& forall|i: int| 0 <= i < specs.len() ==> block_valid(#[trigger] specs[i])
    &&& forall|g: int| 0 <= g < groups.len() ==> group_valid(specs, #[trigger] groups[g])
}

/// The checked, read-only table of languages.
pub struct LanguageRegistry {
    specs: Vec<LanguageSpec>,
    groups: Vec<SniffGroup>,
}

impl LanguageRegistry {
    /// The languages, in registry order.
    pub closed spec fn specs(&self) -> Seq<LanguageSpec> {
        self.specs@
    }

    /// The content rule groups.
    pub closed spec fn groups(&self) -> Seq<SniffGroup> {
        self.groups@
    }

    /// The languages meet what the registry demands.
    pub open spec fn wf(&self) -> bool {
        specs_valid(self.specs(), self.groups())
    }

    /// The languages, in registry order.
    pub fn languages(&self) -> (r: &Vec<LanguageSpec>)
        ensures
            r@ == self.specs(),
    {
        &self.specs
    }

    /// The content rule groups.
    pub fn sniff_groups(&self) -> (r: &Vec<SniffGroup>)
        ensures
            r@ == self.groups(),
    {
        &self.groups
    }
}

fn string_bytes(s: &String) -> (r: &[u8])
    ensures
        r@ == utf8(*s),
{
    s.as_str().as_bytes()
}

fn claims_exec(l: &LanguageSpec, special: bool) -> (r: &Vec<String>)
    ensures
        r@ == claims(*l, special),
{
    if special {
        &l.special_filenames
    } else {
        &l.extensions
    }
}

fn is_sniffed_exec(groups: &Vec<SniffGroup>, ext: &[u8]) -> (r: bool)
    ensures
        r == is_sniffed(groups@, ext@),
{
    let mut g: usize = 0;
    while g < groups.len()
        invariant
            g <= groups@.len(),
            forall|t: int| 0 <= t < g ==> !same_ignoring_case(utf8(#[trigger] groups@[t].extension), ext@),
        decreases groups@.len() - g,
    {
        if eq_ignore_case(string_bytes(&groups[g].extension), ext) {
            return true;
        }
        g = g + 1;
    }
    false
}

/// Whether entry `(i, j)` conflicts with an entry before it (an earlier
/// language, or an earlier entry of the same language).
fn conflicts_with_earlier(
    specs: &Vec<LanguageSpec>,
    groups: &Vec<SniffGroup>,
    special: bool,
    i: usize,
    j: usize,
) -> (r: Option<(usize, usize)>)
    requires
        valid_claim(specs@, special, i as int, j as int),
    ensures
        r is None <==> forall|i2: int, j2: int|
            (i2 < i || (i2 == i && j2 < j)) ==> !#[trigger] conflict(
                specs@,
                groups@,
                special,
                i as int,
                j as int,
                i2,
                j2,
            ),
        r matches Some((i2, j2)) ==> conflict(specs@, groups@, special, i as int, j as int, i2 as int, j2 as int),
{
    let target = string_bytes(&claims_exec(&specs[i], special)[j]);
    if !special && is_sniffed_exec(groups, target) {
        return None;
    }
    let n = specs.len();
    let mut i2: usize = 0;
    while i2 <= i
        invariant
            i2 <= i + 1,
            i < specs@.len(),
            n == specs@.len(),
            valid_claim(specs@, special, i as int, j as int),
            target@ == claim_at(specs@, special, i as int, j as int),
            special || !is_sniffed(groups@, target@),
            forall|a: int, b: int|
                a < i2 && (a < i || (a == i && b < j)) ==> !#[trigger] conflict(
                    specs@,
                    groups@,
                    special,
                    i as int,
                    j as int,
                    a,
                    b,
                ),
        decreases i + 1 - i2,
    {
        let list = claims_exec(&specs[i2], special);
        let end = if i2 < i {
            list.len()
        } else {
            j
        };
        let mut j2: usize = 0;
        while j2 < end
            invariant
                j2 <= end,
                end <= list@.len(),
                i2 <= i,
                i < specs@.len(),
                list@ == claims(specs@[i2 as int], special),
                end == (if i2 < i { list@.len() } else { j as nat }),
                valid_claim(specs@, special, i as int, j as int),
                target@ == claim_at(specs@, special, i as int, j as int),
                special || !is_sniffed(groups@, target@),
                forall|a: int, b: int|
                    a < i2 && (a < i || (a == i && b < j)) ==> !#[trigger] conflict(
                        specs@,
                        groups@,
                        special,
                        i as int,
                        j as int,
                        a,
                        b,
                    ),
                forall|b: int|
                    0 <= b < j2 ==> !#[trigger] conflict(
                        specs@,
                        groups@,
                        special,
                        i as int,
                        j as int,
                        i2 as int,
                        b,
                    ),
            decreases end - j2,
        {
            if eq_ignore_case(target, string_bytes(&list[j2])) {
                assert(conflict(specs@, groups@, special, i as int, j as int, i2 as int, j2 as int));
                assert(i2 < i || (i2 == i && j2 < j));
                return Some((i2, j2));
            }
            j2 = j2 + 1;
        }
        i2 = i2 + 1;
    }
    None
}

proof fn lemma_conflict_symmetric(
    specs: Seq<LanguageSpec>,
    groups: Seq<SniffGroup>,
    special: bool,
    i1: int,
    j1: int,
    i2: int,
    j2: int,
)
    ensures
        conflict(specs, groups, special, i1, j1, i2, j2) == conflict(
            specs,
            groups,
            special,
            i2,
            j2,
            i1,
            j1,
        ),
{
    let a = claim_at(specs, special, i1, j1);
    let b = claim_at(specs, special, i2, j2);
    if same_ignoring_case(a, b) {
        assert(is_sniffed(groups, a) == is_sniffed(groups, b)) by {
            if is_sniffed(groups, a) {
                let g = choose|g: int| 0 <= g < groups.len() && same_ignoring_case(utf8(#[trigger] groups[g].extension), a);
                assert(same_ignoring_case(utf8(groups[g].extension), b));
            }
            if is_sniffed(groups, b) {
                let g = choose|g: int| 0 <= g < groups.len() && same_ignoring_case(utf8(#[trigger] groups[g].extension), b);
                assert(same_ignoring_case(utf8(groups[g].extension), a));
            }
        }
    }
}

/// The first entry, in registry order, that conflicts with an earlier one.
fn first_conflict(specs: &Vec<LanguageSpec>, groups: &Vec<SniffGroup>, special: bool) -> (r: Option<
    (usize, usize, usize, usize),
>)
    ensures
        r is None <==> no_conflict(specs@, groups@, special),
        r matches Some((i, j, c, d)) ==> conflict(
            specs@,
            groups@,
            special,
            i as int,
            j as int,
            c as int,
            d as int,
        ),
{
    let mut i: usize = 0;
    while i < specs.len()
        invariant
            i <= specs@.len(),
            forall|a: int, b: int, c: int, d: int|
                a < i && (c < a || (c == a && d < b)) ==> !#[trigger] conflict(
                    specs@,
                    groups@,
                    special,
                    a,
                    b,
                    c,
                    d,
                ),
        decreases specs@.len() - i,
    {
        let list = claims_exec(&specs[i], special);
        let mut j: usize = 0;
        while j < list.len()
            invariant
                i < specs@.len(),
                j <= list@.len(),
                list@ == claims(specs@[i as int], special),
                forall|a: int, b: int, c: int, d: int|
                    (a < i || (a == i && b < j)) && (c < a || (c == a && d < b))
                        ==> !#[trigger] conflict(specs@, groups@, special, a, b, c, d),
            decreases list@.len() - j,
        {
            match conflicts_with_earlier(specs, groups, special, i, j) {
                Some((c, d)) => {
                    return Some((i, j, c, d));
                },
                None => {},
            }
            j = j + 1;
        }
        assert forall|a: int, b: int, c: int, d: int|
            a < i + 1 && (c < a || (c == a && d < b)) implies !#[trigger] conflict(
                specs@,
                groups@,
                special,
                a,
                b,
                c,
                d,
            ) by {
            if a == i && b >= j {
                assert(!valid_claim(specs@, special, a, b));
            }
        }
        i = i + 1;
    }
    assert forall|a: int, b: int, c: int, d: int| !#[trigger] conflict(specs@, groups@, special, a, b, c, d) by {
        lemma_conflict_symmetric(specs@, groups@, special, a, b, c, d);
        if conflict(specs@, groups@, special, a, b, c, d) {
            if !(c < a || (c == a && d < b)) {
                assert(a < c || (a == c && b < d));
                assert(conflict(specs@, groups@, special, c, d, a, b));
            }
        }
    }
    None
}

/// The first language index whose name is blank, duplicates an earlier name,
/// or has an empty block marker, with which of the three.
fn first_bad_language(specs: &Vec<LanguageSpec>) -> (r: Option<(usize, RegistryError)>)
    ensures
        r is None <==> names_valid(specs@) && forall|i: int|
            0 <= i < specs@.len() ==> block_valid(#[trigger] specs@[i]),
        r matches Some((i, e)) ==> i < specs@.len() && match e {
            RegistryError::EmptyName(k) => k == i && is_blank(utf8(specs@[i as int].name)),
            RegistryError::DuplicateName(n) => n@ == specs@[i as int].name@ && exists|i2: int|
                0 <= i2 < i && (#[trigger] specs@[i2]).name@ == n@,
            RegistryError::EmptyBlockMarker(n) => n@ == specs@[i as int].name@ && !block_valid(
                specs@[i as int],
            ),
            _ => false,
        },
{
    let mut i: usize = 0;
    while i < specs.len()
        invariant
            i <= specs@.len(),
            forall|t: int| 0 <= t < i ==> !is_blank(utf8(#[trigger] specs@[t].name)),
            forall|t1: int, t2: int|
                0 <= t1 < t2 < i ==> (#[trigger] specs@[t1]).name@ != (#[trigger] specs@[t2]).name@,
            forall|t: int| 0 <= t < i ==> block_valid(#[trigger] specs@[t]),
        decreases specs@.len() - i,
    {
        let l = &specs[i];
        let name = string_bytes(&l.name);
        proof {
            lemma_blank_iff_skip(name@, 0);
            assert(name@.subrange(0, name@.len() as int) =~= name@);
        }
        if skip_space_from(name, 0) == name.len() {
            return Some((i, RegistryError::EmptyName(i)));
        }
        let mut i2: usize = 0;
        while i2 < i
            invariant
                i2 <= i,
                i < specs@.len(),
                l == specs@[i as int],
                forall|t: int| 0 <= t < i2 ==> (#[trigger] specs@[t]).name@ != l.name@,
            decreases i - i2,
        {
            if specs[i2].name == l.name {
                return Some((i, RegistryError::DuplicateName(l.name.clone())));
            }
            i2 = i2 + 1;
        }
        match &l.block_markers {
            Some((s, e)) => {
                if s.as_str().is_empty() || e.as_str().is_empty() {
                    return Some((i, RegistryError::EmptyBlockMarker(l.name.clone())));
                }
            },
            None => {},
        }
        i = i + 1;
    }
    None
}

fn has_language(specs: &Vec<LanguageSpec>, name: &String) -> (r: bool)
    ensures
        r == names_language(specs@, name@),
{
    let mut i: usize = 0;
    while i < specs.len()
        invariant
            i <= specs@.len(),
            forall|t: int| 0 <= t < i ==> (#[trigger] specs@[t]).name@ != name@,
        decreases specs@.len() - i,
    {
        if specs[i].name == *name {
            return true;
        }
        i = i + 1;
    }
    false
}

/// A language that a group names and the registry lacks, if any.
fn first_unknown_language(specs: &Vec<LanguageSpec>, groups: &Vec<SniffGroup>) -> (r: Option<String>)
    ensures
        r is None <==> forall|g: int| 0 <= g < groups@.len() ==> group_valid(specs@, #[trigger] groups@[g]),
        r matches Some(n) ==> !names_language(specs@, n@),
{
    let mut g: usize = 0;
    while g < groups.len()
        invariant
            g <= groups@.len(),
            forall|t: int| 0 <= t < g ==> group_valid(specs@, #[trigger] groups@[t]),
        decreases groups@.len() - g,
    {
        let group = &groups[g];
        if !has_language(specs, &group.default_language) {
            return Some(group.default_language.clone());
        }
        let mut r: usize = 0;
        while r < group.rules.len()
            invariant
                r <= group.rules@.len(),
                g < groups@.len(),
                *group == groups@[g as int],
                forall|t: int| 0 <= t < r ==> names_language(specs@, (#[trigger] group.rules@[t]).language@),
            decreases group.rules@.len() - r,
        {
            if !has_language(specs, &group.rules[r].language) {
                return Some(group.rules[r].language.clone());
            }
            r = r + 1;
        }
        g = g + 1;
    }
    None
}

impl LanguageRegistry {
    /// Checks the languages and builds the registry. Refused when a name is
    /// blank or repeated, when two entries claim the same extension (up to
    /// ASCII case) that no group of `groups` covers, when two entries claim
    /// the same special filename, when a block marker is empty, or when a
    /// group names a language that no entry has.
    pub fn from_specs(specs: Vec<LanguageSpec>, groups: Vec<SniffGroup>) -> (r: Result<
        LanguageRegistry,
        RegistryError,
    >)
        ensures
            r is Ok <==> specs_valid(specs@, groups@),
            r matches Ok(reg) ==> reg.specs() == specs@ && reg.groups() == groups@,
            !names_and_blocks_valid(specs@) ==> (r matches Err(RegistryError::EmptyName(_))
                || r matches Err(RegistryError::DuplicateName(_)) || r matches Err(
                RegistryError::EmptyBlockMarker(_),
            )),
            names_and_blocks_valid(specs@) && !no_conflict(specs@, groups@, false) ==> r matches Err(
                RegistryError::DuplicateExtension(_),
            ),
            names_and_blocks_valid(specs@) && no_conflict(specs@, groups@, false) && !no_conflict(
                specs@,
                groups@,
                true,
            ) ==> r matches Err(RegistryError::DuplicateSpecialFilename(_)),
            names_and_blocks_valid(specs@) && no_conflict(specs@, groups@, false) && no_conflict(
                specs@,
                groups@,
                true,
            ) && !(forall|g: int| 0 <= g < groups@.len() ==> group_valid(specs@, #[trigger] groups@[g]))
                ==> r matches Err(RegistryError::UnknownLanguage(_)),
            r matches Err(RegistryError::UnknownLanguage(n)) ==> !names_language(specs@, n@),
            r matches Err(RegistryError::EmptyName(i)) ==> i < specs@.len() && is_blank(
                utf8(specs@[i as int].name),
            ),
            r matches Err(RegistryError::DuplicateName(n)) ==> exists|i1: int, i2: int|
                0 <= i1 < i2 < specs@.len() && (#[trigger] specs@[i1]).name@ == n@ && (
                #[trigger] specs@[i2]).name@ == n@,
            r matches Err(RegistryError::EmptyBlockMarker(n)) ==> exists|i: int|
                0 <= i < specs@.len() && !block_valid(#[trigger] specs@[i]) && specs@[i].name@
                    == n@,
            r matches Err(RegistryError::DuplicateExtension(x)) ==> exists|
                i1: int,
                j1: int,
                i2: int,
                j2: int,
            |
                #[trigger] conflict(specs@, groups@, false, i1, j1, i2, j2) && specs@[i1].extensions@[j1]@
                    == x@,
            r matches Err(RegistryError::DuplicateSpecialFilename(x)) ==> exists|
                i1: int,
                j1: int,
                i2: int,
                j2: int,
            |
                #[trigger] conflict(specs@, groups@, true, i1, j1, i2, j2)
                    && specs@[i1].special_filenames@[j1]@ == x@,
    {
        match first_bad_language(&specs) {
            Some((_i, e)) => {
                return Err(e);
            },
            None => {},
        }
        match first_conflict(&specs, &groups, false) {
            Some((i, j, _, _)) => {
                return Err(RegistryError::DuplicateExtension(specs[i].extensions[j].clone()));
            },
            None => {},
        }
        match first_conflict(&specs, &groups, true) {
            Some((i, j, _, _)) => {
                return Err(RegistryError::DuplicateSpecialFilename(specs[i].special_filenames[j].clone()));
            },
            None => {},
        }
        match first_unknown_language(&specs, &groups) {
            Some(n) => {
                return Err(RegistryError::UnknownLanguage(n));
            },
            None => {},
        }
        Ok(LanguageRegistry { specs, groups })
    }
}

/// The index of the first language named `name`, from index `i` on.
pub open spec fn first_named(specs: Seq<LanguageSpec>, name: Seq<char>, i: int) -> Option<int>
    decreases specs.len() - i,
{
    if i < 0 || i >= specs.len() {
        None
    } else if specs[i].name@ == name {
        Some(i)
    } else {
        first_named(specs, name, i + 1)
    }
}

/// The comment markers of a language, as bytes.
pub open spec fn markers_of_spec(l: LanguageSpec) -> Markers {
    Markers {
        line: l.line_markers@.map_values(|m: String| utf8(m)),
        block: match l.block_markers {
            Some((s, e)) => Some((utf8(s), utf8(e))),
            None => None,
        },
    }
}

/// The markers used for the language named `name`: none at all when the
/// registry does not hold it.
pub open spec fn markers_for_name(specs: Seq<LanguageSpec>, name: Seq<char>) -> Markers {
    match first_named(specs, name, 0) {
        Some(i) => markers_of_spec(specs[i]),
        None => Markers { line: Seq::empty(), block: None },
    }
}

fn string_to_bytes(s: &String) -> (r: Vec<u8>)
    ensures
        r@ == utf8(*s),
{
    slice_to_vec(s.as_str().as_bytes())
}

/// The comment markers of one language, as bytes.
pub fn marker_set_of(l: &LanguageSpec) -> (r: MarkerSet)
    ensures
        r@ == markers_of_spec(*l),
{
    let mut line: Vec<Vec<u8>> = Vec::new();
    let mut i: usize = 0;
    while i < l.line_markers.len()
        invariant
            i <= l.line_markers@.len(),
            line@.len() == i,
            forall|t: int| 0 <= t < i ==> (#[trigger] line@[t])@ == utf8(l.line_markers@[t]),
        decreases l.line_markers@.len() - i,
    {
        line.push(string_to_bytes(&l.line_markers[i]));
        i = i + 1;
    }
    let block = match &l.block_markers {
        Some((s, e)) => Some((string_to_bytes(s), string_to_bytes(e))),
        None => None,
    };
    let r = MarkerSet { line_markers: line, block_markers: block };
    assert(r@.line =~= markers_of_spec(*l).line);
    r
}

impl LanguageRegistry {
    /// The markers for the language named `name`; a name that the registry
    /// does not hold (a built-in special filename, say) has none, so each
    /// non-blank line of it is code.
    pub fn markers_for(&self, name: &str) -> (r: MarkerSet)
        ensures
            r@ == markers_for_name(self.specs(), name@),
    {
        let specs = &self.specs;
        let target = name.to_owned();
        let mut i: usize = 0;
        while i < specs.len()
            invariant
                i <= specs@.len(),
                specs@ == self.specs(),
                target@ == name@,
                first_named(specs@, name@, i as int) == first_named(specs@, name@, 0),
            decreases specs@.len() - i,
        {
            if specs[i].name == target {
                return marker_set_of(&specs[i]);
            }
            i = i + 1;
        }
        let r = MarkerSet { line_markers: Vec::new(), block_markers: None };
        assert(r@.line =~= Seq::<Seq<u8>>::empty());
        r
    }
}

} // verus!
