//! Which language a file is: by special filename, by extension, by content
//! for extensions that several languages share, and by shebang line.

use vstd::prelude::*;
use vstd::utf8::encode_utf8;

use crate::bytes::{
    contains, contains_exec, eq_ignore_case, find_exec, find_from, is_space, is_space_byte,
    lemma_find_from, lower_bytes, matches_at, matches_at_exec, same_ignoring_case,
    skip_space, skip_space_from, to_lower_vec, NEWLINE,
};
use crate::languages::{claims, utf8, LanguageRegistry, LanguageSpec, SniffGroup};

verus! {

/// How many lines of a file the content rules look at.
pub const SNIFF_LINES: usize = 50;

/// The UTF-8 bytes of a string slice.
pub open spec fn lit(s: &str) -> Seq<u8> {
    encode_utf8(s@)
}

/// Language `l` claims `key` among its extensions (`special == false`) or
/// special filenames (`special`), up to ASCII case.
pub open spec fn claims_key(l: LanguageSpec, special: bool, key: Seq<u8>) -> bool {
    exists|j: int|
        0 <= j < claims(l, special).len() && same_ignoring_case(
            utf8(#[trigger] claims(l, special)[j]),
            key,
        )
}

/// The first language at or after index `i` that claims `key`.
pub open spec fn first_claiming(specs: Seq<LanguageSpec>, special: bool, key: Seq<u8>, i: int) -> Option<int>
    decreases specs.len() - i,
{
    if i < 0 || i >= specs.len() {
        None
    } else if claims_key(specs[i], special, key) {
        Some(i)
    } else {
        first_claiming(specs, special, key, i + 1)
    }
}

/// Special filenames known without a registry entry.
pub open spec fn builtin_special(name: Seq<u8>) -> Option<Seq<char>> {
    if same_ignoring_case(name, lit("makefile")) {
        Some("Make"@)
    } else if same_ignoring_case(name, lit("dockerfile")) {
        Some("Dockerfile"@)
    } else if same_ignoring_case(name, lit("cmakelists.txt")) {
        Some("CMake"@)
    } else {
        None
    }
}

/// The language a file name gives by itself, as a special filename.
pub open spec fn special_language(specs: Seq<LanguageSpec>, name: Seq<u8>) -> Option<Seq<char>> {
    match first_claiming(specs, true, name, 0) {
        Some(i) => Some(specs[i].name@),
        None => builtin_special(name),
    }
}

/// The last index before `end` that holds byte `b`.
pub open spec fn rfind_byte(s: Seq<u8>, b: u8, end: int) -> Option<int>
    decreases end,
{
    if end <= 0 || end > s.len() {
        None
    } else if s[end - 1] == b {
        Some(end - 1)
    } else {
        rfind_byte(s, b, end - 1)
    }
}

/// The extension of a file name: what follows its last dot, where that dot
/// is not the name's first byte.
pub open spec fn extension_of(name: Seq<u8>) -> Option<Seq<u8>> {
    match rfind_byte(name, 46, name.len() as int) {
        Some(d) => if d == 0 {
            None
        } else {
            Some(name.subrange(d + 1, name.len() as int))
        },
        None => None,
    }
}

/// The first content rule group for extension `ext`, at or after index `g`.
pub open spec fn group_for(groups: Seq<SniffGroup>, ext: Seq<u8>, g: int) -> Option<int>
    decreases groups.len() - g,
{
    if g < 0 || g >= groups.len() {
        None
    } else if same_ignoring_case(utf8(groups[g].extension), ext) {
        Some(g)
    } else {
        group_for(groups, ext, g + 1)
    }
}

/// The language that the rules of `group` from index `r` on pick for `head`.
pub open spec fn sniff_from(group: SniffGroup, head: Seq<u8>, r: int) -> Seq<char>
    decreases group.rules@.len() - r,
{
    if r < 0 || r >= group.rules@.len() {
        group.default_language@
    } else if contains(head, utf8(group.rules@[r].pattern)) {
        group.rules@[r].language@
    } else {
        sniff_from(group, head, r + 1)
    }
}

/// The end of the first `n` lines of `b`, searching from index `i`.
pub open spec fn head_end(b: Seq<u8>, n: nat, i: int) -> int
    decreases b.len() - i,
{
    if i < 0 || i >= b.len() {
        b.len() as int
    } else if b[i] == NEWLINE {
        if n <= 1 {
            i + 1
        } else {
            head_end(b, (n - 1) as nat, i + 1)
        }
    } else {
        head_end(b, n, i + 1)
    }
}

/// The first lines of a file that the content rules look at.
pub open spec fn sniff_head(content: Seq<u8>) -> Seq<u8> {
    content.subrange(0, head_end(content, SNIFF_LINES as nat, 0))
}

/// The first line of a file, without its newline.
pub open spec fn first_line(content: Seq<u8>) -> Seq<u8> {
    match find_from(content, seq![NEWLINE], 0) {
        Some(i) => content.subrange(0, i),
        None => content,
    }
}

/// The end of the run of non-whitespace bytes that starts at `i`.
pub open spec fn token_end(s: Seq<u8>, i: int) -> int
    decreases s.len() - i,
{
    if 0 <= i < s.len() && !is_space(s[i]) {
        token_end(s, i + 1)
    } else {
        i
    }
}

/// `s` ends with `suffix`.
pub open spec fn ends_with(s: Seq<u8>, suffix: Seq<u8>) -> bool {
    suffix.len() <= s.len() && s.subrange(s.len() - suffix.len(), s.len() as int) == suffix
}

/// The interpreter command of a shebang line: its first word, or the second
/// one where the first names `env`.
pub open spec fn shebang_command(line: Seq<u8>) -> Option<Seq<u8>> {
    let k = skip_space(line, 0);
    if !matches_at(line, lit("#!"), k) {
        None
    } else {
        let s0 = skip_space(line, k + lit("#!").len());
        let e0 = token_end(line, s0);
        if s0 == e0 {
            None
        } else {
            let t0 = line.subrange(s0, e0);
            let s1 = skip_space(line, e0);
            let e1 = token_end(line, s1);
            if ends_with(t0, lit("env")) && s1 < e1 {
                Some(line.subrange(s1, e1))
            } else {
                Some(t0)
            }
        }
    }
}

/// The language of a lower-case interpreter command: the first of these
/// substrings that it contains decides.
pub open spec fn interpreter_language(c: Seq<u8>) -> Option<Seq<char>> {
    if contains(c, lit("python")) {
        Some("Python"@)
    } else if contains(c, lit("bash")) || contains(c, lit("sh")) || contains(c, lit("zsh")) || contains(
        c,
        lit("ksh"),
    ) || contains(c, lit("fish")) {
        Some("Shell"@)
    } else if contains(c, lit("node")) || contains(c, lit("deno")) {
        Some("JavaScript"@)
    } else if contains(c, lit("perl")) {
        Some("Perl"@)
    } else if contains(c, lit("ruby")) {
        Some("Ruby"@)
    } else if contains(c, lit("php")) {
        Some("PHP"@)
    } else {
        None
    }
}

/// The language that a shebang line names, if any.
pub open spec fn shebang_language(line: Seq<u8>) -> Option<Seq<char>> {
    match shebang_command(line) {
        Some(cmd) => interpreter_language(lower_bytes(cmd)),
        None => None,
    }
}

/// The language of a file with name `name` and contents `content`.
pub open spec fn resolve_language(
    specs: Seq<LanguageSpec>,
    groups: Seq<SniffGroup>,
    name: Seq<u8>,
    content: Seq<u8>,
) -> Option<Seq<char>> {
    match special_language(specs, name) {
        Some(l) => Some(l),
        None => match extension_of(name) {
            Some(ext) => match group_for(groups, ext, 0) {
                Some(g) => Some(sniff_from(groups[g], sniff_head(content), 0)),
                None => match first_claiming(specs, false, ext, 0) {
                    Some(i) => Some(specs[i].name@),
                    None => None,
                },
            },
            None => shebang_language(first_line(content)),
        },
    }
}

/// Whether the language of a file named `name` depends on its contents.
pub open spec fn content_needed(specs: Seq<LanguageSpec>, groups: Seq<SniffGroup>, name: Seq<u8>) -> bool {
    special_language(specs, name) is None && match extension_of(name) {
        Some(ext) => group_for(groups, ext, 0) is Some,
        None => true,
    }
}

/// Languages named the same in both ways.
pub open spec fn opt_view(r: Option<String>) -> Option<Seq<char>> {
    match r {
        Some(s) => Some(s@),
        None => None,
    }
}

fn owned(s: &str) -> (r: String)
    ensures
        r@ == s@,
{
    s.to_owned()
}

fn find_claiming(specs: &Vec<LanguageSpec>, special: bool, key: &[u8]) -> (r: Option<usize>)
    ensures
        match r {
            Some(i) => first_claiming(specs@, special, key@, 0) == Some(i as int),
            None => first_claiming(specs@, special, key@, 0) is None,
        },
{
    let mut i: usize = 0;
    while i < specs.len()
        invariant
            i <= specs@.len(),
            first_claiming(specs@, special, key@, i as int) == first_claiming(specs@, special, key@, 0),
        decreases specs@.len() - i,
    {
        let list = if special {
            &specs[i].special_filenames
        } else {
            &specs[i].extensions
        };
        let mut j: usize = 0;
        while j < list.len()
            invariant
                i < specs@.len(),
                j <= list@.len(),
                list@ == claims(specs@[i as int], special),
                first_claiming(specs@, special, key@, i as int) == first_claiming(specs@, special, key@, 0),
                forall|t: int| 0 <= t < j ==> !same_ignoring_case(utf8(#[trigger] list@[t]), key@),
            decreases list@.len() - j,
        {
            if eq_ignore_case(list[j].as_str().as_bytes(), key) {
                assert(claims_key(specs@[i as int], special, key@));
                assert(first_claiming(specs@, special, key@, i as int) == Some(i as int));
                return Some(i);
            }
            j = j + 1;
        }
        i = i + 1;
    }
    None
}

fn builtin_special_exec(name: &[u8]) -> (r: Option<String>)
    ensures
        opt_view(r) == builtin_special(name@),
{
    if eq_ignore_case(name, "makefile".as_bytes()) {
        Some(owned("Make"))
    } else if eq_ignore_case(name, "dockerfile".as_bytes()) {
        Some(owned("Dockerfile"))
    } else if eq_ignore_case(name, "cmakelists.txt".as_bytes()) {
        Some(owned("CMake"))
    } else {
        None
    }
}

fn rfind_byte_exec(s: &[u8], b: u8) -> (r: Option<usize>)
    ensures
        match r {
            Some(i) => rfind_byte(s@, b, s@.len() as int) == Some(i as int),
            None => rfind_byte(s@, b, s@.len() as int) is None,
        },
{
    let mut end = s.len();
    while end > 0
        invariant
            end <= s@.len(),
            rfind_byte(s@, b, end as int) == rfind_byte(s@, b, s@.len() as int),
        decreases end,
    {
        if s[end - 1] == b {
            return Some(end - 1);
        }
        end = end - 1;
    }
    None
}

/// Where the extension of a file name starts, if it has one.
fn extension_start(name: &[u8]) -> (r: Option<usize>)
    ensures
        match r {
            Some(i) => i <= name@.len() && extension_of(name@) == Some(
                name@.subrange(i as int, name@.len() as int),
            ),
            None => extension_of(name@) is None,
        },
{
    let n = name.len();
    match rfind_byte_exec(name, 46) {
        Some(d) => {
            proof {
                lemma_rfind(name@, 46, name@.len() as int);
            }
            if d == 0 {
                None
            } else {
                Some(d + 1)
            }
        },
        None => None,
    }
}

proof fn lemma_first_claiming(specs: Seq<LanguageSpec>, special: bool, key: Seq<u8>, i: int)
    ensures
        first_claiming(specs, special, key, i) matches Some(k) ==> 0 <= k < specs.len(),
    decreases specs.len() - i,
{
    if !(i < 0 || i >= specs.len()) && !claims_key(specs[i], special, key) {
        lemma_first_claiming(specs, special, key, i + 1);
    }
}

proof fn lemma_group_for(groups: Seq<SniffGroup>, ext: Seq<u8>, g: int)
    ensures
        group_for(groups, ext, g) matches Some(k) ==> 0 <= k < groups.len(),
    decreases groups.len() - g,
{
    if !(g < 0 || g >= groups.len()) && !same_ignoring_case(utf8(groups[g].extension), ext) {
        lemma_group_for(groups, ext, g + 1);
    }
}

proof fn lemma_rfind(s: Seq<u8>, b: u8, end: int)
    ensures
        rfind_byte(s, b, end) matches Some(i) ==> 0 <= i < end <= s.len() && s[i] == b,
    decreases end,
{
    if end > 0 && end <= s.len() && s[end - 1] != b {
        lemma_rfind(s, b, end - 1);
    }
}

fn group_for_exec(groups: &Vec<SniffGroup>, ext: &[u8]) -> (r: Option<usize>)
    ensures
        match r {
            Some(g) => group_for(groups@, ext@, 0) == Some(g as int),
            None => group_for(groups@, ext@, 0) is None,
        },
{
    let mut g: usize = 0;
    while g < groups.len()
        invariant
            g <= groups@.len(),
            group_for(groups@, ext@, g as int) == group_for(groups@, ext@, 0),
        decreases groups@.len() - g,
    {
        if eq_ignore_case(groups[g].extension.as_str().as_bytes(), ext) {
            return Some(g);
        }
        g = g + 1;
    }
    None
}

/// The language that the rules of `group` pick for the first lines `head`.
pub fn sniff(group: &SniffGroup, head: &[u8]) -> (r: String)
    ensures
        r@ == sniff_from(*group, head@, 0),
{
    let mut r: usize = 0;
    while r < group.rules.len()
        invariant
            r <= group.rules@.len(),
            sniff_from(*group, head@, r as int) == sniff_from(*group, head@, 0),
        decreases group.rules@.len() - r,
    {
        let rule = &group.rules[r];
        if contains_exec(head, rule.pattern.as_str().as_bytes()) {
            return rule.language.clone();
        }
        r = r + 1;
    }
    group.default_language.clone()
}

/// The length of the first `SNIFF_LINES` lines of `content`.
fn sniff_head_len(content: &[u8]) -> (r: usize)
    ensures
        r as int == head_end(content@, SNIFF_LINES as nat, 0),
        r <= content@.len(),
{
    let mut n: usize = SNIFF_LINES;
    let mut i: usize = 0;
    while i < content.len()
        invariant
            i <= content@.len(),
            1 <= n <= SNIFF_LINES,
            head_end(content@, n as nat, i as int) == head_end(content@, SNIFF_LINES as nat, 0),
        decreases content@.len() - i,
    {
        if content[i] == NEWLINE {
            if n <= 1 {
                return i + 1;
            }
            n = n - 1;
        }
        i = i + 1;
    }
    content.len()
}

fn token_end_exec(s: &[u8], start: usize) -> (r: usize)
    requires
        start <= s@.len(),
    ensures
        r as int == token_end(s@, start as int),
        start <= r <= s@.len(),
{
    let mut i = start;
    while i < s.len() && !is_space_byte(s[i])
        invariant
            start <= i <= s@.len(),
            token_end(s@, i as int) == token_end(s@, start as int),
        decreases s@.len() - i,
    {
        i = i + 1;
    }
    i
}

fn ends_with_exec(s: &[u8], suffix: &[u8]) -> (r: bool)
    ensures
        r == ends_with(s@, suffix@),
{
    if suffix.len() > s.len() {
        return false;
    }
    let start = s.len() - suffix.len();
    let m = matches_at_exec(s, suffix, start);
    assert(s@.len() - suffix@.len() + suffix@.len() == s@.len());
    m
}

/// The language of a lower-case interpreter name.
fn interpreter_language_exec(c: &[u8]) -> (r: Option<String>)
    ensures
        opt_view(r) == interpreter_language(c@),
{
    if contains_exec(c, "python".as_bytes()) {
        Some(owned("Python"))
    } else if contains_exec(c, "bash".as_bytes()) || contains_exec(c, "sh".as_bytes())
        || contains_exec(c, "zsh".as_bytes()) || contains_exec(c, "ksh".as_bytes())
        || contains_exec(c, "fish".as_bytes()) {
        Some(owned("Shell"))
    } else if contains_exec(c, "node".as_bytes()) || contains_exec(c, "deno".as_bytes()) {
        Some(owned("JavaScript"))
    } else if contains_exec(c, "perl".as_bytes()) {
        Some(owned("Perl"))
    } else if contains_exec(c, "ruby".as_bytes()) {
        Some(owned("Ruby"))
    } else if contains_exec(c, "php".as_bytes()) {
        Some(owned("PHP"))
    } else {
        None
    }
}

/// The language that a shebang line (`#!/usr/bin/env python3`) names.
pub fn parse_shebang(line: &[u8]) -> (r: Option<String>)
    ensures
        opt_view(r) == shebang_language(line@),
{
    let k = skip_space_from(line, 0);
    let bang = "#!".as_bytes();
    if bang.len() > line.len() - k || !matches_at_exec(line, bang, k) {
        return None;
    }
    let s0 = skip_space_from(line, k + bang.len());
    let e0 = token_end_exec(line, s0);
    if s0 == e0 {
        return None;
    }
    let t0 = &line[s0..e0];
    let s1 = skip_space_from(line, e0);
    let e1 = token_end_exec(line, s1);
    let cmd = if ends_with_exec(t0, "env".as_bytes()) && s1 < e1 {
        &line[s1..e1]
    } else {
        t0
    };
    let lower = to_lower_vec(cmd);
    interpreter_language_exec(lower.as_slice())
}

/// The length of the first line of `content`, without its newline.
fn first_line_len(content: &[u8]) -> (r: usize)
    ensures
        r <= content@.len(),
        content@.subrange(0, r as int) == first_line(content@),
{
    let nl: [u8; 1] = [NEWLINE];
    let nls = nl.as_slice();
    assert(nls@ =~= seq![NEWLINE]);
    match find_exec(content, nls, 0) {
        Some(i) => {
            proof {
                lemma_find_from(content@, seq![NEWLINE], 0);
            }
            i
        },
        None => {
            assert(content@.subrange(0, content@.len() as int) =~= content@);
            content.len()
        },
    }
}

impl LanguageRegistry {
    /// Whether the language of a file named `file_name` depends on its contents.
    pub fn needs_content(&self, file_name: &str) -> (r: bool)
        ensures
            r == content_needed(self.specs(), self.groups(), lit(file_name)),
    {
        let name = file_name.as_bytes();
        if find_claiming(self.languages(), true, name).is_some() {
            return false;
        }
        if builtin_special_exec(name).is_some() {
            return false;
        }
        match extension_start(name) {
            Some(e) => group_for_exec(self.sniff_groups(), &name[e..name.len()]).is_some(),
            None => true,
        }
    }

    /// The language of a file named `file_name` (the last component of its
    /// path) with contents `content`. Where [`Self::needs_content`] is false,
    /// `content` is not read and may be empty.
    pub fn resolve(&self, file_name: &str, content: &[u8]) -> (r: Option<String>)
        ensures
            opt_view(r) == resolve_language(self.specs(), self.groups(), lit(file_name), content@),
    {
        let name = file_name.as_bytes();
        let specs = self.languages();
        proof {
            lemma_first_claiming(specs@, true, name@, 0);
        }
        match find_claiming(specs, true, name) {
            Some(i) => {
                return Some(specs[i].name.clone());
            },
            None => {},
        }
        match builtin_special_exec(name) {
            Some(l) => {
                return Some(l);
            },
            None => {},
        }
        match extension_start(name) {
            Some(e) => {
                let ext = &name[e..name.len()];
                let groups = self.sniff_groups();
                proof {
                    lemma_group_for(groups@, ext@, 0);
                    lemma_first_claiming(specs@, false, ext@, 0);
                }
                match group_for_exec(groups, ext) {
                    Some(g) => {
                        let h = sniff_head_len(content);
                        Some(sniff(&groups[g], &content[0..h]))
                    },
                    None => match find_claiming(specs, false, ext) {
                        Some(i) => Some(specs[i].name.clone()),
                        None => None,
                    },
                }
            },
            None => {
                let n = first_line_len(content);
                parse_shebang(&content[0..n])
            },
        }
    }
}

} // verus!

verus! {

/// A file with extension `.m` (any case) whose name no special filename
/// claims resolves to Objective-C when its first lines hold `@interface`,
/// under the built-in content rules, although MATLAB and Mercury share the
/// extension.
pub proof fn lemma_objective_c_by_content(
    specs: Seq<LanguageSpec>,
    groups: Seq<SniffGroup>,
    name: Seq<u8>,
    content: Seq<u8>,
)
    requires
        groups.map_values(|g: SniffGroup| g@) == crate::builtin::builtin_groups(),
        special_language(specs, name) is None,
        extension_of(name) matches Some(ext) && same_ignoring_case(ext, lit("m")),
        contains(sniff_head(content), lit("@interface")),
    ensures
        resolve_language(specs, groups, name, content) == Some("Objective-C"@),
{
    let ext = extension_of(name)->Some_0;
    assert(crate::builtin::builtin_groups().len() == 6);
    assert(groups.map_values(|g: SniffGroup| g@).len() == groups.len());
    assert(groups.len() == 6);
    assert(crate::builtin::builtin_groups()[0].extension == "m"@);
    let g0 = groups[0];
    assert(groups.map_values(|g: SniffGroup| g@)[0] == crate::builtin::builtin_groups()[0]);
    assert(g0@.extension == "m"@);
    assert(utf8(g0.extension) == lit("m"));
    assert(group_for(groups, ext, 0) == Some(0int));
    assert(g0@.rules[0] == (crate::languages::RuleModel { pattern: "@interface"@, language: "Objective-C"@ }));
    assert(crate::builtin::builtin_groups()[0].rules.len() == 6);
    assert(g0.rules@.len() == g0@.rules.len());
    assert(g0.rules@.map_values(|r: crate::languages::SniffRule| crate::languages::RuleModel { pattern: r.pattern@, language: r.language@ })[0] == g0@.rules[0]);
    assert(g0.rules@[0].pattern@ == "@interface"@);
    assert(utf8(g0.rules@[0].pattern) == lit("@interface"));
    assert(sniff_from(g0, sniff_head(content), 0) == "Objective-C"@);
}

} // verus!
