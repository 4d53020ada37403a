//! The built-in language table and the content rules for extensions that
//! several languages share.

use vstd::prelude::*;

use crate::languages::{
    specs_valid, GroupModel, LanguageModel, LanguageRegistry, LanguageSpec, RegistryError, RuleModel,
    SniffGroup, SniffRule,
};

verus! {

/// The views of string slices.
pub open spec fn views(items: Seq<&str>) -> Seq<Seq<char>> {
    items.map_values(|s: &str| s@)
}

/// The model of a language given by string slices.
pub open spec fn lm(
    name: &str,
    extensions: Seq<&str>,
    line_markers: Seq<&str>,
    block_markers: Option<(&str, &str)>,
    special_filenames: Seq<&str>,
) -> LanguageModel {
    LanguageModel {
        name: name@,
        extensions: views(extensions),
        line_markers: views(line_markers),
        block_markers: match block_markers {
            Some((s, e)) => Some((s@, e@)),
            None => None,
        },
        special_filenames: views(special_filenames),
    }
}

/// The model of a content rule group given by string slices.
pub open spec fn gm(extension: &str, rules: Seq<(&str, &str)>, default_language: &str) -> GroupModel {
    GroupModel {
        extension: extension@,
        rules: rules.map_values(|r: (&str, &str)| RuleModel { pattern: r.0@, language: r.1@ }),
        default_language: default_language@,
    }
}

fn owned_all(items: Vec<&str>) -> (r: Vec<String>)
    ensures
        r@.map_values(|s: String| s@) == views(items@),
{
    let mut r: Vec<String> = Vec::new();
    let mut i: usize = 0;
    while i < items.len()
        invariant
            i <= items@.len(),
            r@.len() == i,
            forall|t: int| 0 <= t < i ==> (#[trigger] r@[t])@ == items@[t]@,
        decreases items@.len() - i,
    {
        r.push(items[i].to_owned());
        i = i + 1;
    }
    assert(r@.map_values(|s: String| s@) =~= views(items@));
    r
}

fn language(
    name: &str,
    extensions: Vec<&str>,
    line_markers: Vec<&str>,
    block_markers: Option<(&str, &str)>,
    special_filenames: Vec<&str>,
) -> (r: LanguageSpec)
    ensures
        r@ == lm(name, extensions@, line_markers@, block_markers, special_filenames@),
{
    LanguageSpec {
        name: name.to_owned(),
        extensions: owned_all(extensions),
        line_markers: owned_all(line_markers),
        block_markers: match block_markers {
            Some((s, e)) => Some((s.to_owned(), e.to_owned())),
            None => None,
        },
        special_filenames: owned_all(special_filenames),
    }
}

fn group(extension: &str, rules: Vec<(&str, &str)>, default_language: &str) -> (r: SniffGroup)
    ensures
        r@ == gm(extension, rules@, default_language),
{
    let mut out: Vec<SniffRule> = Vec::new();
    let mut i: usize = 0;
    while i < rules.len()
        invariant
            i <= rules@.len(),
            out@.len() == i,
            forall|t: int|
                0 <= t < i ==> (#[trigger] out@[t]).pattern@ == rules@[t].0@ && out@[t].language@
                    == rules@[t].1@,
        decreases rules@.len() - i,
    {
        let (p, l) = rules[i];
        out.push(SniffRule { pattern: p.to_owned(), language: l.to_owned() });
        i = i + 1;
    }
    let r = SniffGroup { extension: extension.to_owned(), rules: out, default_language: default_language.to_owned() };
    assert(r@.rules =~= gm(extension, rules@, default_language).rules);
    r
}

/// Built-in languages, part 1.
pub open spec fn builtin_part_1() -> Seq<LanguageModel> {
    seq![
        lm("Rust", seq!["rs"], seq!["//"], Some(("/*", "*/")), seq![]),
        lm("Python", seq!["py", "pyw", "pyi"], seq!["#"], None, seq![]),
        lm("JavaScript", seq!["js", "jsx", "mjs", "cjs"], seq!["//"], Some(("/*", "*/")), seq![]),
        lm("TypeScript", seq!["ts", "tsx", "mts", "cts"], seq!["//"], Some(("/*", "*/")), seq![]),
        lm("C", seq!["c", "h"], seq!["//"], Some(("/*", "*/")), seq![]),
        lm("C++", seq!["cpp", "cc", "cxx", "hpp", "hh", "hxx"], seq!["//"], Some(("/*", "*/")), seq![]),
        lm("C#", seq!["cs"], seq!["//"], Some(("/*", "*/")), seq![]),
        lm("Java", seq!["java"], seq!["//"], Some(("/*", "*/")), seq![]),
        lm("Kotlin", seq!["kt", "kts"], seq!["//"], Some(("/*", "*/")), seq![]),
        lm("Scala", seq!["scala", "sc"], seq!["//"], Some(("/*", "*/")), seq![]),
        lm("Go", seq!["go"], seq!["//"], Some(("/*", "*/")), seq![]),
        lm("Swift", seq!["swift"], seq!["//"], Some(("/*", "*/")), seq![]),
    ]
}

/// Built-in languages, part 2.
pub open spec fn builtin_part_2() -> Seq<LanguageModel> {
    seq![
        lm("Dart", seq!["dart"], seq!["//"], Some(("/*", "*/")), seq![]),
        lm("Groovy", seq!["groovy", "gradle"], seq!["//"], Some(("/*", "*/")), seq![]),
        lm("Protobuf", seq!["proto"], seq!["//"], Some(("/*", "*/")), seq![]),
        lm("Zig", seq!["zig"], seq!["//"], None, seq![]),
        lm("Objective-C", seq!["m", "mm"], seq!["//"], Some(("/*", "*/")), seq![]),
        lm("MATLAB", seq![], seq!["%"], Some(("%{", "%}")), seq![]),
        lm("Mercury", seq![], seq!["%"], Some(("/*", "*/")), seq![]),
        lm("Verilog", seq!["v", "vh"], seq!["//"], Some(("/*", "*/")), seq![]),
        lm("SystemVerilog", seq!["sv", "svh"], seq!["//"], Some(("/*", "*/")), seq![]),
        lm("Coq", seq![], seq![], Some(("(*", "*)")), seq![]),
        lm("V", seq![], seq!["//"], Some(("/*", "*/")), seq![]),
        lm("Common Lisp", seq!["cl", "lisp", "lsp"], seq![";"], Some(("#|", "|#")), seq![]),
    ]
}

/// Built-in languages, part 3.
pub open spec fn builtin_part_3() -> Seq<LanguageModel> {
    seq![
        lm("OpenCL", seq![], seq!["//"], Some(("/*", "*/")), seq![]),
        lm("Pascal", seq!["pas", "pp"], seq!["//"], Some(("{", "}")), seq![]),
        lm("Puppet", seq![], seq!["#"], None, seq![]),
        lm("CIL", seq!["il"], seq!["//"], Some(("/*", "*/")), seq![]),
        lm("SKILL", seq!["ils"], seq![";"], Some(("/*", "*/")), seq![]),
        lm("Cangjie", seq!["cj"], seq!["//"], Some(("/*", "*/")), seq![]),
        lm("Clojure", seq!["clj", "cljs", "cljc", "edn"], seq![";"], None, seq![]),
        lm("PHP", seq!["php"], seq!["//", "#"], Some(("/*", "*/")), seq![]),
        lm("Perl", seq!["pl", "pm"], seq!["#"], None, seq![]),
        lm("Ruby", seq!["rb", "rake", "gemspec"], seq!["#"], None, seq!["Gemfile", "Rakefile"]),
        lm("Shell", seq!["sh", "bash", "zsh", "ksh", "fish"], seq!["#"], None, seq![]),
        lm("Lua", seq!["lua"], seq!["--"], Some(("--[[", "]]")), seq![]),
    ]
}

/// Built-in languages, part 4.
pub open spec fn builtin_part_4() -> Seq<LanguageModel> {
    seq![
        lm("SQL", seq!["sql"], seq!["--"], Some(("/*", "*/")), seq![]),
        lm("Haskell", seq!["hs"], seq!["--"], Some(("{-", "-}")), seq![]),
        lm("Elixir", seq!["ex", "exs"], seq!["#"], None, seq![]),
        lm("Erlang", seq!["erl", "hrl"], seq!["%"], None, seq![]),
        lm("R", seq!["r"], seq!["#"], None, seq![]),
        lm("Julia", seq!["jl"], seq!["#"], Some(("#=", "=#")), seq![]),
        lm("Nim", seq!["nim"], seq!["#"], Some(("#[", "]#")), seq![]),
        lm("OCaml", seq!["ml", "mli"], seq![], Some(("(*", "*)")), seq![]),
        lm("F#", seq!["fs", "fsi", "fsx"], seq!["//"], Some(("(*", "*)")), seq![]),
        lm("PowerShell", seq!["ps1", "psm1"], seq!["#"], Some(("<#", "#>")), seq![]),
        lm("Batch", seq!["bat", "cmd"], seq!["REM", "rem", "::"], None, seq![]),
        lm("Assembly", seq!["asm", "s"], seq![";", "#"], None, seq![]),
    ]
}

/// Built-in languages, part 5.
pub open spec fn builtin_part_5() -> Seq<LanguageModel> {
    seq![
        lm("Terraform", seq!["tf"], seq!["#", "//"], Some(("/*", "*/")), seq![]),
        lm("HTML", seq!["html", "htm"], seq![], Some(("<!--", "-->")), seq![]),
        lm("Vue", seq!["vue"], seq!["//"], Some(("<!--", "-->")), seq![]),
        lm("XML", seq!["xml", "xsd", "xsl"], seq![], Some(("<!--", "-->")), seq![]),
        lm("SVG", seq!["svg"], seq![], Some(("<!--", "-->")), seq![]),
        lm("Markdown", seq!["md", "mdx", "markdown"], seq![], Some(("<!--", "-->")), seq![]),
        lm("CSS", seq!["css"], seq![], Some(("/*", "*/")), seq![]),
        lm("SCSS", seq!["scss"], seq!["//"], Some(("/*", "*/")), seq![]),
        lm("YAML", seq!["yaml", "yml"], seq!["#"], None, seq![]),
        lm("TOML", seq!["toml"], seq!["#"], None, seq![]),
        lm("JSON", seq!["json"], seq![], None, seq![]),
        lm("INI", seq!["ini"], seq![";", "#"], None, seq![]),
    ]
}

/// Built-in languages, part 6.
pub open spec fn builtin_part_6() -> Seq<LanguageModel> {
    seq![
        lm("Text", seq!["txt"], seq![], None, seq!["README"]),
        lm("reStructuredText", seq!["rst"], seq![], None, seq![]),
        lm("AsciiDoc", seq!["adoc", "asciidoc"], seq!["//"], Some(("////", "////")), seq![]),
        lm("Make", seq!["mk"], seq!["#"], None, seq!["Makefile", "GNUmakefile"]),
        lm("Dockerfile", seq!["dockerfile"], seq!["#"], None, seq!["Dockerfile"]),
        lm("CMake", seq!["cmake"], seq!["#"], None, seq!["CMakeLists.txt"]),
        lm("Starlark", seq!["bzl", "star"], seq!["#"], None, seq!["BUILD", "BUILD.bazel", "WORKSPACE", "WORKSPACE.bazel"]),
        lm("Just", seq!["just"], seq!["#"], None, seq!["justfile"]),
    ]
}

/// The built-in languages, as models.
pub open spec fn builtin_languages() -> Seq<LanguageModel> {
    builtin_part_1() + builtin_part_2() + builtin_part_3() + builtin_part_4() + builtin_part_5() + builtin_part_6()
}

/// The built-in content rule groups, as models: for each extension that
/// several languages share, its rules in order and its default.
pub open spec fn builtin_groups() -> Seq<GroupModel> {
    seq![
        gm("m", seq![("@interface", "Objective-C"), ("@implementation", "Objective-C"), ("#import", "Objective-C"), (":- module", "Mercury"), (":- pred", "Mercury"), ("function ", "MATLAB")], "Objective-C"),
        gm("v", seq![("endmodule", "Verilog"), ("Theorem ", "Coq"), ("Lemma ", "Coq"), ("Proof.", "Coq"), ("Require Import", "Coq"), ("fn main()", "V"), ("module main", "V")], "Verilog"),
        gm("cl", seq![("__kernel", "OpenCL"), ("kernel void", "OpenCL"), ("(defun", "Common Lisp"), ("(in-package", "Common Lisp")], "Common Lisp"),
        gm("pp", seq![("program ", "Pascal"), ("unit ", "Pascal"), ("begin", "Pascal"), ("class ", "Puppet"), ("node ", "Puppet"), ("define ", "Puppet")], "Pascal"),
        gm("il", seq![(".assembly", "CIL"), (".method", "CIL"), ("procedure(", "SKILL"), ("defun(", "SKILL")], "CIL"),
        gm("cj", seq![("(ns ", "Clojure"), ("(defn", "Clojure"), ("package ", "Cangjie"), ("func ", "Cangjie")], "Cangjie"),
    ]
}

#[verifier::rlimit(50)]
fn push_part_1(v: &mut Vec<LanguageSpec>)
    ensures
        final(v)@.map_values(|l: LanguageSpec| l@) =~~= old(v)@.map_values(|l: LanguageSpec| l@) + builtin_part_1(),
{
    let ghost v0 = v@;
    v.push(language("Rust", vec!["rs"], vec!["//"], Some(("/*", "*/")), vec![]));
    v.push(language("Python", vec!["py", "pyw", "pyi"], vec!["#"], None, vec![]));
    v.push(language("JavaScript", vec!["js", "jsx", "mjs", "cjs"], vec!["//"], Some(("/*", "*/")), vec![]));
    v.push(language("TypeScript", vec!["ts", "tsx", "mts", "cts"], vec!["//"], Some(("/*", "*/")), vec![]));
    v.push(language("C", vec!["c", "h"], vec!["//"], Some(("/*", "*/")), vec![]));
    v.push(language("C++", vec!["cpp", "cc", "cxx", "hpp", "hh", "hxx"], vec!["//"], Some(("/*", "*/")), vec![]));
    v.push(language("C#", vec!["cs"], vec!["//"], Some(("/*", "*/")), vec![]));
    v.push(language("Java", vec!["java"], vec!["//"], Some(("/*", "*/")), vec![]));
    v.push(language("Kotlin", vec!["kt", "kts"], vec!["//"], Some(("/*", "*/")), vec![]));
    v.push(language("Scala", vec!["scala", "sc"], vec!["//"], Some(("/*", "*/")), vec![]));
    v.push(language("Go", vec!["go"], vec!["//"], Some(("/*", "*/")), vec![]));
    v.push(language("Swift", vec!["swift"], vec!["//"], Some(("/*", "*/")), vec![]));
    assert(v@.map_values(|l: LanguageSpec| l@) =~~= v0.map_values(|l: LanguageSpec| l@) + builtin_part_1());
}

#[verifier::rlimit(50)]
fn push_part_2(v: &mut Vec<LanguageSpec>)
    ensures
        final(v)@.map_values(|l: LanguageSpec| l@) =~~= old(v)@.map_values(|l: LanguageSpec| l@) + builtin_part_2(),
{
    let ghost v0 = v@;
    v.push(language("Dart", vec!["dart"], vec!["//"], Some(("/*", "*/")), vec![]));
    v.push(language("Groovy", vec!["groovy", "gradle"], vec!["//"], Some(("/*", "*/")), vec![]));
    v.push(language("Protobuf", vec!["proto"], vec!["//"], Some(("/*", "*/")), vec![]));
    v.push(language("Zig", vec!["zig"], vec!["//"], None, vec![]));
    v.push(language("Objective-C", vec!["m", "mm"], vec!["//"], Some(("/*", "*/")), vec![]));
    v.push(language("MATLAB", vec![], vec!["%"], Some(("%{", "%}")), vec![]));
    v.push(language("Mercury", vec![], vec!["%"], Some(("/*", "*/")), vec![]));
    v.push(language("Verilog", vec!["v", "vh"], vec!["//"], Some(("/*", "*/")), vec![]));
    v.push(language("SystemVerilog", vec!["sv", "svh"], vec!["//"], Some(("/*", "*/")), vec![]));
    v.push(language("Coq", vec![], vec![], Some(("(*", "*)")), vec![]));
    v.push(language("V", vec![], vec!["//"], Some(("/*", "*/")), vec![]));
    v.push(language("Common Lisp", vec!["cl", "lisp", "lsp"], vec![";"], Some(("#|", "|#")), vec![]));
    assert(v@.map_values(|l: LanguageSpec| l@) =~~= v0.map_values(|l: LanguageSpec| l@) + builtin_part_2());
}

#[verifier::rlimit(50)]
fn push_part_3(v: &mut Vec<LanguageSpec>)
    ensures
        final(v)@.map_values(|l: LanguageSpec| l@) =~~= old(v)@.map_values(|l: LanguageSpec| l@) + builtin_part_3(),
{
    let ghost v0 = v@;
    v.push(language("OpenCL", vec![], vec!["//"], Some(("/*", "*/")), vec![]));
    v.push(language("Pascal", vec!["pas", "pp"], vec!["//"], Some(("{", "}")), vec![]));
    v.push(language("Puppet", vec![], vec!["#"], None, vec![]));
    v.push(language("CIL", vec!["il"], vec!["//"], Some(("/*", "*/")), vec![]));
    v.push(language("SKILL", vec!["ils"], vec![";"], Some(("/*", "*/")), vec![]));
    v.push(language("Cangjie", vec!["cj"], vec!["//"], Some(("/*", "*/")), vec![]));
    v.push(language("Clojure", vec!["clj", "cljs", "cljc", "edn"], vec![";"], None, vec![]));
    v.push(language("PHP", vec!["php"], vec!["//", "#"], Some(("/*", "*/")), vec![]));
    v.push(language("Perl", vec!["pl", "pm"], vec!["#"], None, vec![]));
    v.push(language("Ruby", vec!["rb", "rake", "gemspec"], vec!["#"], None, vec!["Gemfile", "Rakefile"]));
    v.push(language("Shell", vec!["sh", "bash", "zsh", "ksh", "fish"], vec!["#"], None, vec![]));
    v.push(language("Lua", vec!["lua"], vec!["--"], Some(("--[[", "]]")), vec![]));
    assert(v@.map_values(|l: LanguageSpec| l@) =~~= v0.map_values(|l: LanguageSpec| l@) + builtin_part_3());
}

#[verifier::rlimit(50)]
fn push_part_4(v: &mut Vec<LanguageSpec>)
    ensures
        final(v)@.map_values(|l: LanguageSpec| l@) =~~= old(v)@.map_values(|l: LanguageSpec| l@) + builtin_part_4(),
{
    let ghost v0 = v@;
    v.push(language("SQL", vec!["sql"], vec!["--"], Some(("/*", "*/")), vec![]));
    v.push(language("Haskell", vec!["hs"], vec!["--"], Some(("{-", "-}")), vec![]));
    v.push(language("Elixir", vec!["ex", "exs"], vec!["#"], None, vec![]));
    v.push(language("Erlang", vec!["erl", "hrl"], vec!["%"], None, vec![]));
    v.push(language("R", vec!["r"], vec!["#"], None, vec![]));
    v.push(language("Julia", vec!["jl"], vec!["#"], Some(("#=", "=#")), vec![]));
    v.push(language("Nim", vec!["nim"], vec!["#"], Some(("#[", "]#")), vec![]));
    v.push(language("OCaml", vec!["ml", "mli"], vec![], Some(("(*", "*)")), vec![]));
    v.push(language("F#", vec!["fs", "fsi", "fsx"], vec!["//"], Some(("(*", "*)")), vec![]));
    v.push(language("PowerShell", vec!["ps1", "psm1"], vec!["#"], Some(("<#", "#>")), vec![]));
    v.push(language("Batch", vec!["bat", "cmd"], vec!["REM", "rem", "::"], None, vec![]));
    v.push(language("Assembly", vec!["asm", "s"], vec![";", "#"], None, vec![]));
    assert(v@.map_values(|l: LanguageSpec| l@) =~~= v0.map_values(|l: LanguageSpec| l@) + builtin_part_4());
}

#[verifier::rlimit(50)]
fn push_part_5(v: &mut Vec<LanguageSpec>)
    ensures
        final(v)@.map_values(|l: LanguageSpec| l@) =~~= old(v)@.map_values(|l: LanguageSpec| l@) + builtin_part_5(),
{
    let ghost v0 = v@;
    v.push(language("Terraform", vec!["tf"], vec!["#", "//"], Some(("/*", "*/")), vec![]));
    v.push(language("HTML", vec!["html", "htm"], vec![], Some(("<!--", "-->")), vec![]));
    v.push(language("Vue", vec!["vue"], vec!["//"], Some(("<!--", "-->")), vec![]));
    v.push(language("XML", vec!["xml", "xsd", "xsl"], vec![], Some(("<!--", "-->")), vec![]));
    v.push(language("SVG", vec!["svg"], vec![], Some(("<!--", "-->")), vec![]));
    v.push(language("Markdown", vec!["md", "mdx", "markdown"], vec![], Some(("<!--", "-->")), vec![]));
    v.push(language("CSS", vec!["css"], vec![], Some(("/*", "*/")), vec![]));
    v.push(language("SCSS", vec!["scss"], vec!["//"], Some(("/*", "*/")), vec![]));
    v.push(language("YAML", vec!["yaml", "yml"], vec!["#"], None, vec![]));
    v.push(language("TOML", vec!["toml"], vec!["#"], None, vec![]));
    v.push(language("JSON", vec!["json"], vec![], None, vec![]));
    v.push(language("INI", vec!["ini"], vec![";", "#"], None, vec![]));
    assert(v@.map_values(|l: LanguageSpec| l@) =~~= v0.map_values(|l: LanguageSpec| l@) + builtin_part_5());
}

#[verifier::rlimit(50)]
fn push_part_6(v: &mut Vec<LanguageSpec>)
    ensures
        final(v)@.map_values(|l: LanguageSpec| l@) =~~= old(v)@.map_values(|l: LanguageSpec| l@) + builtin_part_6(),
{
    let ghost v0 = v@;
    v.push(language("Text", vec!["txt"], vec![], None, vec!["README"]));
    v.push(language("reStructuredText", vec!["rst"], vec![], None, vec![]));
    v.push(language("AsciiDoc", vec!["adoc", "asciidoc"], vec!["//"], Some(("////", "////")), vec![]));
    v.push(language("Make", vec!["mk"], vec!["#"], None, vec!["Makefile", "GNUmakefile"]));
    v.push(language("Dockerfile", vec!["dockerfile"], vec!["#"], None, vec!["Dockerfile"]));
    v.push(language("CMake", vec!["cmake"], vec!["#"], None, vec!["CMakeLists.txt"]));
    v.push(language("Starlark", vec!["bzl", "star"], vec!["#"], None, vec!["BUILD", "BUILD.bazel", "WORKSPACE", "WORKSPACE.bazel"]));
    v.push(language("Just", vec!["just"], vec!["#"], None, vec!["justfile"]));
    assert(v@.map_values(|l: LanguageSpec| l@) =~~= v0.map_values(|l: LanguageSpec| l@) + builtin_part_6());
}

/// The built-in languages. Each extension and special filename belongs to
/// one language; an extension that several languages share is listed under
/// the default of its content rule group (see [`sniff_groups`]).
pub fn language_registry() -> (r: Vec<LanguageSpec>)
    ensures
        r@.map_values(|l: LanguageSpec| l@) == builtin_languages(),
{
    let mut v: Vec<LanguageSpec> = Vec::new();
    assert(v@.map_values(|l: LanguageSpec| l@) =~= Seq::<LanguageModel>::empty());
    push_part_1(&mut v);
    push_part_2(&mut v);
    push_part_3(&mut v);
    push_part_4(&mut v);
    push_part_5(&mut v);
    push_part_6(&mut v);
    assert(v@.map_values(|l: LanguageSpec| l@) =~~= builtin_languages());
    v
}

/// The content rules of the extensions that several languages share, each
/// with its default language.
pub fn sniff_groups() -> (r: Vec<SniffGroup>)
    ensures
        r@.map_values(|g: SniffGroup| g@) == builtin_groups(),
{
    let mut g: Vec<SniffGroup> = Vec::new();
    g.push(group("m", vec![("@interface", "Objective-C"), ("@implementation", "Objective-C"), ("#import", "Objective-C"), (":- module", "Mercury"), (":- pred", "Mercury"), ("function ", "MATLAB")], "Objective-C"));
    g.push(group("v", vec![("endmodule", "Verilog"), ("Theorem ", "Coq"), ("Lemma ", "Coq"), ("Proof.", "Coq"), ("Require Import", "Coq"), ("fn main()", "V"), ("module main", "V")], "Verilog"));
    g.push(group("cl", vec![("__kernel", "OpenCL"), ("kernel void", "OpenCL"), ("(defun", "Common Lisp"), ("(in-package", "Common Lisp")], "Common Lisp"));
    g.push(group("pp", vec![("program ", "Pascal"), ("unit ", "Pascal"), ("begin", "Pascal"), ("class ", "Puppet"), ("node ", "Puppet"), ("define ", "Puppet")], "Pascal"));
    g.push(group("il", vec![(".assembly", "CIL"), (".method", "CIL"), ("procedure(", "SKILL"), ("defun(", "SKILL")], "CIL"));
    g.push(group("cj", vec![("(ns ", "Clojure"), ("(defn", "Clojure"), ("package ", "Cangjie"), ("func ", "Cangjie")], "Cangjie"));
    assert(g@.map_values(|x: SniffGroup| x@) =~= builtin_groups());
    g
}

/// Any languages and groups with the built-in models meet what the registry
/// demands (distinct non-blank names, no shared extension outside a content
/// rule group, no shared special filename, non-empty block markers).
pub open spec fn builtin_table_valid() -> bool {
    forall|s: Seq<LanguageSpec>, g: Seq<SniffGroup>|
        s.map_values(|l: LanguageSpec| l@) == builtin_languages() && g.map_values(
            |x: SniffGroup| x@,
        ) == builtin_groups() ==> #[trigger] specs_valid(s, g)
}

impl LanguageRegistry {
    /// The registry of the built-in languages and content rules. It is `Ok`
    /// whenever the stated table meets the registry's rules; that the table
    /// does is checked here, when the registry is built, not proved.
    pub fn builtin() -> (r: Result<LanguageRegistry, RegistryError>)
        ensures
            builtin_table_valid() ==> r is Ok,
            r matches Ok(reg) ==> reg.wf() && reg.specs().map_values(|l: LanguageSpec| l@)
                == builtin_languages() && reg.groups().map_values(|g: SniffGroup| g@)
                == builtin_groups(),
    {
        let specs = language_registry();
        let groups = sniff_groups();
        assert(builtin_table_valid() ==> specs_valid(specs@, groups@));
        LanguageRegistry::from_specs(specs, groups)
    }
}

} // verus!
