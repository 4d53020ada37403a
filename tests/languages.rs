use std::collections::HashSet;

use ocloc::builtin::{language_registry, sniff_groups};
use ocloc::filters::keep_entry;
use ocloc::format::{format_num, format_row, push_row, ColWidths};
use ocloc::languages::{LanguageRegistry, LanguageSpec, RegistryError, SniffGroup, SniffRule};
use ocloc::resolver::parse_shebang;
use ocloc::types::{FileCounts, LineDelta};

fn registry() -> LanguageRegistry {
    LanguageRegistry::builtin().unwrap()
}

fn find_language_for_path(name: &str, content: &str) -> Option<String> {
    registry().resolve(name, content.as_bytes())
}

#[test]
fn detects_jsx_tsx_by_extension() {
    assert_eq!(find_language_for_path("a.jsx", ""), Some("JavaScript".to_string()));
    assert_eq!(find_language_for_path("b.tsx", ""), Some("TypeScript".to_string()));
}

#[test]
fn detects_special_filenames() {
    assert_eq!(find_language_for_path("Makefile", ""), Some("Make".to_string()));
    assert_eq!(find_language_for_path("Dockerfile", ""), Some("Dockerfile".to_string()));
}

#[test]
fn detects_shebang_python_and_shell() {
    assert_eq!(
        find_language_for_path("script", "#!/usr/bin/env python3\nprint(123)\n"),
        Some("Python".to_string())
    );
    assert_eq!(
        find_language_for_path("run", "#!/bin/bash\necho hi\n"),
        Some("Shell".to_string())
    );
}

#[test]
fn detects_doc_and_config_types() {
    assert_eq!(find_language_for_path("README.md", ""), Some("Markdown".to_string()));
    assert_eq!(find_language_for_path("page.mdx", ""), Some("Markdown".to_string()));
    assert_eq!(find_language_for_path("icon.svg", ""), Some("SVG".to_string()));
    assert_eq!(find_language_for_path("settings.ini", ""), Some("INI".to_string()));
    assert_eq!(find_language_for_path("notes.txt", ""), Some("Text".to_string()));
    assert_eq!(find_language_for_path("guide.rst", ""), Some("reStructuredText".to_string()));
    assert_eq!(find_language_for_path("handbook.adoc", ""), Some("AsciiDoc".to_string()));
    assert_eq!(find_language_for_path("data.xml", ""), Some("XML".to_string()));
}

#[test]
fn additional_special_filenames_detection() {
    assert_eq!(find_language_for_path("Makefile", ""), Some("Make".to_string()));
    assert_eq!(find_language_for_path("Dockerfile", ""), Some("Dockerfile".to_string()));
    assert_eq!(find_language_for_path("CMakeLists.txt", ""), Some("CMake".to_string()));
    assert_eq!(find_language_for_path("BUILD", ""), Some("Starlark".to_string()));
    assert_eq!(find_language_for_path("WORKSPACE.bazel", ""), Some("Starlark".to_string()));
    assert_eq!(find_language_for_path("Gemfile", ""), Some("Ruby".to_string()));
    assert_eq!(find_language_for_path("justfile", ""), Some("Just".to_string()));
    assert_eq!(find_language_for_path("README", ""), Some("Text".to_string()));
}

#[test]
fn languages_json_is_consistent() {
    let specs = language_registry();
    let mut names = HashSet::new();
    let mut exts = HashSet::new();
    let mut specials = HashSet::new();
    for s in &specs {
        assert!(!s.name.trim().is_empty(), "language name must be non-empty");
        assert!(names.insert(&s.name), "duplicate language name: {}", s.name);
        for e in &s.extensions {
            let norm = e.to_ascii_lowercase();
            assert!(
                exts.insert(norm.clone()),
                "duplicate extension across languages: {}",
                norm
            );
        }
        for f in &s.special_filenames {
            let norm = f.to_ascii_lowercase();
            assert!(
                specials.insert(norm.clone()),
                "duplicate special filename across languages: {}",
                norm
            );
        }
        if let Some((ref a, ref b)) = s.block_markers {
            assert!(
                !a.is_empty() && !b.is_empty(),
                "block markers must be non-empty for {}",
                s.name
            );
        }
    }
}

#[test]
fn case_insensitive_names_and_extensions() {
    assert_eq!(find_language_for_path("MAIN.RS", ""), Some("Rust".to_string()));
    assert_eq!(find_language_for_path("makefile", ""), Some("Make".to_string()));
    assert_eq!(find_language_for_path("gemfile", ""), Some("Ruby".to_string()));
    assert_eq!(find_language_for_path(".bashrc", ""), None);
    assert_eq!(find_language_for_path("archive.", ""), None);
    assert_eq!(find_language_for_path("noext", "plain text\n"), None);
}

#[test]
fn objective_c_by_content() {
    assert_eq!(
        find_language_for_path("Foo.m", "#include <x.h>\n@interface Foo\n@end\n"),
        Some("Objective-C".to_string())
    );
    assert_eq!(
        find_language_for_path("solve.m", "function y = f(x)\n  y = x;\nend\n"),
        Some("MATLAB".to_string())
    );
    assert_eq!(
        find_language_for_path("list.m", ":- module list.\n"),
        Some("Mercury".to_string())
    );
    assert_eq!(find_language_for_path("empty.m", ""), Some("Objective-C".to_string()));
}

#[test]
fn other_ambiguous_extensions_use_their_defaults() {
    assert_eq!(find_language_for_path("a.v", ""), Some("Verilog".to_string()));
    assert_eq!(
        find_language_for_path("b.v", "Theorem t : True.\nProof. auto. Qed.\n"),
        Some("Coq".to_string())
    );
    assert_eq!(find_language_for_path("c.cl", "__kernel void k() {}\n"), Some("OpenCL".to_string()));
    assert_eq!(find_language_for_path("d.cl", ""), Some("Common Lisp".to_string()));
    assert_eq!(find_language_for_path("e.pp", "class nginx {\n}\n"), Some("Puppet".to_string()));
    assert_eq!(find_language_for_path("f.pp", ""), Some("Pascal".to_string()));
    assert_eq!(find_language_for_path("g.il", ""), Some("CIL".to_string()));
    assert_eq!(find_language_for_path("h.cj", "(ns app.core)\n"), Some("Clojure".to_string()));
    assert_eq!(find_language_for_path("i.cj", ""), Some("Cangjie".to_string()));
}

#[test]
fn rules_only_read_the_first_fifty_lines() {
    let mut text = String::new();
    for _ in 0..50 {
        text.push_str("x\n");
    }
    text.push_str("@interface Late\n");
    let reg = registry();
    assert_eq!(reg.resolve("late.m", text.as_bytes()), Some("Objective-C".to_string()));
    let mut text2 = String::new();
    for _ in 0..50 {
        text2.push_str("x\n");
    }
    text2.push_str(":- module late.\n");
    assert_eq!(reg.resolve("late.m", text2.as_bytes()), Some("Objective-C".to_string()));
    let mut text3 = String::new();
    for _ in 0..49 {
        text3.push_str("x\n");
    }
    text3.push_str(":- module early.\n");
    assert_eq!(reg.resolve("early.m", text3.as_bytes()), Some("Mercury".to_string()));
}

#[test]
fn needs_content_only_when_content_decides() {
    let reg = registry();
    assert!(!reg.needs_content("main.rs"));
    assert!(!reg.needs_content("Makefile"));
    assert!(reg.needs_content("Foo.m"));
    assert!(reg.needs_content("script"));
}

#[test]
fn shebang_forms() {
    assert_eq!(parse_shebang(b"#!/usr/bin/env python3"), Some("Python".to_string()));
    assert_eq!(parse_shebang(b"  #!/bin/sh"), Some("Shell".to_string()));
    assert_eq!(parse_shebang(b"#! /usr/bin/zsh -f"), Some("Shell".to_string()));
    assert_eq!(parse_shebang(b"#!/usr/bin/env node"), Some("JavaScript".to_string()));
    assert_eq!(parse_shebang(b"#!/usr/bin/PERL -w"), Some("Perl".to_string()));
    assert_eq!(parse_shebang(b"#!/usr/bin/env ruby"), Some("Ruby".to_string()));
    assert_eq!(parse_shebang(b"#!/usr/bin/php"), Some("PHP".to_string()));
    assert_eq!(parse_shebang(b"#!/bin/dash"), Some("Shell".to_string()));
    assert_eq!(parse_shebang(b"#!/opt/python/bin/lua"), Some("Python".to_string()));
    assert_eq!(parse_shebang(b"#!/usr/bin/env"), None);
    assert_eq!(parse_shebang(b"#!/usr/bin/awk -f"), None);
    assert_eq!(parse_shebang(b"#!"), None);
    assert_eq!(parse_shebang(b"echo hi"), None);
    assert_eq!(parse_shebang(b""), None);
}

fn spec(name: &str, exts: &[&str], specials: &[&str], block: Option<(&str, &str)>) -> LanguageSpec {
    LanguageSpec {
        name: name.to_string(),
        extensions: exts.iter().map(|s| s.to_string()).collect(),
        line_markers: vec!["#".to_string()],
        block_markers: block.map(|(a, b)| (a.to_string(), b.to_string())),
        special_filenames: specials.iter().map(|s| s.to_string()).collect(),
    }
}

fn group_for(ext: &str) -> Vec<SniffGroup> {
    vec![SniffGroup {
        extension: ext.to_string(),
        rules: vec![SniffRule { pattern: "x".to_string(), language: "B".to_string() }],
        default_language: "A".to_string(),
    }]
}

#[test]
fn registry_refuses_bad_tables() {
    let r = LanguageRegistry::from_specs(vec![spec("  ", &["a"], &[], None)], vec![]);
    assert_eq!(r.err(), Some(RegistryError::EmptyName(0)));
    let r = LanguageRegistry::from_specs(
        vec![spec("A", &["a"], &[], None), spec("A", &["b"], &[], None)],
        vec![],
    );
    assert_eq!(r.err(), Some(RegistryError::DuplicateName("A".to_string())));
    let r = LanguageRegistry::from_specs(
        vec![spec("A", &["x"], &[], None), spec("B", &["X"], &[], None)],
        vec![],
    );
    assert_eq!(r.err(), Some(RegistryError::DuplicateExtension("X".to_string())));
    let r = LanguageRegistry::from_specs(
        vec![spec("A", &["x"], &["Foo"], None), spec("B", &["y"], &["foo"], None)],
        vec![],
    );
    assert_eq!(r.err(), Some(RegistryError::DuplicateSpecialFilename("foo".to_string())));
    let r = LanguageRegistry::from_specs(vec![spec("A", &["x"], &[], Some(("", "*/")))], vec![]);
    assert_eq!(r.err(), Some(RegistryError::EmptyBlockMarker("A".to_string())));
    let r = LanguageRegistry::from_specs(
        vec![spec("A", &["m"], &[], None), spec("B", &["M"], &[], None)],
        group_for("m"),
    );
    assert!(r.is_ok());
    let reg = r.unwrap();
    assert_eq!(reg.resolve("f.m", b"x"), Some("B".to_string()));
    assert_eq!(reg.resolve("f.m", b"y"), Some("A".to_string()));
    assert!(LanguageRegistry::from_specs(language_registry(), sniff_groups()).is_ok());
    let r = LanguageRegistry::from_specs(vec![spec("A", &["m"], &[], None)], group_for("m"));
    assert_eq!(r.err(), Some(RegistryError::UnknownLanguage("B".to_string())));
}

#[test]
fn markers_for_known_and_unknown_languages() {
    let reg = registry();
    let m = reg.markers_for("Rust");
    assert_eq!(m.line_markers, vec![b"//".to_vec()]);
    assert_eq!(m.block_markers, Some((b"/*".to_vec(), b"*/".to_vec())));
    let none = reg.markers_for("Make-believe");
    assert!(none.line_markers.is_empty());
    assert!(none.block_markers.is_none());
}

#[test]
fn numbers_with_thousands_separators() {
    assert_eq!(format_num(0), "0");
    assert_eq!(format_num(7), "7");
    assert_eq!(format_num(999), "999");
    assert_eq!(format_num(1000), "1,000");
    assert_eq!(format_num(1234567), "1,234,567");
    assert_eq!(format_num(100000), "100,000");
}

#[test]
fn csv_rows() {
    let mut out = String::from("language,files,code,comment,blank,total\n");
    push_row(&mut out, "Rust", &FileCounts { files: 2, total: 10, code: 7, comment: 2, blank: 1 });
    push_row(&mut out, "Total", &FileCounts { files: 2, total: 10, code: 7, comment: 2, blank: 1 });
    assert_eq!(
        out,
        "language,files,code,comment,blank,total\nRust,2,7,2,1,10\nTotal,2,7,2,1,10\n"
    );
}

#[test]
fn line_delta_adds_file_changes() {
    let mut d = LineDelta::default();
    d.add_file_delta((3, 1, 0), (5, 0, 2));
    assert_eq!(d.files, 1);
    assert_eq!(d.code_added, 2);
    assert_eq!(d.comment_added, -1);
    assert_eq!(d.blank_added, 2);
    assert_eq!(d.total_net, 3);
    d.add_file_delta((4, 0, 0), (0, 0, 0));
    assert_eq!(d.files, 2);
    assert_eq!(d.code_added, -2);
    assert_eq!(d.total_net, -1);
    assert_eq!(d.code_removed, 4);
}

#[test]
fn extension_allow_list() {
    let items = ocloc::filters::parse_extension_list(b" rs, .PY,,  ,js ,..Md");
    assert_eq!(
        items,
        vec![b"rs".to_vec(), b"py".to_vec(), b"js".to_vec(), b"md".to_vec()]
    );
    assert!(ocloc::filters::parse_extension_list(b"").is_empty());
    assert_eq!(ocloc::filters::parse_extension_list(b"."), vec![Vec::<u8>::new()]);
}

#[test]
fn per_file_and_total_deltas() {
    let base = FileCounts { files: 1, total: 10, code: 6, comment: 3, blank: 1 };
    let head = FileCounts { files: 1, total: 8, code: 7, comment: 0, blank: 1 };
    let row = ocloc::types::DiffPerFile::from_counts(
        "src/a.rs".to_string(),
        "M".to_string(),
        "Rust".to_string(),
        &base,
        &head,
    );
    assert_eq!(row.path, "src/a.rs");
    assert_eq!(row.code_delta, 1);
    assert_eq!(row.comment_delta, -3);
    assert_eq!(row.blank_delta, 0);
    assert_eq!(row.total_delta, -2);
    let mut a = LineDelta::default();
    a.add_file_delta((1, 2, 3), (4, 2, 0));
    let mut b = LineDelta::default();
    b.add_file_delta((0, 0, 0), (5, 1, 1));
    a.merge(&b);
    assert_eq!(a.files, 2);
    assert_eq!(a.code_added, 8);
    assert_eq!(a.comment_added, 1);
    assert_eq!(a.blank_added, -2);
    assert_eq!(a.total_net, 7);
    assert_eq!(a.code_removed, 0);
    let mut c = LineDelta::default();
    c.add_file_delta((1, 1, 0), (0, 1, 0));
    c.add_file_delta((1, 0, 0), (0, 0, 0));
    a.merge(&c);
    assert_eq!(a.code_removed, 2);
    assert_eq!(a.code_added, 6);
}

#[test]
fn ignore_file_patterns() {
    let text = b"# comment\n\n  target/  \r\n*.log\n   # indented comment\nbuild\n\t";
    assert_eq!(
        ocloc::filters::ignore_patterns(text),
        vec![b"target/".to_vec(), b"*.log".to_vec(), b"build".to_vec()]
    );
    assert!(ocloc::filters::ignore_patterns(b"").is_empty());
    assert_eq!(ocloc::filters::ignore_patterns(b"last"), vec![b"last".to_vec()]);
}

#[test]
fn table_rows_are_padded() {
    let w = ColWidths { lang: 6, files: 3, blank: 2, comm: 1, code: 6, total: 2 };
    let c = FileCounts { files: 2, total: 1500, code: 1234, comment: 200, blank: 66 };
    assert_eq!(format_row("Rust", &c, &w, " | "), "Rust   |   2 | 66 | 200 |  1,234 | 1,500");
}

#[test]
fn traversal_keeps_by_extension_and_size() {
    let allowed = vec![b"rs".to_vec(), b"py".to_vec()];
    assert!(keep_entry(Some(&b"RS"[..]), Some(&allowed), None, None, None));
    assert!(!keep_entry(Some(&b"js"[..]), Some(&allowed), None, None, None));
    assert!(!keep_entry(None, Some(&allowed), None, None, None));
    assert!(keep_entry(None, None, Some(10), Some(10), Some(10)));
    assert!(!keep_entry(Some(&b"rs"[..]), None, Some(9), Some(10), None));
    assert!(!keep_entry(Some(&b"rs"[..]), None, Some(11), None, Some(10)));
    assert!(keep_entry(Some(&b"rs"[..]), Some(&allowed), None, Some(10), Some(20)));
}
