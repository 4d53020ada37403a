use ocloc::aggregate::LanguageTotals;
use ocloc::analyzer::{analyze_bytes, counts_with_policy, file_outcome, FileOutcome, ScanStats};
use ocloc::builtin::language_registry;
use ocloc::classifier::{classify_bytes, classify_line_bytes, BlockState, LineClassifier, LineKind, MarkerSet};
use ocloc::languages::LanguageRegistry;
use ocloc::types::FileCounts;

fn registry() -> LanguageRegistry {
    LanguageRegistry::builtin().unwrap()
}

fn c_markers() -> MarkerSet {
    MarkerSet {
        line_markers: vec![b"//".to_vec()],
        block_markers: Some((b"/*".to_vec(), b"*/".to_vec())),
    }
}

fn counts(name: &str, text: &str) -> FileCounts {
    analyze_bytes(&registry(), name, text.as_bytes())
}

#[test]
fn rust_line_and_block_comments() {
    let counts = counts(
        "sample.rs",
        "// line\ncode\n/* block */\ncode /* mid */ more\n/* start\ncontinued\nend */\n",
    );
    assert_eq!(counts.total, 7);
    assert_eq!(counts.comment, 5);
    assert_eq!(counts.code, 2);
    assert_eq!(counts.blank, 0);
}

#[test]
fn python_triple_quoted_strings_treated_as_code() {
    let counts = counts(
        "doc.py",
        "\n\n\"\"\"Module docstring\nspans lines\n\"\"\"\n\n# comment line\nprint(1)\n",
    );
    assert_eq!(counts.total, 8);
    assert_eq!(counts.blank, 3);
    assert_eq!(counts.comment, 1);
    assert_eq!(counts.code, 4);
}

#[test]
fn html_block_comments() {
    let counts = counts(
        "page.html",
        "<!-- head -->\n<div>content</div>\n<!-- start\ncontinued\nend -->\n<div><!-- mid --></div>\n",
    );
    assert_eq!(counts.total, 6);
    assert_eq!(counts.comment, 4);
    assert_eq!(counts.code, 2);
    assert_eq!(counts.blank, 0);
}

#[test]
fn markdown_html_comments() {
    let counts = counts(
        "README.md",
        "# Title\n\n<!-- intro -->\nSome text paragraph.\n<!-- start\nmultiline\nend -->\n",
    );
    assert_eq!(counts.total, 7);
    assert_eq!(counts.blank, 1);
    assert_eq!(counts.comment, 4);
    assert_eq!(counts.code, 2);
}

#[test]
fn ini_line_comments() {
    let counts = counts(
        "settings.ini",
        "; leading comment\n# another comment\n\n[section]\nkey=value\nkey2 = value2  # trailing\n",
    );
    assert_eq!(counts.total, 6);
    assert_eq!(counts.blank, 1);
    assert_eq!(counts.comment, 2);
    assert_eq!(counts.code, 3);
}

#[test]
fn svg_xml_comments() {
    let counts = counts(
        "icon.svg",
        "<?xml version=\"1.0\"?>\n<!-- single -->\n<svg>\n  <!-- start\n  mid\n  end -->\n</svg>\n",
    );
    assert_eq!(counts.total, 7);
    assert_eq!(counts.comment, 4);
    assert_eq!(counts.blank, 0);
    assert_eq!(counts.code, 3);
}

#[test]
fn analyze_reader_parity_with_analyze_file() {
    let data = b"// c1\nfn main() {}\n/* x */\n";
    let reg = registry();
    let file_counts = analyze_bytes(&reg, "parity.rs", data);
    let markers = reg.markers_for("Rust");
    let mut lc = LineClassifier::new(&markers);
    for chunk in data.chunks(3) {
        lc.feed(chunk, &markers);
    }
    let reader_counts = lc.finish(&markers);
    assert_eq!(file_counts.total, reader_counts.total);
    assert_eq!(file_counts.code, reader_counts.code);
    assert_eq!(file_counts.comment, reader_counts.comment);
    assert_eq!(file_counts.blank, reader_counts.blank);
}

#[test]
fn mixed_line_and_block_comments_exact_counts() {
    let text = "// line\ncode\n/* block */\ncode /* mid */ more\n/* start\ncontinued\nend */\n";
    let c = classify_bytes(text.as_bytes(), &c_markers());
    assert_eq!(
        c,
        FileCounts { files: 1, total: 7, code: 2, comment: 5, blank: 0 }
    );
}

#[test]
fn unterminated_block_runs_to_end_of_file() {
    let text = "int x;\n/* never closed\nstill comment\nint y;\n";
    let c = classify_bytes(text.as_bytes(), &c_markers());
    assert_eq!(c.total, 4);
    assert_eq!(c.code, 1);
    assert_eq!(c.comment, 3);
    assert_eq!(c.blank, 0);
}

#[test]
fn unterminated_block_without_final_newline() {
    let text = "/* open\n  end? no\nlast line";
    let c = classify_bytes(text.as_bytes(), &c_markers());
    assert_eq!(c, FileCounts { files: 1, total: 3, code: 0, comment: 3, blank: 0 });
}

#[test]
fn whitespace_lines_inside_block_are_blank() {
    let text = "/*\n   \n\t\n*/\n";
    let c = classify_bytes(text.as_bytes(), &c_markers());
    assert_eq!(c, FileCounts { files: 1, total: 4, code: 0, comment: 2, blank: 2 });
}

#[test]
fn code_before_block_start_is_code_and_code_after_end_is_code() {
    let text = "x = 1; /* open\n*/ y = 2;\n";
    let c = classify_bytes(text.as_bytes(), &c_markers());
    assert_eq!(c, FileCounts { files: 1, total: 2, code: 2, comment: 0, blank: 0 });
}

#[test]
fn crlf_lines_count_once() {
    let text = "// a\r\ncode\r\n\r\n";
    let c = classify_bytes(text.as_bytes(), &c_markers());
    assert_eq!(c, FileCounts { files: 1, total: 3, code: 1, comment: 1, blank: 1 });
}

#[test]
fn zero_byte_file() {
    let c = classify_bytes(b"", &c_markers());
    assert_eq!(c, FileCounts { files: 1, total: 0, code: 0, comment: 0, blank: 0 });
    let skipped = counts_with_policy(b"", &c_markers(), true);
    assert_eq!(skipped, FileCounts { files: 0, total: 0, code: 0, comment: 0, blank: 0 });
    let kept = counts_with_policy(b"", &c_markers(), false);
    assert_eq!(kept.files, 1);
}

#[test]
fn totals_add_up_on_varied_inputs() {
    let inputs: [&[u8]; 6] = [
        b"",
        b"\n\n\n",
        b"a\n/*\n\n*/b\n// c\n  \n",
        b"/* x */ /* y */\n/**/ code\n",
        b"no newline at end",
        b"\xff\xfe // not utf8\n/* \xc3\x28 */\n",
    ];
    for input in inputs.iter() {
        let c = classify_bytes(input, &c_markers());
        assert_eq!(c.total, c.code + c.comment + c.blank);
        assert_eq!(c.files, 1);
    }
}

#[test]
fn chunk_boundaries_carry_no_meaning() {
    let text = b"a /* b\nc */ d\n/* e */\n// f\n\n/* g\nh\n*/\r\nend";
    let m = c_markers();
    let whole = classify_bytes(text, &m);
    for split in 0..=text.len() {
        let mut lc = LineClassifier::new(&m);
        lc.feed(&text[..split], &m);
        lc.feed(&text[split..], &m);
        assert_eq!(lc.finish(&m), whole, "split at {}", split);
    }
    for size in 1..5 {
        let mut lc = LineClassifier::new(&m);
        for chunk in text.chunks(size) {
            lc.feed(chunk, &m);
        }
        assert_eq!(lc.finish(&m), whole, "chunks of {}", size);
    }
    assert_eq!(classify_bytes(text, &m), whole);
}

#[test]
fn classify_line_states() {
    let m = c_markers();
    assert_eq!(classify_line_bytes(b"  ", BlockState::InBlock, &m), (LineKind::Blank, BlockState::InBlock));
    assert_eq!(classify_line_bytes(b"x */", BlockState::InBlock, &m), (LineKind::Comment, BlockState::Normal));
    assert_eq!(classify_line_bytes(b"x */ y", BlockState::InBlock, &m), (LineKind::Code, BlockState::Normal));
    assert_eq!(classify_line_bytes(b"  /* a", BlockState::Normal, &m), (LineKind::Comment, BlockState::InBlock));
    assert_eq!(classify_line_bytes(b"  // a", BlockState::Normal, &m), (LineKind::Comment, BlockState::Normal));
    assert_eq!(classify_line_bytes(b"a // b", BlockState::Normal, &m), (LineKind::Code, BlockState::Normal));
}

#[test]
fn unknown_language_counts_every_line_as_code() {
    let c = counts("data.unknownext", "// x\n\ny\n");
    assert_eq!(c, FileCounts { files: 1, total: 3, code: 2, comment: 0, blank: 1 });
}

#[test]
fn merge_is_commutative_and_associative() {
    let a = FileCounts { files: 1, total: 10, code: 6, comment: 3, blank: 1 };
    let b = FileCounts { files: 2, total: 5, code: 1, comment: 1, blank: 3 };
    let c = FileCounts { files: 1, total: 0, code: 0, comment: 0, blank: 0 };
    let mut ab = a;
    ab.merge(&b);
    let mut ba = b;
    ba.merge(&a);
    assert_eq!(ab, ba);
    assert_eq!(ab, FileCounts { files: 3, total: 15, code: 7, comment: 4, blank: 4 });
    let mut ab_c = ab;
    ab_c.merge(&c);
    let mut bc = b;
    bc.merge(&c);
    let mut a_bc = a;
    a_bc.merge(&bc);
    assert_eq!(ab_c, a_bc);
    let mut z = FileCounts::default();
    z.merge(&a);
    assert_eq!(z, a);
    assert_eq!(FileCounts::one_file(), FileCounts { files: 1, total: 0, code: 0, comment: 0, blank: 0 });
}

fn per_file_results() -> Vec<(String, FileCounts)> {
    let reg = registry();
    let files: Vec<(&str, &str)> = vec![
        ("a.rs", "// a\nfn a() {}\n"),
        ("b.py", "# b\nprint(1)\n\n"),
        ("c.rs", "/* c */\n"),
        ("d.md", "# Title\ntext\n"),
        ("e.py", "x = 1\n"),
        ("f.rs", "fn f() {}\nfn g() {}\n"),
        ("g.sh", "#!/bin/sh\necho\n"),
    ];
    files
        .iter()
        .map(|(name, text)| {
            let lang = reg.resolve(name, text.as_bytes()).unwrap();
            (lang, analyze_bytes(&reg, name, text.as_bytes()))
        })
        .collect()
}

fn totals_of(results: &[(String, FileCounts)]) -> LanguageTotals {
    let mut t = LanguageTotals::new();
    for (lang, c) in results {
        t.add(lang, c);
    }
    t
}

#[test]
fn parallel_merge_matches_sequential_scan() {
    let results = per_file_results();
    let seq = totals_of(&results);
    for workers in 2..=results.len() {
        let per_worker = results.len().div_ceil(workers);
        let parts: Vec<LanguageTotals> = results.chunks(per_worker).map(totals_of).collect();
        let mut merged = LanguageTotals::new();
        for p in parts.iter().rev() {
            merged.merge_from(p);
        }
        assert_eq!(merged.totals(), seq.totals());
        assert_eq!(merged.sorted_languages(), seq.sorted_languages());
    }
    let mut reversed = results.clone();
    reversed.reverse();
    assert_eq!(totals_of(&reversed).sorted_languages(), seq.sorted_languages());
}

#[test]
fn language_totals_sum_and_order() {
    let t = totals_of(&per_file_results());
    assert_eq!(t.totals(), FileCounts { files: 7, total: 13, code: 8, comment: 4, blank: 1 });
    assert_eq!(
        t.get(&"Rust".to_string()),
        FileCounts { files: 3, total: 5, code: 3, comment: 2, blank: 0 }
    );
    assert_eq!(t.get(&"Go".to_string()), FileCounts::default());
    let names: Vec<String> = t.sorted_languages().into_iter().map(|(n, _)| n).collect();
    assert_eq!(names, vec!["Rust", "Python", "Markdown", "Shell"]);
}

#[test]
fn ties_sort_by_total_then_name() {
    let mut t = LanguageTotals::new();
    t.add(&"b".to_string(), &FileCounts { files: 1, total: 3, code: 2, comment: 1, blank: 0 });
    t.add(&"a".to_string(), &FileCounts { files: 1, total: 3, code: 2, comment: 0, blank: 1 });
    t.add(&"c".to_string(), &FileCounts { files: 1, total: 4, code: 2, comment: 2, blank: 0 });
    t.add(&"d".to_string(), &FileCounts { files: 1, total: 1, code: 5, comment: 0, blank: 0 });
    let names: Vec<String> = t.sorted_languages().into_iter().map(|(n, _)| n).collect();
    assert_eq!(names, vec!["d", "c", "a", "b"]);
}

#[test]
fn scan_outcomes_and_stats() {
    assert_eq!(file_outcome(false, false, false), FileOutcome::Ignored);
    assert_eq!(file_outcome(false, true, true), FileOutcome::Ignored);
    assert_eq!(file_outcome(true, true, true), FileOutcome::Skipped);
    assert_eq!(file_outcome(true, true, false), FileOutcome::Counted);
    assert_eq!(file_outcome(true, false, true), FileOutcome::Counted);
    let mut s = ScanStats::new();
    s.record(true, false);
    s.record(false, false);
    s.record(true, true);
    assert_eq!(
        s,
        ScanStats { total_files: 3, unique_files: 2, ignored_files: 1, empty_files: 1 }
    );
    let mut t = ScanStats::new();
    t.record(false, true);
    t.merge(&s);
    assert_eq!(
        t,
        ScanStats { total_files: 4, unique_files: 2, ignored_files: 2, empty_files: 1 }
    );
}

#[test]
fn builtin_table_builds_a_registry() {
    assert!(LanguageRegistry::builtin().is_ok());
    assert!(!language_registry().is_empty());
}
