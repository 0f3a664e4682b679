use simple_grep::highlight::render_highlighted;
use simple_grep::lines::split_lines;
use simple_grep::pattern::{CompiledPattern, PatternError};
use simple_grep::scan::{scan_files, FileContents};
use simple_grep::search::{count, find_matching_lines, matching_texts, LineResult};

fn texts(v: &[LineResult]) -> Vec<String> {
    v.iter().map(|r| r.text.clone()).collect()
}

#[test]
fn lines_follow_newlines() {
    assert_eq!(split_lines("a\nb\n"), vec!["a", "b"]);
    assert_eq!(split_lines("a\nb"), vec!["a", "b"]);
    assert_eq!(split_lines(""), Vec::<String>::new());
    assert_eq!(split_lines("\n"), vec![""]);
    assert_eq!(split_lines("a\n\nb"), vec!["a", "", "b"]);
    assert_eq!(split_lines("a\r\nb\r"), vec!["a", "b\r"]);
}

#[test]
fn count_equals_number_of_matching_lines() {
    let text = "the cat\nno\nthe the\nThe end";
    for (pat, ci, ww) in [("the", false, false), ("the", true, false), ("e", false, true), ("", false, false)] {
        let p = CompiledPattern::compile(pat, ci, ww).unwrap();
        assert_eq!(count(&p, text), find_matching_lines(&p, text).len());
    }
    let p = CompiledPattern::compile("the", true, false).unwrap();
    assert_eq!(count(&p, text), 3);
}

#[test]
fn insensitive_keeps_every_sensitive_match() {
    let text = "The quick\nthe slow\nTHE END\nnothing";
    let sensitive = CompiledPattern::compile("the", false, false).unwrap();
    let insensitive = CompiledPattern::compile("the", true, false).unwrap();
    let s = matching_texts(&sensitive, text);
    let i = matching_texts(&insensitive, text);
    assert_eq!(s, vec!["the slow"]);
    assert_eq!(i, vec!["The quick", "the slow", "THE END"]);
    assert!(s.iter().all(|l| i.contains(l)));
}

#[test]
fn whole_word_is_within_plain_matching() {
    let text = "the cat\nthere\nbathe\nof the";
    let plain = CompiledPattern::compile("the", false, false).unwrap();
    let word = CompiledPattern::compile("the", false, true).unwrap();
    let p = matching_texts(&plain, text);
    let w = matching_texts(&word, text);
    assert_eq!(w, vec!["the cat", "of the"]);
    assert!(w.iter().all(|l| p.contains(l)));
}

#[test]
fn empty_pattern_matches_every_line() {
    let p = CompiledPattern::compile("", false, false).unwrap();
    let found = find_matching_lines(&p, "one\n\nthree");
    assert_eq!(texts(&found), vec!["one", "", "three"]);
    assert!(found.iter().all(|r| r.spans[0] == (0, 0)));
    assert_eq!(count(&p, ""), 0);
    assert_eq!(find_matching_lines(&p, "").len(), 0);
}

#[test]
fn invalid_pattern_is_an_error() {
    assert!(matches!(CompiledPattern::compile("(", false, false), Err(PatternError::InvalidPattern)));
    assert!(matches!(CompiledPattern::compile("a[", true, true), Err(PatternError::InvalidPattern)));
}

#[test]
fn spans_mark_every_occurrence() {
    let p = CompiledPattern::compile("ab", false, false).unwrap();
    let found = find_matching_lines(&p, "xabab ab\nnone");
    assert_eq!(found.len(), 1);
    assert_eq!(found[0].spans, vec![(1, 3), (3, 5), (6, 8)]);
    assert!(found[0].source.is_none());
}

#[test]
fn spans_are_byte_offsets() {
    let p = CompiledPattern::compile("b", false, false).unwrap();
    let found = find_matching_lines(&p, "éb");
    assert_eq!(found[0].spans, vec![(2, 3)]);
    assert_eq!(render_highlighted(&found[0]), "é\x1b[1;31mb\x1b[0m");
}

#[test]
fn highlight_wraps_spans() {
    let p = CompiledPattern::compile("the", true, false).unwrap();
    let found = find_matching_lines(&p, "The other");
    assert_eq!(render_highlighted(&found[0]), "\x1b[1;31mThe\x1b[0m o\x1b[1;31mthe\x1b[0mr");
}

#[test]
fn highlight_with_label_and_empty_span() {
    let r = LineResult { source: Some("dir/a.txt".to_string()), text: "abc".to_string(), spans: vec![(0, 0)] };
    assert_eq!(render_highlighted(&r), "dir/a.txt: \x1b[1;31m\x1b[0mabc");
}

#[test]
fn removing_markers_gives_the_line() {
    let p = CompiledPattern::compile("o", false, false).unwrap();
    let line = "foo boo zoo";
    let found = find_matching_lines(&p, line);
    let shown = render_highlighted(&found[0]);
    assert_ne!(shown, line);
    assert_eq!(shown.replace("\x1b[1;31m", "").replace("\x1b[0m", ""), line);
}

#[test]
fn sensitive_scenario() {
    let p = CompiledPattern::compile("the", false, false).unwrap();
    let found = find_matching_lines(&p, "The quick brown fox\nJumps over the lazy dog\n");
    assert_eq!(texts(&found), vec!["Jumps over the lazy dog"]);
}

#[test]
fn insensitive_scenario() {
    let p = CompiledPattern::compile("the", true, false).unwrap();
    let found = find_matching_lines(&p, "The quick brown fox\nJumps over the lazy dog\n");
    assert_eq!(texts(&found), vec!["The quick brown fox", "Jumps over the lazy dog"]);
}

#[test]
fn whole_word_scenario() {
    let p = CompiledPattern::compile("the", false, true).unwrap();
    let found = find_matching_lines(&p, "the quick brown fox\nthere there\n");
    assert_eq!(texts(&found), vec!["the quick brown fox"]);
}

fn file(path: &str, contents: Option<&str>) -> FileContents {
    FileContents { path: path.to_string(), contents: contents.map(|c| c.to_string()) }
}

#[test]
fn unreadable_file_is_skipped() {
    let p = CompiledPattern::compile("fox", false, false).unwrap();
    let files = vec![file("dir/locked.txt", None), file("dir/ok.txt", Some("a fox\nno\n"))];
    let out = scan_files(&p, &files, false, true);
    assert_eq!(out.lines.len(), 1);
    assert_eq!(out.lines[0].source.as_deref(), Some("dir/ok.txt"));
    assert_eq!(out.lines[0].text, "a fox");
    assert_eq!(out.skipped, vec!["dir/locked.txt"]);
    assert_eq!(render_highlighted(&out.lines[0]), "dir/ok.txt: a \x1b[1;31mfox\x1b[0m");
}

#[test]
fn scan_keeps_file_order() {
    let p = CompiledPattern::compile("x", false, false).unwrap();
    let files = vec![file("a.txt", Some("x1\nx2")), file("sub/b.txt", Some("x3")), file("c.txt", Some("x4"))];
    let first = scan_files(&p, &files, false, true);
    let again = scan_files(&p, &files, false, true);
    assert_eq!(texts(&first.lines), vec!["x1", "x2", "x3", "x4"]);
    assert_eq!(texts(&first.lines), texts(&again.lines));
    assert!(first.counts.is_empty());
}

#[test]
fn scan_counts_per_file() {
    let p = CompiledPattern::compile("a", false, false).unwrap();
    let files = vec![file("one", Some("a\nb\na")), file("two", None), file("three", Some(""))];
    let out = scan_files(&p, &files, true, false);
    assert!(out.lines.is_empty());
    let counts: Vec<(Option<String>, usize)> = out.counts.iter().map(|c| (c.source.clone(), c.count)).collect();
    assert_eq!(counts, vec![(None, 2), (None, 0)]);
    assert_eq!(out.skipped, vec!["two"]);
}
