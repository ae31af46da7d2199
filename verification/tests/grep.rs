use zwork_sidecar::grep::{
    compile_grep_regex, effective_limit, glob_admits, grep_display_path, grep_file_lines, grep_output, grep_pattern,
    is_binary, scan_text, GrepMatch,
};
use zwork_sidecar::glob::glob_to_regex;

fn m(path: &str, line: usize) -> GrepMatch {
    GrepMatch { path: path.into(), line_number: line }
}

fn lines(text: &str) -> Vec<String> {
    grep_file_lines(text)
}

#[test]
fn pattern_and_regex() {
    assert_eq!(grep_pattern("a.b(c)", true), "a\\.b\\(c\\)");
    assert_eq!(grep_pattern("a.b", false), "a.b");
    let re = compile_grep_regex("TARGET", true).ok().unwrap();
    assert!(re.is_match("fn target() {}"));
    let cs = compile_grep_regex("TARGET", false).ok().unwrap();
    assert!(!cs.is_match("fn target() {}"));
    let err = compile_grep_regex("(", false).err().unwrap();
    assert!(err.starts_with("Invalid regex pattern: "), "{err}");
    assert_eq!(effective_limit(None), 100);
    assert_eq!(effective_limit(Some(0)), 1);
    assert_eq!(effective_limit(Some(7)), 7);
}

#[test]
fn scanning_stops_at_the_limit() {
    let re = compile_grep_regex("x", false).ok().unwrap();
    assert_eq!(scan_text(&re, "x\r\nno\nx\nx", 0, 10), (vec![1, 3, 4], false));
    assert_eq!(scan_text(&re, "x\nno\nx\nx", 1, 3), (vec![1, 3], true));
    let anchored = compile_grep_regex("x$", false).ok().unwrap();
    assert_eq!(scan_text(&anchored, "ax\r\n", 0, 5), (vec![1], false));
    assert!(is_binary(b"ab\0c"));
    assert!(!is_binary(b"abc"));
}

#[test]
fn paths_and_glob_filter() {
    assert_eq!(grep_display_path("/r/src/a.rs", "/r", true), "src/a.rs");
    assert_eq!(grep_display_path("/r/src/a.rs", "/r/src/a.rs", false), "a.rs");
    assert_eq!(grep_display_path("/other/b.txt", "/r", true), "b.txt");
    let g = glob_to_regex("*.rs", false).ok().unwrap();
    assert!(glob_admits(&g, "/r/src/a.rs", "/r"));
    assert!(!glob_admits(&g, "/r/b.txt", "/r"));
}

#[test]
fn report_with_context_and_formats() {
    let fl = lines("one\r\nfn target() {}\nthree\n");
    let out = grep_output(&vec![m("src/a.rs", 2)], &vec![fl.clone()], 1, 100, false);
    assert_eq!(out.text, "src/a.rs-1- one\nsrc/a.rs:2: fn target() {}\nsrc/a.rs-3- three");
    assert!(out.match_limit.is_none() && out.truncation.is_none());
    let out = grep_output(&vec![m("src/a.rs", 2), m("b.txt", 1)], &vec![fl, lines("target here\n")], 0, 100, false);
    assert_eq!(out.text, "src/a.rs:2: fn target() {}\nb.txt:1: target here");
    assert_eq!(grep_output(&vec![], &vec![], 0, 100, false).text, "No matches found");
}

#[test]
fn report_notices() {
    let out = grep_output(&vec![m("a", 1)], &vec![lines("target")], 0, 1, true);
    assert_eq!(out.text, "a:1: target\n\n[1 matches limit reached. Use limit=2 for more, or refine pattern]");
    assert_eq!(out.match_limit, Some(1));
    let long = "x".repeat(600);
    let out = grep_output(&vec![m("a", 1)], &vec![vec![long]], 0, 100, false);
    assert_eq!(
        out.text,
        format!("a:1: {}... [truncated]\n\n[Some lines truncated to 500 chars. Use read tool to see full lines]", "x".repeat(500))
    );
    let out = grep_output(&vec![m("gone", 3)], &vec![vec![]], 2, 100, false);
    assert_eq!(out.text, "gone:3: (unable to read file)");
    let many: Vec<GrepMatch> = (1..=400).map(|i| m("f", i)).collect();
    let file: Vec<String> = (0..400).map(|_| "y".repeat(200)).collect();
    let fls: Vec<Vec<String>> = (0..400).map(|_| file.clone()).collect();
    let out = grep_output(&many, &fls, 0, 1000, false);
    assert!(out.truncation.is_some());
    assert!(out.text.ends_with("\n\n[50.0KB limit reached]"), "{}", &out.text[out.text.len() - 40..]);
}
