use zwork_sidecar::glob::glob_to_regex;
use zwork_sidecar::listing::{find_entry, find_glob, find_output, ls_output};

fn strings(v: &[&str]) -> Vec<String> {
    v.iter().map(|s| s.to_string()).collect()
}

#[test]
fn ls_marks_directories_and_limits() {
    let names = strings(&["a", "B", "c", "d"]);
    let kinds = vec![Some(false), Some(true), None, Some(false)];
    assert_eq!(ls_output(&names, &kinds, 500).text, "a\nB/\nd");
    assert_eq!(ls_output(&names, &kinds, 2).text, "a\nB/\n\n[2 entries limit reached. Use limit=4 for more]");
    assert_eq!(ls_output(&names, &kinds, 3).text, "a\nB/\nd");
    assert_eq!(ls_output(&vec![], &vec![], 5).text, "(empty directory)");
    assert_eq!(ls_output(&strings(&["x"]), &vec![None], 5).text, "(empty directory)");
}

#[test]
fn find_globs_and_entries() {
    assert_eq!(find_glob("*.rs"), ("*.rs".to_string(), false));
    assert_eq!(find_glob("src/deep/*.rs"), ("**/src/deep/*.rs".to_string(), true));
    assert_eq!(find_glob("**/x/*.rs"), ("**/x/*.rs".to_string(), true));
    assert_eq!(find_glob("/x/*.rs"), ("/x/*.rs".to_string(), true));
    let (g, full) = find_glob("*.rs");
    let re = glob_to_regex(&g, false).ok().unwrap();
    assert_eq!(find_entry(&re, "/r/src/a.rs", "/r", false, full), Some("src/a.rs".to_string()));
    assert_eq!(find_entry(&re, "/r/c.txt", "/r", false, full), None);
    assert_eq!(find_entry(&re, "/r", "/r", true, full), None);
    let (g, full) = find_glob("src/deep/*.rs");
    let re = glob_to_regex(&g, false).ok().unwrap();
    assert_eq!(find_entry(&re, "/r/src/deep/b.rs", "/r", false, full), Some("src/deep/b.rs".to_string()));
    assert_eq!(find_entry(&re, "/r/src/a.rs", "/r", false, full), None);
    let (g, full) = find_glob("deep");
    let re = glob_to_regex(&g, false).ok().unwrap();
    assert_eq!(find_entry(&re, "/r/src/deep", "/r", true, full), Some("src/deep/".to_string()));
}

#[test]
fn find_report() {
    assert_eq!(find_output(&strings(&["src/a.rs", "src/deep/b.rs"]), 1000, false).text, "src/a.rs\nsrc/deep/b.rs");
    assert_eq!(find_output(&vec![], 1000, false).text, "No files found matching pattern");
    assert_eq!(
        find_output(&strings(&["src/a.rs"]), 1, true).text,
        "src/a.rs\n\n[1 results limit reached. Use limit=2 for more, or refine pattern]"
    );
}
