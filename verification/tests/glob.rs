use zwork_sidecar::glob::{glob_regex_source, glob_to_regex, is_ignored, parse_gitignore};

#[test]
fn glob_semantics() {
    let m = |g: &str, s: &str| glob_to_regex(g, false).unwrap().is_match(s);
    assert!(m("*.ts", "a.ts"));
    assert!(!m("*.ts", "dir/a.ts"));
    assert!(m("**/*.ts", "a.ts"));
    assert!(m("**/*.ts", "x/y/a.ts"));
    assert!(m("src/**/*.spec.ts", "src/a/b.spec.ts"));
    assert!(m("src/**/*.spec.ts", "src/b.spec.ts"));
    assert!(m("a?c", "abc"));
    assert!(m("*.{js,ts}", "a.ts"));
    assert!(!m("*.{js,ts}", "a.rs"));
    assert!(m("[ab]*", "bx"));
    assert!(!m("[!ab]*", "bx"));
    assert!(glob_to_regex("*.TS", true).unwrap().is_match("a.ts"));
}

#[test]
fn glob_sources_are_exact() {
    assert_eq!(glob_regex_source("*.ts", false), r"^[^/]*\.ts$");
    assert_eq!(glob_regex_source("**/a", false), r"^(?:.*/)?a$");
    assert_eq!(glob_regex_source("a**", false), r"^a.*$");
    assert_eq!(glob_regex_source("[!a\\]x", false), r"^[^a\\]x$");
    assert_eq!(glob_regex_source("[x", false), r"^\[x$");
    assert_eq!(glob_regex_source("{a,b}", true), r"(?i)^(?:a|b)$");
    assert_eq!(glob_regex_source("a,b}", false), r"^a,b\}$");
    assert_eq!(glob_regex_source("\\*x\\", false), r"^\*x\\$");
    assert_eq!(glob_to_regex("*.ts", false).unwrap().as_str(), r"^[^/]*\.ts$");
}

#[test]
fn invalid_glob_reports_the_pattern() {
    let e = glob_to_regex("[]", false).err().unwrap();
    assert!(e.starts_with("invalid glob '[]': "), "{e}");
}

#[test]
fn gitignore_rules_as_a_walk_sees_them() {
    let root = "/w";
    let top = parse_gitignore(root, "build/\n*.log\n!keep.log\n/root-only.txt\n\n# comment\n");
    let nested = parse_gitignore("/w/src/nested", "secret.txt\r\n");
    assert_eq!(top.rules.len(), 4);
    assert_eq!(nested.rules.len(), 1);
    let stack = vec![top, nested];
    assert!(is_ignored(&stack[..1], "/w/build", true));
    assert!(!is_ignored(&stack[..1], "/w/build", false));
    assert!(is_ignored(&stack[..1], "/w/src/x.log", false));
    assert!(!is_ignored(&stack[..1], "/w/src/keep.log", false));
    assert!(is_ignored(&stack[..1], "/w/root-only.txt", false));
    assert!(!is_ignored(&stack[..1], "/w/src/root-only.txt", false));
    assert!(!is_ignored(&stack[..1], "/w/src/a.rs", false));
    assert!(is_ignored(&stack, "/w/src/nested/secret.txt", false));
    assert!(!is_ignored(&stack, "/w/src/nested/b.rs", false));
    assert!(!is_ignored(&stack, "/w/secret.txt", false));
}
