use zwork_sidecar::path_utils::{
    expand_path, expand_path_in, normalize_lexically, pick_read_path, read_path_candidates,
    relative_posix, resolve_to_cwd, resolve_to_cwd_in, try_curly_quote_variant,
    try_macos_screenshot_path,
};

#[test]
fn resolves_relative_tilde_and_dots() {
    let cwd = "/work/proj";
    assert_eq!(resolve_to_cwd("src/../lib/a.rs", cwd), "/work/proj/lib/a.rs");
    assert_eq!(resolve_to_cwd("/abs/x", cwd), "/abs/x");
    assert_eq!(resolve_to_cwd("@./a.txt", cwd), "/work/proj/a.txt");
    assert!(resolve_to_cwd("~/x", cwd).starts_with('/'));
    assert_eq!(resolve_to_cwd("a\u{00A0}b", cwd), "/work/proj/a b");
}

#[test]
fn screenshot_variant_inserts_narrow_space() {
    let p = "/x/Screenshot 2024-01-01 at 3.14.15 PM.png";
    assert_eq!(try_macos_screenshot_path(p), "/x/Screenshot 2024-01-01 at 3.14.15\u{202F}PM.png");
}

#[test]
fn relative_posix_outside_is_none() {
    assert_eq!(relative_posix("/a/b/c", "/a"), Some("b/c".into()));
    assert_eq!(relative_posix("/z", "/a"), None);
}

#[test]
fn expansion_with_a_given_home() {
    assert_eq!(expand_path_in("~", "/home/u"), "/home/u");
    assert_eq!(expand_path_in("~/docs/a.md", "/home/u"), "/home/u/docs/a.md");
    assert_eq!(expand_path_in("~/docs", "/home/u/"), "/home/u/docs");
    assert_eq!(expand_path_in("file:///tmp/x", "/home/u"), "/tmp/x");
    assert_eq!(expand_path_in("@rel/p", "/home/u"), "rel/p");
    assert_eq!(expand_path("plain"), "plain");
    assert_eq!(resolve_to_cwd_in("~/x/../y", "/w", "/h"), "/h/y");
}

#[test]
fn lexical_normalization_edges() {
    assert_eq!(normalize_lexically("a/./b//c/"), "a/b/c");
    assert_eq!(normalize_lexically("../x"), "../x");
    assert_eq!(normalize_lexically("../../x"), "../../x");
    assert_eq!(normalize_lexically("a/../../x"), "../x");
    assert_eq!(normalize_lexically("/../x"), "/../x");
    assert_eq!(normalize_lexically("/a/b/../../.."), "/..");
    assert_eq!(normalize_lexically("./"), "");
}

#[test]
fn read_path_variants_and_choice() {
    let c = read_path_candidates("/d/it's 1 AM.png");
    assert_eq!(c[1], "/d/it's 1\u{202F}AM.png");
    assert_eq!(c[2], "/d/it\u{2019}s 1 AM.png");
    assert_eq!(try_curly_quote_variant("a'b'"), "a\u{2019}b\u{2019}");
    assert_eq!(pick_read_path(&c, &[true, true, true]), c[0]);
    assert_eq!(pick_read_path(&c, &[false, false, true]), c[2]);
    assert_eq!(pick_read_path(&c, &[false, false, false]), c[0]);
    let same = read_path_candidates("/plain");
    assert_eq!(pick_read_path(&same, &[false, true, true]), "/plain");
}

#[test]
fn relative_posix_of_equal_and_dotted_paths() {
    assert_eq!(relative_posix("/a", "/a"), Some(String::new()));
    assert_eq!(relative_posix("/a/./b", "/a/"), Some("b".into()));
    assert_eq!(relative_posix("a/b", "/a"), None);
}
