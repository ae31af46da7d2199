use zwork_sidecar::edit_diff::{
    apply_edits_to_normalized_content, detect_line_ending, fuzzy_find_text, normalize_for_fuzzy_match,
    normalize_to_lf, restore_line_endings, split_bom, Edit, LineEnding,
};

fn edit(o: &str, n: &str) -> Edit {
    Edit { old_text: o.into(), new_text: n.into() }
}

#[test]
fn exact_multi_edit() {
    let content = "fn a() {}\nfn b() {}\nfn c() {}\n";
    let r = apply_edits_to_normalized_content(content, &[edit("fn c", "fn cc"), edit("fn a", "fn aa")], "x.rs").unwrap();
    assert_eq!(r.new_content, "fn aa() {}\nfn b() {}\nfn cc() {}\n");
}

#[test]
fn fuzzy_match_preserves_untouched_lines() {
    let content = "let s = \u{201C}hi\u{201D};   \nlet t = 1;\nlet u = 2;   \n";
    let r = apply_edits_to_normalized_content(content, &[edit("let s = \"hi\";", "let s = \"bye\";")], "x.rs").unwrap();
    assert_eq!(r.new_content, "let s = \"bye\";\nlet t = 1;\nlet u = 2;   \n");
}

#[test]
fn errors() {
    let content = "a\nb\na\n";
    assert!(apply_edits_to_normalized_content(content, &[edit("zzz", "y")], "f").unwrap_err().contains("Could not find the exact text"));
    assert!(apply_edits_to_normalized_content(content, &[edit("a", "y")], "f").unwrap_err().contains("Found 2 occurrences"));
    assert!(apply_edits_to_normalized_content(content, &[edit("", "y")], "f").unwrap_err().contains("must not be empty"));
    assert!(apply_edits_to_normalized_content(content, &[edit("b", "b")], "f").unwrap_err().contains("No changes made"));
    let err = apply_edits_to_normalized_content("hello world\n", &[edit("hello wor", "x"), edit("world", "y")], "f").unwrap_err();
    assert!(err.contains("overlap"), "{err}");
}

#[test]
fn line_endings_and_bom() {
    assert_eq!(detect_line_ending("a\r\nb"), LineEnding::CrLf);
    assert_eq!(detect_line_ending("a\nb\r\n"), LineEnding::Lf);
    assert_eq!(restore_line_endings("a\nb", LineEnding::CrLf), "a\r\nb");
    assert_eq!(split_bom("\u{FEFF}x"), ("\u{FEFF}", "x"));
}

#[test]
fn error_messages_name_edit_indices() {
    let content = "a\nb\n";
    assert_eq!(
        apply_edits_to_normalized_content(content, &[edit("a", "x"), edit("", "y")], "p").unwrap_err(),
        "edits[1].oldText must not be empty in p."
    );
    assert_eq!(
        apply_edits_to_normalized_content(content, &[edit("a", "x"), edit("q", "y")], "p").unwrap_err(),
        "Could not find edits[1] in p. The oldText must match exactly including all whitespace and newlines."
    );
    assert_eq!(
        apply_edits_to_normalized_content("ab", &[edit("ab", "x"), edit("b", "y")], "p").unwrap_err(),
        "edits[0] and edits[1] overlap in p. Merge them into one edit or target disjoint regions."
    );
}

#[test]
fn normalization_helpers() {
    assert_eq!(normalize_to_lf("a\r\nb\rc"), "a\nb\nc");
    assert_eq!(restore_line_endings("a\nb", LineEnding::Lf), "a\nb");
    assert_eq!(normalize_for_fuzzy_match("x \u{2014} \u{2018}y\u{2019}  \nz\t"), "x - 'y'\nz");
    assert_eq!(split_bom("plain"), ("", "plain"));
    assert_eq!(detect_line_ending("no newline"), LineEnding::Lf);
}

#[test]
fn fuzzy_find_reports_byte_offsets() {
    let r = fuzzy_find_text("héllo world", "world");
    assert!(r.found && !r.used_fuzzy_match);
    assert_eq!((r.index, r.match_length), (7, 5));
    let r = fuzzy_find_text("say \u{201C}hi\u{201D}", "\"hi\"");
    assert!(r.found && r.used_fuzzy_match);
    assert_eq!((r.index, r.match_length), (4, 4));
    let r = fuzzy_find_text("abc", "zz");
    assert!(!r.found);
}

#[test]
fn line_endings_round_trip() {
    let t = "a\nb\n\nc";
    assert_eq!(normalize_to_lf(&restore_line_endings(t, LineEnding::CrLf)), t);
    assert_eq!(normalize_to_lf(&restore_line_endings(t, LineEnding::Lf)), t);
    assert!(!normalize_to_lf("x\r\ny\rz\r").contains('\r'));
}

#[test]
fn fuzzy_normal_form_keeps_lines_and_is_idempotent() {
    let t = "\u{201C}hi\u{201D} \u{2014} x  \n\u{00A0}a\u{2019}b\t\n";
    let r = normalize_for_fuzzy_match(t);
    assert_eq!(r, "\"hi\" - x\n a'b\n");
    assert_eq!(r.split('\n').count(), t.split('\n').count());
    assert_eq!(normalize_for_fuzzy_match(&r), r);
}
