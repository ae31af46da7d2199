use zwork_sidecar::diff::{diff_string_from_changes, generate_diff_string, generate_unified_patch};

#[test]
fn diff_string_and_patch() {
    let old = (1..=12).map(|i| format!("line{i}")).collect::<Vec<_>>().join("\n") + "\n";
    let new = old.replace("line6", "LINE6");
    let d = generate_diff_string(&old, &new, 2);
    assert_eq!(d.first_changed_line, Some(6));
    let expected = " \u{20}\u{20} ...\n  4 line4\n  5 line5\n- 6 line6\n+ 6 LINE6\n  7 line7\n  8 line8\n    ...";
    assert_eq!(d.diff, expected);
    let patch = generate_unified_patch("x.txt", &old, &new, 1);
    assert!(patch.contains("--- x.txt"));
    assert!(patch.contains("-line6\n+LINE6"));
}

#[test]
fn rendering_from_given_changes() {
    let ch = vec![
        (0u8, "a\n".to_string()),
        (2u8, "b\n".to_string()),
        (1u8, "B\n".to_string()),
        (0u8, "c\n".to_string()),
        (0u8, "d\n".to_string()),
        (0u8, "e\n".to_string()),
        (1u8, "f\n".to_string()),
    ];
    let d = diff_string_from_changes(&ch, 6, 7, 1);
    assert_eq!(d.first_changed_line, Some(2));
    assert_eq!(d.diff, " 1 a\n-2 b\n+2 B\n 3 c\n   ...\n 5 e\n+6 f");
    let none = diff_string_from_changes(&vec![(0u8, "x\n".to_string())], 2, 2, 3);
    assert_eq!(none.first_changed_line, None);
    assert_eq!(none.diff, "");
    let same = generate_diff_string("a\nb\n", "a\nb\n", 2);
    assert_eq!(same.first_changed_line, None);
}
