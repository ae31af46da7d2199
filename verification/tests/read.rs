use zwork_sidecar::read::read_text_file;

#[test]
fn offset_and_limit() {
    let content = (1..=10).map(|i| format!("l{i}")).collect::<Vec<_>>().join("\n");
    let (out, _) = read_text_file(&content, "f", Some(3), Some(2)).unwrap();
    assert_eq!(out, "l3\nl4\n\n[6 more lines in file. Use offset=5 to continue.]");
    let (out, _) = read_text_file(&content, "f", Some(9), None).unwrap();
    assert_eq!(out, "l9\nl10");
    assert!(read_text_file(&content, "f", Some(11), None).unwrap_err().contains("beyond end of file"));
}

#[test]
fn line_truncation_notice() {
    let content = (1..=2500).map(|i| format!("l{i}")).collect::<Vec<_>>().join("\n");
    let (out, d) = read_text_file(&content, "f", None, None).unwrap();
    assert!(out.ends_with("[Showing lines 1-2000 of 2500. Use offset=2001 to continue.]"));
    assert!(d.is_some());
}

#[test]
fn long_first_line_and_byte_limit_notes() {
    let long = "x".repeat(60_000);
    let (out, d) = read_text_file(&long, "big.txt", None, None).unwrap();
    assert_eq!(
        out,
        "[Line 1 is 58.6KB, exceeds 50.0KB limit. Use bash: sed -n '1p' big.txt | head -c 51200]"
    );
    assert!(d.unwrap().first_line_exceeds_limit);
    let lines = (0..100).map(|_| "y".repeat(1000)).collect::<Vec<_>>().join("\n");
    let (out, _) = read_text_file(&lines, "f", Some(1), None).unwrap();
    assert!(out.ends_with("[Showing lines 1-51 of 100 (50.0KB limit). Use offset=52 to continue.]"));
    assert_eq!(
        read_text_file("a", "f", Some(5), None).unwrap_err(),
        "Offset 5 is beyond end of file (1 lines total)"
    );
    assert_eq!(read_text_file("a\nb", "f", Some(0), Some(5)).unwrap().0, "a\nb");
}
