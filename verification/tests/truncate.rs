use zwork_sidecar::truncate::{
    format_size, truncate_head, truncate_line, truncate_str_to_bytes_from_end, truncate_tail,
    TruncatedBy, TruncationOptions,
};

#[test]
fn head_by_lines_and_bytes() {
    let content = "a\nb\nc\nd\n";
    let r = truncate_head(content, TruncationOptions { max_lines: Some(2), max_bytes: None });
    assert_eq!(r.content, "a\nb");
    assert_eq!(r.truncated_by, Some(TruncatedBy::Lines));
    assert_eq!((r.total_lines, r.output_lines), (4, 2));

    let r = truncate_head("aaaa\nbbbb\ncccc", TruncationOptions { max_lines: None, max_bytes: Some(9) });
    assert_eq!(r.content, "aaaa\nbbbb");
    assert_eq!(r.truncated_by, Some(TruncatedBy::Bytes));

    let r = truncate_head("xxxxxxxxxx\ny", TruncationOptions { max_lines: None, max_bytes: Some(5) });
    assert!(r.first_line_exceeds_limit);
    assert_eq!(r.content, "");

    let r = truncate_head("a\nb", TruncationOptions::default());
    assert!(!r.truncated);
}

#[test]
fn tail_by_lines_and_partial() {
    let r = truncate_tail("a\nb\nc\nd", TruncationOptions { max_lines: Some(2), max_bytes: None });
    assert_eq!(r.content, "c\nd");
    assert_eq!(r.truncated_by, Some(TruncatedBy::Lines));

    let r = truncate_tail("short\nthis-line-is-long", TruncationOptions { max_lines: None, max_bytes: Some(4) });
    assert_eq!(r.content, "long");
    assert!(r.last_line_partial);
    assert_eq!(r.truncated_by, Some(TruncatedBy::Bytes));
}

#[test]
fn utf8_boundary_and_sizes() {
    assert_eq!(truncate_str_to_bytes_from_end("héllo", 3), "llo");
    assert_eq!(truncate_str_to_bytes_from_end("héllo", 4), "llo");
    assert_eq!(format_size(512), "512B");
    assert_eq!(format_size(1536), "1.5KB");
    assert_eq!(format_size(2 * 1024 * 1024), "2.0MB");
    let (t, was) = truncate_line("abcdef", 3);
    assert_eq!(t, "abc... [truncated]");
    assert!(was);
}

#[test]
fn format_size_rounds_ties_to_even() {
    // 1.25KB and 1.35KB are exact binary values: ties go to the even digit.
    assert_eq!(format_size(1280), "1.2KB");
    assert_eq!(format_size(1024 + 358), "1.3KB");
    assert_eq!(format_size(1023), "1023B");
    assert_eq!(format_size(1024), "1.0KB");
}

#[test]
fn head_and_tail_keep_everything_under_limits() {
    let r = truncate_tail("x\ny\n", TruncationOptions::default());
    assert!(!r.truncated);
    assert_eq!(r.content, "x\ny\n");
    assert_eq!(r.total_lines, 2);
    assert_eq!(r.total_bytes, 4);
    let r = truncate_head("", TruncationOptions::bytes_only());
    assert_eq!(r.total_lines, 0);
    assert_eq!(r.content, "");
}

#[test]
fn tail_partial_counts_multibyte_bytes() {
    let r = truncate_tail("ab\néééé", TruncationOptions { max_lines: None, max_bytes: Some(5) });
    assert!(r.last_line_partial);
    assert_eq!(r.content, "éé");
    assert_eq!(r.output_bytes, 4);
    assert_eq!(r.output_lines, 1);
}
