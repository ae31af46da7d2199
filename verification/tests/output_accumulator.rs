use zwork_sidecar::output_accumulator::{OutputAccumulator, OutputAccumulatorOptions, OutputSnapshot, Retain};
use zwork_sidecar::truncate::TruncatedBy;

/// Runs an accumulator the way its owner does, with an in-memory file.
struct Driver {
    acc: OutputAccumulator,
    file: Option<Vec<u8>>,
    file_fails: bool,
}

impl Driver {
    fn new(options: OutputAccumulatorOptions) -> Self {
        Driver { acc: OutputAccumulator::new(options), file: None, file_fails: false }
    }

    fn ensure_temp_file(&mut self) {
        if !self.acc.needs_temp_file() || self.file_fails {
            return;
        }
        let mut f = Vec::new();
        for chunk in self.acc.take_raw_chunks() {
            f.extend_from_slice(&chunk);
        }
        self.file = Some(f);
        let path = format!("/tmp/{}-test.log", self.acc.temp_file_prefix());
        self.acc.temp_file_opened(path);
    }

    fn append(&mut self, data: &[u8]) {
        if self.acc.append(data) {
            self.ensure_temp_file();
            if self.acc.temp_file_open() {
                self.file.as_mut().unwrap().extend_from_slice(data);
            }
        }
    }

    fn finish(&mut self) {
        if self.acc.finish() {
            self.ensure_temp_file();
        }
    }

    fn snapshot(&mut self, persist: bool) -> OutputSnapshot {
        let (mut snap, wants_file) = self.acc.snapshot(persist);
        if wants_file {
            self.ensure_temp_file();
            snap.full_output_path = self.acc.temp_file_path();
        }
        snap
    }
}

#[test]
fn small_output_is_not_truncated() {
    let mut acc = Driver::new(OutputAccumulatorOptions::default());
    acc.append(b"hello\nwor");
    acc.append(b"ld\n");
    acc.finish();
    let snap = acc.snapshot(true);
    assert_eq!(snap.content, "hello\nworld\n");
    assert!(!snap.truncation.truncated);
    assert_eq!(snap.truncation.total_lines, 2);
    assert!(snap.full_output_path.is_none());
}

#[test]
fn large_output_spills_to_temp_file_and_keeps_tail() {
    let mut acc = Driver::new(OutputAccumulatorOptions {
        max_lines: Some(3),
        max_bytes: Some(1000),
        temp_file_prefix: Some("zwork-test".into()),
        retain: None,
    });
    for i in 0..10 {
        acc.append(format!("line{i}\n").as_bytes());
    }
    acc.finish();
    let snap = acc.snapshot(true);
    assert!(snap.truncation.truncated);
    assert_eq!(snap.truncation.truncated_by, Some(TruncatedBy::Lines));
    assert_eq!(snap.truncation.total_lines, 10);
    assert_eq!(snap.content, "line7\nline8\nline9");
    assert_eq!(snap.full_output_path.as_deref(), Some("/tmp/zwork-test-test.log"));
    acc.acc.close_temp_file();
    let full = String::from_utf8(acc.file.clone().unwrap()).unwrap();
    assert_eq!(full.lines().count(), 10);
}

#[test]
fn split_utf8_sequences_decode_correctly() {
    let mut acc = Driver::new(OutputAccumulatorOptions::default());
    let bytes = "é".as_bytes();
    acc.append(&bytes[..1]);
    acc.append(&bytes[1..]);
    acc.finish();
    assert_eq!(acc.snapshot(false).content, "é");
}

#[test]
fn head_retention_keeps_first_lines() {
    let mut acc = Driver::new(OutputAccumulatorOptions {
        max_lines: Some(3),
        max_bytes: Some(1000),
        retain: Some(Retain::Head),
        temp_file_prefix: Some("zwork-test".into()),
    });
    for i in 0..10 {
        acc.append(format!("line{i}\n").as_bytes());
    }
    acc.finish();
    let snap = acc.snapshot(true);
    assert!(snap.truncation.truncated);
    assert!(snap.content.starts_with("line0\n"));
    assert!(snap.content.contains("line2"));
    assert!(!snap.content.contains("line5"));
}

#[test]
fn sanitizes_control_characters() {
    let mut acc = Driver::new(OutputAccumulatorOptions::default());
    acc.append("ok\u{0}\u{7}\u{1f}bo\u{9}lt\u{fff9}o\n".as_bytes());
    acc.finish();
    // Tab survives; C0 controls and interlinear annotation marks don't.
    assert_eq!(acc.snapshot(false).content, "okbo\tlto\n");
}

#[test]
fn counts_bytes_lines_and_the_open_line() {
    let mut acc = Driver::new(OutputAccumulatorOptions::default());
    acc.append(b"ab\ncd");
    assert_eq!(acc.acc.last_line_bytes(), 2);
    acc.append("é".as_bytes());
    assert_eq!(acc.acc.last_line_bytes(), 4);
    let snap = acc.snapshot(false);
    assert_eq!(snap.truncation.total_lines, 2);
    assert_eq!(snap.truncation.total_bytes, 7);
    acc.append(b"\n");
    assert_eq!(acc.acc.last_line_bytes(), 0);
    assert_eq!(acc.snapshot(false).truncation.total_lines, 2);
}

#[test]
fn invalid_bytes_become_replacement_characters() {
    let mut acc = Driver::new(OutputAccumulatorOptions::default());
    acc.append(&[b'a', 0xff, b'b']);
    acc.append(&[0xe2, 0x82]);
    acc.finish();
    assert_eq!(acc.snapshot(false).content, "a\u{fffd}b\u{fffd}");
}

#[test]
fn rolling_window_trims_and_starts_at_a_whole_line() {
    // max_bytes 5 gives a rolling window of 10 bytes, trimmed past 20.
    let mut acc = Driver::new(OutputAccumulatorOptions { max_bytes: Some(5), max_lines: Some(100), ..Default::default() });
    acc.append(b"0123456789\nabcdefghij\nklm\n");
    let snap = acc.snapshot(false);
    // The window kept the last 10 bytes, "fghij\nklm\n"; it starts
    // mid-line, so the snapshot starts after its first newline.
    assert!(snap.truncation.truncated);
    assert_eq!(snap.truncation.total_lines, 3);
    assert_eq!(snap.content, "klm\n");
    assert_eq!(snap.truncation.truncated_by, Some(TruncatedBy::Bytes));
}

#[test]
fn output_after_finish_is_ignored_and_buffering_stops_at_the_limit() {
    let mut acc = Driver::new(OutputAccumulatorOptions { max_bytes: Some(4), ..Default::default() });
    acc.append(b"abc");
    assert!(acc.file.is_none());
    acc.append(b"de");
    // Past the byte limit: the file is made with everything so far.
    assert_eq!(acc.file.as_deref(), Some(&b"abcde"[..]));
    acc.finish();
    acc.append(b"zzz");
    assert_eq!(acc.file.as_deref(), Some(&b"abcde"[..]));
    assert_eq!(acc.snapshot(false).truncation.total_bytes, 5);

    // When the file cannot be made, spilled chunks are lost, as before.
    let mut failing = Driver::new(OutputAccumulatorOptions { max_bytes: Some(2), ..Default::default() });
    failing.file_fails = true;
    failing.append(b"abc");
    assert!(failing.file.is_none());
    assert!(failing.acc.needs_temp_file());
}
