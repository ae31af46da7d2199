use zwork_sidecar::bash_output::{append_status, command_result, format_output, prefixed_command, ExecOutcome};
use zwork_sidecar::output_accumulator::OutputSnapshot;
use zwork_sidecar::truncate::{TruncatedBy, TruncationResult};

fn snapshot(content: &str, truncated: Option<(TruncatedBy, bool)>, path: Option<&str>) -> OutputSnapshot {
    OutputSnapshot {
        content: content.into(),
        truncation: TruncationResult {
            content: content.into(),
            truncated: truncated.is_some(),
            truncated_by: truncated.map(|t| t.0),
            total_lines: 10,
            total_bytes: 60_000,
            output_lines: 3,
            output_bytes: 512,
            last_line_partial: truncated.map(|t| t.1).unwrap_or(false),
            first_line_exceeds_limit: false,
            max_lines: 2000,
            max_bytes: 51_200,
        },
        full_output_path: path.map(String::from),
    }
}

#[test]
fn status_follows_text_after_a_blank_line() {
    assert_eq!(append_status("", "done"), "done");
    assert_eq!(append_status("out", "done"), "out\n\ndone");
}

#[test]
fn output_notes_say_what_is_shown_and_where_the_rest_is() {
    assert_eq!(format_output(&snapshot("hi", None, None), 0, "(no output)"), "hi");
    assert_eq!(format_output(&snapshot("", None, None), 0, "(no output)"), "(no output)");
    assert_eq!(
        format_output(&snapshot("a\nb\nc", Some((TruncatedBy::Lines, false)), Some("/tmp/x.log")), 0, ""),
        "a\nb\nc\n\n[Showing lines 8-10 of 10. Full output: /tmp/x.log]"
    );
    assert_eq!(
        format_output(&snapshot("a\nb\nc", Some((TruncatedBy::Bytes, false)), Some("/tmp/x.log")), 0, ""),
        "a\nb\nc\n\n[Showing lines 8-10 of 10 (50.0KB limit). Full output: /tmp/x.log]"
    );
    assert_eq!(
        format_output(&snapshot("zzz", Some((TruncatedBy::Bytes, true)), None), 1536, ""),
        "zzz\n\n[Showing last 512B of line 10 (line is 1.5KB). Full output: ]"
    );
}

#[test]
fn command_results_by_outcome() {
    let s = snapshot("out", None, None);
    assert_eq!(command_result(ExecOutcome::Exited(Some(0)), &s, 0), Ok("out".to_string()));
    assert_eq!(command_result(ExecOutcome::Exited(Some(2)), &s, 0), Err("out\n\nCommand exited with code 2".to_string()));
    assert_eq!(command_result(ExecOutcome::Exited(Some(-1)), &s, 0), Err("out\n\nCommand exited with code -1".to_string()));
    assert_eq!(
        command_result(ExecOutcome::Exited(None), &s, 0),
        Err("out\n\nCommand terminated without an exit code".to_string())
    );
    assert_eq!(command_result(ExecOutcome::Aborted, &snapshot("", None, None), 0), Err("Command aborted".to_string()));
    assert_eq!(
        command_result(ExecOutcome::TimedOut(5), &s, 0),
        Err("out\n\nCommand timed out after 5 seconds".to_string())
    );
    assert_eq!(command_result(ExecOutcome::Exited(Some(0)), &snapshot("", None, None), 0), Ok("(no output)".to_string()));
}

#[test]
fn command_prefix_goes_on_its_own_line() {
    assert_eq!(prefixed_command(Some("set -e"), "ls"), "set -e\nls");
    assert_eq!(prefixed_command(None, "ls"), "ls");
}
