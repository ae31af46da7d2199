//! What a shell command's result says: the captured output (or a stand-in
//! when there is none), a note on how it was truncated and where the full
//! output went, and the command's status.

use vstd::prelude::*;
use crate::output_accumulator::OutputSnapshot;
use crate::text::{chars_of, decimal, decimal_spec, push_str, string_of};
use crate::truncate::{format_size, format_size_spec, TruncatedBy, DEFAULT_MAX_BYTES};

verus! {

/// How a command ended.
#[derive(Debug, Clone, Copy, PartialEq, Eq)]
pub enum ExecOutcome {
    /// It exited, with its exit code when it had one.
    Exited(Option<i32>),
    /// It was aborted.
    Aborted,
    /// It ran past its timeout, in seconds.
    TimedOut(u64),
}

/// `text`, then a blank line and `status`; just `status` when there is no
/// text.
pub open spec fn with_status(text: Seq<char>, status: Seq<char>) -> Seq<char> {
    if text.len() == 0 {
        status
    } else {
        text + "\n\n"@ + status
    }
}

pub fn append_status(text: &str, status: &str) -> (r: String)
    ensures
        r@ == with_status(text@, status@),
{
    let t = chars_of(text);
    if t.len() == 0 {
        return string_of(&chars_of(status));
    }
    let mut out = t;
    push_str(&mut out, "\n\n");
    push_str(&mut out, status);
    string_of(&out)
}

/// The text reporting a snapshot: its content (or `empty` when there is
/// none) and, when truncated, which part is shown and where the full output
/// is.
pub open spec fn output_text(s: OutputSnapshot, last_line_bytes: nat, empty: Seq<char>) -> Seq<char> {
    let t = s.truncation;
    let text = if s.content@.len() == 0 {
        empty
    } else {
        s.content@
    };
    let full = match s.full_output_path {
        Some(p) => p@,
        None => Seq::empty(),
    };
    let start = decimal_spec((t.total_lines - t.output_lines + 1) as nat);
    let end = decimal_spec(t.total_lines as nat);
    if !t.truncated {
        text
    } else if t.last_line_partial {
        text + "\n\n[Showing last "@ + format_size_spec(t.output_bytes as nat) + " of line "@ + end + " (line is "@
            + format_size_spec(last_line_bytes) + "). Full output: "@ + full + "]"@
    } else if t.truncated_by == Some(TruncatedBy::Lines) {
        text + "\n\n[Showing lines "@ + start + "-"@ + end + " of "@ + end + ". Full output: "@ + full + "]"@
    } else {
        text + "\n\n[Showing lines "@ + start + "-"@ + end + " of "@ + end + " ("@ + format_size_spec(
            DEFAULT_MAX_BYTES as nat,
        ) + " limit). Full output: "@ + full + "]"@
    }
}

fn push_decimal(out: &mut Vec<char>, n: usize)
    ensures
        final(out)@ == old(out)@ + decimal_spec(n as nat),
{
    let d = decimal(n as u64);
    let ghost before = out@;
    let mut i: usize = 0;
    while i < d.len()
        invariant
            i <= d@.len(),
            out@ == before + d@.take(i as int),
        decreases d.len() - i,
    {
        out.push(d[i]);
        assert(d@.take(i + 1) =~= d@.take(i as int).push(d@[i as int]));
        i += 1;
    }
    assert(d@.take(d@.len() as int) =~= d@);
}

/// The text of a command's output: the snapshot's content, or `empty_text`
/// when there is none, with a note when it was truncated.
pub fn format_output(snapshot: &OutputSnapshot, last_line_bytes: usize, empty_text: &str) -> (r: String)
    requires
        snapshot.truncation.truncated ==> snapshot.truncation.output_lines <= snapshot.truncation.total_lines
            < usize::MAX,
    ensures
        r@ == output_text(*snapshot, last_line_bytes as nat, empty_text@),
{
    let t = &snapshot.truncation;
    let content = chars_of(snapshot.content.as_str());
    let mut text = if content.len() == 0 {
        chars_of(empty_text)
    } else {
        content
    };
    if !t.truncated {
        return string_of(&text);
    }
    let full = match &snapshot.full_output_path {
        Some(p) => chars_of(p.as_str()),
        None => Vec::new(),
    };
    let start_line = t.total_lines - t.output_lines + 1;
    let end_line = t.total_lines;
    if t.last_line_partial {
        push_str(&mut text, "\n\n[Showing last ");
        push_str(&mut text, format_size(t.output_bytes).as_str());
        push_str(&mut text, " of line ");
        push_decimal(&mut text, end_line);
        push_str(&mut text, " (line is ");
        push_str(&mut text, format_size(last_line_bytes).as_str());
        push_str(&mut text, "). Full output: ");
    } else if t.truncated_by == Some(TruncatedBy::Lines) {
        push_str(&mut text, "\n\n[Showing lines ");
        push_decimal(&mut text, start_line);
        push_str(&mut text, "-");
        push_decimal(&mut text, end_line);
        push_str(&mut text, " of ");
        push_decimal(&mut text, end_line);
        push_str(&mut text, ". Full output: ");
    } else {
        push_str(&mut text, "\n\n[Showing lines ");
        push_decimal(&mut text, start_line);
        push_str(&mut text, "-");
        push_decimal(&mut text, end_line);
        push_str(&mut text, " of ");
        push_decimal(&mut text, end_line);
        push_str(&mut text, " (");
        push_str(&mut text, format_size(DEFAULT_MAX_BYTES).as_str());
        push_str(&mut text, " limit). Full output: ");
    }
    crate::text::push_all(&mut text, full.as_slice());
    push_str(&mut text, "]");
    string_of(&text)
}

/// An exit code in decimal, with a minus sign when negative.
pub open spec fn signed_decimal(c: int) -> Seq<char> {
    if c < 0 {
        "-"@ + decimal_spec((-c) as nat)
    } else {
        decimal_spec(c as nat)
    }
}

fn signed_text(c: i32) -> (r: Vec<char>)
    ensures
        r@ == signed_decimal(c as int),
{
    if c < 0 {
        let mut out = chars_of("-");
        let m: u64 = (0i64 - c as i64) as u64;
        let d = decimal(m);
        crate::text::push_all(&mut out, d.as_slice());
        out
    } else {
        decimal(c as u64)
    }
}

/// What a finished command reports: its output (with "(no output)" standing
/// in for none after a normal exit), and `Ok` exactly when it exited with
/// code 0; otherwise the status is added and the text is the error.
pub open spec fn command_result_spec(outcome: ExecOutcome, s: OutputSnapshot, last_line_bytes: nat) -> Result<
    Seq<char>,
    Seq<char>,
> {
    match outcome {
        ExecOutcome::Aborted => Err(with_status(output_text(s, last_line_bytes, Seq::empty()), "Command aborted"@)),
        ExecOutcome::TimedOut(secs) => Err(
            with_status(
                output_text(s, last_line_bytes, Seq::empty()),
                "Command timed out after "@ + decimal_spec(secs as nat) + " seconds"@,
            ),
        ),
        ExecOutcome::Exited(code) => {
            let text = output_text(s, last_line_bytes, "(no output)"@);
            match code {
                None => Err(with_status(text, "Command terminated without an exit code"@)),
                Some(c) => if c == 0 {
                    Ok(text)
                } else {
                    Err(with_status(text, "Command exited with code "@ + signed_decimal(c as int)))
                },
            }
        },
    }
}

pub open spec fn result_view(r: Result<String, String>) -> Result<Seq<char>, Seq<char>> {
    match r {
        Ok(t) => Ok(t@),
        Err(e) => Err(e@),
    }
}

/// The result text of a finished command.
pub fn command_result(outcome: ExecOutcome, snapshot: &OutputSnapshot, last_line_bytes: usize) -> (r: Result<
    String,
    String,
>)
    requires
        snapshot.truncation.truncated ==> snapshot.truncation.output_lines <= snapshot.truncation.total_lines
            < usize::MAX,
    ensures
        result_view(r) == command_result_spec(outcome, *snapshot, last_line_bytes as nat),
{
    assert(""@ =~= Seq::<char>::empty()) by {
        reveal_strlit("");
    }
    let r = match outcome {
        ExecOutcome::Aborted => {
            let text = format_output(snapshot, last_line_bytes, "");
            let e = append_status(text.as_str(), "Command aborted");
            Err(e)
        },
        ExecOutcome::TimedOut(secs) => {
            let text = format_output(snapshot, last_line_bytes, "");
            let mut status = chars_of("Command timed out after ");
            let d = decimal(secs);
            crate::text::push_all(&mut status, d.as_slice());
            push_str(&mut status, " seconds");
            let st = string_of(&status);
            assert(st@ == "Command timed out after "@ + decimal_spec(secs as nat) + " seconds"@);
            Err(append_status(text.as_str(), st.as_str()))
        },
        ExecOutcome::Exited(code) => {
            let text = format_output(snapshot, last_line_bytes, "(no output)");
            match code {
                None => Err(append_status(text.as_str(), "Command terminated without an exit code")),
                Some(c) => {
                    if c == 0 {
                        Ok(text)
                    } else {
                        let mut status = chars_of("Command exited with code ");
                        let d = signed_text(c);
                        crate::text::push_all(&mut status, d.as_slice());
                        let st = string_of(&status);
                        Err(append_status(text.as_str(), st.as_str()))
                    }
                },
            }
        },
    };
    r
}


/// The script bash runs: the configured command prefix, a newline, then the
/// command; the command alone without a prefix.
pub fn prefixed_command(prefix: Option<&str>, command: &str) -> (r: String)
    ensures
        r@ == (match prefix {
            Some(p) => p@ + "\n"@ + command@,
            None => command@,
        }),
{
    match prefix {
        Some(p) => {
            let mut v = crate::text::chars_of(p);
            crate::text::push_str(&mut v, "\n");
            crate::text::push_str(&mut v, command);
            crate::text::string_of(&v)
        },
        None => crate::text::to_string(command),
    }
}

} // verus!
