//! The decisions of one scheduled-task run: the prompt block the agent
//! runs with, the fold over the agent's stream events, the inbox item the
//! run leaves, and when the task runs next. Starting the agent, reading
//! its stream and writing the stores are the caller's.

use vstd::prelude::*;
use crate::inboxstore::CreateParams;
use crate::scheduler::{advanced_next, compute_next_run, interval_step, next_run_spec};
use crate::schedulestore::ScheduledTask;
use crate::text::{chars_of, push_all, push_str, string_of, to_string, trim_spec, trim_str};

verus! {

pub const SCHEDULED_TASK_HEADING: &'static str = "## Scheduled task\n\nYou are running as a scheduled task named **";

pub const SCHEDULED_TASK_OBJECTIVE: &'static str =
    ".\nYour objective is stated in the user message below. Complete it autonomously.";

pub const SCHEDULED_TASK_NOTES: &'static str =
    "\n\n### Notes from previous runs of the task\nThese are findings you saved on prior runs. Use them as baseline context:\n\n";

pub const SCHEDULED_TASK_REPORTING: &'static str =
    "\n\n### Reporting\n- If you find something the user should act on — an anomaly, a decision needed, a failure — call `post_to_inbox` with a concise title and body. This is how the user hears from you without opening the app.\n- After completing the objective, save any durable, task-relevant findings for future runs via `save_memory` with `target: \"task\"`.\n- Keep your final text response short — the user reads a one-line summary in their inbox, not a full transcript. The detailed transcript lives in the run's chat.";

/// The longest summary an inbox item shows before it is cut.
pub const SUMMARY_CHAR_LIMIT: usize = 600;

pub const ERROR_FALLBACK_BODY: &'static str =
    "The scheduled task encountered an error. Open the run transcript for details.";

/// The system-prompt block a scheduled run gets: who it is and how it is
/// triggered, the notes saved by earlier runs (when there are any), and how
/// to report.
pub open spec fn task_block_spec(title: Seq<char>, trigger: Seq<char>, memory: Seq<char>) -> Seq<char> {
    SCHEDULED_TASK_HEADING@ + title + "**. It runs "@ + trigger + SCHEDULED_TASK_OBJECTIVE@ + (if trim_spec(memory).len()
        == 0 {
        Seq::empty()
    } else {
        SCHEDULED_TASK_NOTES@ + trim_spec(memory)
    }) + SCHEDULED_TASK_REPORTING@
}

pub fn scheduled_task_block(title: &str, trigger: &str, task_memory: &str) -> (r: String)
    ensures
        r@ == task_block_spec(title@, trigger@, task_memory@),
{
    let mut out = chars_of(SCHEDULED_TASK_HEADING);
    push_str(&mut out, title);
    push_str(&mut out, "**. It runs ");
    push_str(&mut out, trigger);
    push_str(&mut out, SCHEDULED_TASK_OBJECTIVE);
    let memory = trim_str(task_memory);
    let ghost before = out@;
    if memory.len() > 0 {
        push_str(&mut out, SCHEDULED_TASK_NOTES);
        push_all(&mut out, memory.as_slice());
    } else {
        assert(before + Seq::<char>::empty() =~= before);
    }
    push_str(&mut out, SCHEDULED_TASK_REPORTING);
    string_of(&out)
}

/// One event of the agent's stream, as far as a scheduled run reads it.
pub enum RunEvent {
    /// Assistant text, when the event carries text.
    Delta(Option<String>),
    /// An error, with its text when it has one.
    Error(Option<String>),
    /// Anything else.
    Other,
}

/// What a run has gathered from its stream so far.
pub struct RunState {
    pub assistant_text: String,
    pub had_error: bool,
    pub error_text: String,
}

/// The gathered state as plain values.
pub open spec fn run_view(s: RunState) -> (Seq<char>, bool, Seq<char>) {
    (s.assistant_text@, s.had_error, s.error_text@)
}

/// One event folded in: text is collected, errors are noted and their texts
/// joined by newlines.
pub open spec fn run_step_spec(s: (Seq<char>, bool, Seq<char>), e: RunEvent) -> (Seq<char>, bool, Seq<char>) {
    match e {
        RunEvent::Delta(Some(t)) => (s.0 + t@, s.1, s.2),
        RunEvent::Error(t) => (
            s.0,
            true,
            match t {
                Some(t) => if s.2.len() == 0 {
                    t@
                } else {
                    s.2 + "\n"@ + t@
                },
                None => s.2,
            },
        ),
        _ => s,
    }
}

/// Nothing gathered yet.
pub fn run_start() -> (r: RunState)
    ensures
        run_view(r) == (Seq::<char>::empty(), false, Seq::<char>::empty()),
{
    RunState { assistant_text: String::new(), had_error: false, error_text: String::new() }
}

/// Fold one stream event into the run's state.
pub fn run_step(state: RunState, event: RunEvent) -> (r: RunState)
    ensures
        run_view(r) == run_step_spec(run_view(state), event),
{
    match event {
        RunEvent::Delta(Some(t)) => {
            let mut a = chars_of(state.assistant_text.as_str());
            push_str(&mut a, t.as_str());
            RunState { assistant_text: string_of(&a), had_error: state.had_error, error_text: state.error_text }
        },
        RunEvent::Error(t) => {
            let error_text = match t {
                Some(t) => {
                    let mut e = chars_of(state.error_text.as_str());
                    if e.len() > 0 {
                        e.push('\n');
                        assert(e@ == state.error_text@ + "\n"@) by {
                            reveal_strlit("\n");
                        }
                    }
                    push_str(&mut e, t.as_str());
                    string_of(&e)
                },
                None => state.error_text,
            };
            RunState { assistant_text: state.assistant_text, had_error: true, error_text }
        },
        _ => state,
    }
}

/// An inbox request as plain values: task, chat, kind, title, body.
pub open spec fn params_view(p: CreateParams) -> (
    Option<Seq<char>>,
    Option<Seq<char>>,
    Option<Seq<char>>,
    Seq<char>,
    Option<Seq<char>>,
) {
    (
        match p.task_id {
            Some(s) => Some(s@),
            None => None,
        },
        match p.chat_id {
            Some(s) => Some(s@),
            None => None,
        },
        match p.kind {
            Some(s) => Some(s@),
            None => None,
        },
        p.title@,
        match p.body {
            Some(s) => Some(s@),
            None => None,
        },
    )
}

/// What a finished run posts to the inbox: an error item when the stream
/// reported an error; otherwise a summary of the trimmed assistant text,
/// cut to 600 characters with an ellipsis, or nothing when it is empty.
pub open spec fn run_report_spec(
    s: (Seq<char>, bool, Seq<char>),
    task_id: Seq<char>,
    chat_id: Seq<char>,
    title: Seq<char>,
) -> Option<(Option<Seq<char>>, Option<Seq<char>>, Option<Seq<char>>, Seq<char>, Option<Seq<char>>)> {
    if s.1 {
        Some(
            (
                Some(task_id),
                Some(chat_id),
                Some("error"@),
                "“"@ + title + "” hit an error"@,
                Some(
                    if s.2.len() == 0 {
                        ERROR_FALLBACK_BODY@
                    } else {
                        s.2
                    },
                ),
            ),
        )
    } else {
        let summary = trim_spec(s.0);
        if summary.len() == 0 {
            None
        } else {
            Some(
                (
                    Some(task_id),
                    Some(chat_id),
                    Some("summary"@),
                    "“"@ + title + "” finished"@,
                    Some(
                        if summary.len() > SUMMARY_CHAR_LIMIT {
                            summary.take(SUMMARY_CHAR_LIMIT as int) + "…"@
                        } else {
                            summary
                        },
                    ),
                ),
            )
        }
    }
}

fn quoted_title(title: &str, tail: &str) -> (r: String)
    ensures
        r@ == "“"@ + title@ + tail@,
{
    let mut t = chars_of("“");
    push_str(&mut t, title);
    push_str(&mut t, tail);
    string_of(&t)
}

/// The inbox item a finished run leaves, if any.
pub fn run_report(state: &RunState, task_id: &str, chat_id: &str, task_title: &str) -> (r: Option<CreateParams>)
    ensures
        match r {
            Some(p) => run_report_spec(run_view(*state), task_id@, chat_id@, task_title@) == Some(params_view(p)),
            None => run_report_spec(run_view(*state), task_id@, chat_id@, task_title@) is None,
        },
{
    if state.had_error {
        let body = if state.error_text.as_str().is_empty() {
            to_string(ERROR_FALLBACK_BODY)
        } else {
            to_string(state.error_text.as_str())
        };
        return Some(
            CreateParams {
                task_id: Some(to_string(task_id)),
                chat_id: Some(to_string(chat_id)),
                kind: Some(to_string("error")),
                title: quoted_title(task_title, "” hit an error"),
                body: Some(body),
            },
        );
    }
    let summary = trim_str(state.assistant_text.as_str());
    if summary.len() == 0 {
        return None;
    }
    let body = if summary.len() > SUMMARY_CHAR_LIMIT {
        let mut cut = crate::text::slice_of(summary.as_slice(), 0, SUMMARY_CHAR_LIMIT);
        push_str(&mut cut, "…");
        assert(summary@.subrange(0, SUMMARY_CHAR_LIMIT as int) =~= summary@.take(SUMMARY_CHAR_LIMIT as int));
        string_of(&cut)
    } else {
        string_of(&summary)
    };
    Some(
        CreateParams {
            task_id: Some(to_string(task_id)),
            chat_id: Some(to_string(chat_id)),
            kind: Some(to_string("summary")),
            title: quoted_title(task_title, "” finished"),
            body: Some(body),
        },
    )
}

/// When a task runs next after a run that finished at `finished_at`, given
/// the local calendar (see `compute_next_run`): its computed next slot, or
/// an hour later when none can be computed.
pub fn next_run_after(task: &ScheduledTask, finished_at: u64, today: i32, stamps: &[Option<u64>]) -> (r: u64)
    requires
        finished_at <= u64::MAX - 3_600_000,
        task.interval_minutes matches Some(mins) ==> finished_at + interval_step(mins) <= u64::MAX,
        1 <= today < 100_000_000,
        stamps@.len() == 8,
    ensures
        r == advanced_next(next_run_spec(*task, finished_at, today as int, stamps@), finished_at),
{
    match compute_next_run(task, finished_at, today, stamps) {
        Some(n) => n,
        None => finished_at + 3_600_000,
    }
}

} // verus!
