use zwork_sidecar::scheduled_run::{
    next_run_after, run_report, run_start, run_step, scheduled_task_block, RunEvent, RunState,
};
use zwork_sidecar::schedulestore::ScheduledTask;

fn task(interval: Option<u32>, daily_time: Option<&str>) -> ScheduledTask {
    ScheduledTask {
        id: "t1".into(),
        title: "Digest".into(),
        prompt: "summarise".into(),
        trigger_type: "time".into(),
        interval_minutes: interval,
        daily_time: daily_time.map(String::from),
        daily_weekdays: None,
        enabled: true,
        notify_channel: "inbox".into(),
        model: None,
        created_at: 0,
        updated_at: 0,
        last_run_at: None,
        next_run_at: None,
        last_chat_id: None,
    }
}

fn fold(events: Vec<RunEvent>) -> RunState {
    let mut s = run_start();
    for e in events {
        s = run_step(s, e);
    }
    s
}

#[test]
fn task_block_without_memory_has_no_notes_section() {
    let b = scheduled_task_block("Digest", "every 30 minutes", "  \n ");
    assert!(b.starts_with("## Scheduled task\n\nYou are running as a scheduled task named **Digest**. It runs every 30 minutes.\nYour objective"));
    assert!(!b.contains("Notes from previous runs"));
    assert!(b.contains("### Reporting\n- If you find something"));
    assert!(b.ends_with("The detailed transcript lives in the run's chat."));
}

#[test]
fn task_block_with_memory_holds_trimmed_notes() {
    let b = scheduled_task_block("Digest", "daily at 09:00", "\n  saw 3 alerts  \n");
    assert!(b.contains(
        "\n\n### Notes from previous runs of the task\nThese are findings you saved on prior runs. Use them as baseline context:\n\nsaw 3 alerts\n\n### Reporting"
    ));
}

#[test]
fn stream_fold_collects_text_and_joins_errors() {
    let s = fold(vec![
        RunEvent::Delta(Some("Hel".into())),
        RunEvent::Other,
        RunEvent::Delta(None),
        RunEvent::Delta(Some("lo".into())),
        RunEvent::Error(Some("first".into())),
        RunEvent::Error(None),
        RunEvent::Error(Some("second".into())),
    ]);
    assert_eq!(s.assistant_text, "Hello");
    assert!(s.had_error);
    assert_eq!(s.error_text, "first\nsecond");
}

#[test]
fn error_run_reports_error_item() {
    let s = fold(vec![RunEvent::Delta(Some("partial".into())), RunEvent::Error(Some("boom".into()))]);
    let p = run_report(&s, "t1", "c9", "Digest").unwrap();
    assert_eq!(p.task_id.as_deref(), Some("t1"));
    assert_eq!(p.chat_id.as_deref(), Some("c9"));
    assert_eq!(p.kind.as_deref(), Some("error"));
    assert_eq!(p.title, "“Digest” hit an error");
    assert_eq!(p.body.as_deref(), Some("boom"));
}

#[test]
fn error_without_text_gets_fallback_body() {
    let s = fold(vec![RunEvent::Error(None)]);
    let p = run_report(&s, "t1", "c9", "Digest").unwrap();
    assert_eq!(
        p.body.as_deref(),
        Some("The scheduled task encountered an error. Open the run transcript for details.")
    );
}

#[test]
fn clean_run_reports_trimmed_summary() {
    let s = fold(vec![RunEvent::Delta(Some("  all good \n".into()))]);
    let p = run_report(&s, "t1", "c9", "Digest").unwrap();
    assert_eq!(p.kind.as_deref(), Some("summary"));
    assert_eq!(p.title, "“Digest” finished");
    assert_eq!(p.body.as_deref(), Some("all good"));
}

#[test]
fn long_summary_is_cut_at_600_chars_with_ellipsis() {
    let text: String = "é".repeat(700);
    let s = fold(vec![RunEvent::Delta(Some(text))]);
    let p = run_report(&s, "t1", "c9", "Digest").unwrap();
    let body = p.body.unwrap();
    assert_eq!(body.chars().count(), 601);
    assert_eq!(body, format!("{}…", "é".repeat(600)));

    let exact: String = "a".repeat(600);
    let s = fold(vec![RunEvent::Delta(Some(exact.clone()))]);
    assert_eq!(run_report(&s, "t1", "c9", "Digest").unwrap().body, Some(exact));
}

#[test]
fn empty_summary_posts_nothing() {
    let s = fold(vec![RunEvent::Delta(Some("   \n".into())), RunEvent::Other]);
    assert!(run_report(&s, "t1", "c9", "Digest").is_none());
    assert!(run_report(&run_start(), "t1", "c9", "Digest").is_none());
}

#[test]
fn next_run_after_interval_and_fallback() {
    assert_eq!(next_run_after(&task(Some(30), None), 1_000, 1, &[None; 8]), 1_000 + 30 * 60_000);
    assert_eq!(next_run_after(&task(None, None), 1_000, 1, &[None; 8]), 1_000 + 3_600_000);
    assert_eq!(next_run_after(&task(None, Some("bad")), 1_000, 1, &[None; 8]), 1_000 + 3_600_000);
}

#[test]
fn next_run_after_daily_uses_the_given_slots() {
    let stamps: Vec<Option<u64>> = (0..8).map(|k| Some(10_000 + k * 1_000)).collect();
    assert_eq!(next_run_after(&task(None, Some("09:00")), 10_500, 1, &stamps), 11_000);
    assert_eq!(next_run_after(&task(None, Some("09:00")), 99_000, 1, &stamps), 99_000 + 3_600_000);
}
