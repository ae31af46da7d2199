use chrono::Datelike;
use zwork_sidecar::inboxstore::{self, InboxItem};
use zwork_sidecar::scheduler::{
    advance_schedule, compute_next_run, describe_trigger, local_slot, next_daily_run, parse_hhmm, MIN_INTERVAL_MINUTES,
};
use zwork_sidecar::schedulestore::{self, ScheduledTask, UpdateParams};

fn now_ms() -> u64 {
    std::time::SystemTime::now().duration_since(std::time::UNIX_EPOCH).map(|d| d.as_millis() as u64).unwrap_or(0)
}

fn mk_task(interval: Option<u32>, daily_time: Option<&str>, weekdays: Option<Vec<u32>>) -> ScheduledTask {
    ScheduledTask {
        id: "t1".into(),
        title: "test".into(),
        prompt: "do thing".into(),
        trigger_type: "time".into(),
        interval_minutes: interval,
        daily_time: daily_time.map(String::from),
        daily_weekdays: weekdays,
        enabled: true,
        notify_channel: "inbox".into(),
        model: None,
        created_at: 0,
        updated_at: 0,
        last_run_at: None,
        next_run_at: None,
        last_chat_id: None,
    }
}


/// Today's local day number and the task's slot on it and the next seven
/// days, read from the local time zone.
fn calendar(t: &ScheduledTask) -> (i32, Vec<Option<u64>>) {
    let today = chrono::Local::now().date_naive().num_days_from_ce();
    let stamps = (0..8)
        .map(|k| {
            let (h, m) = local_slot(t)?;
            let date = chrono::NaiveDate::from_num_days_from_ce_opt(today + k)?;
            let local = date.and_hms_opt(h, m, 0)?.and_local_timezone(chrono::Local).single()?;
            Some(local.timestamp_millis() as u64)
        })
        .collect();
    (today, stamps)
}

fn next_run(t: &ScheduledTask, from: u64) -> Option<u64> {
    let (today, stamps) = calendar(t);
    compute_next_run(t, from, today, &stamps)
}

#[test]
fn parse_hhmm_valid() {
    assert_eq!(parse_hhmm("09:30"), Some((9, 30)));
    assert_eq!(parse_hhmm("23:59"), Some((23, 59)));
    assert_eq!(parse_hhmm("00:00"), Some((0, 0)));
}

#[test]
fn parse_hhmm_invalid() {
    assert_eq!(parse_hhmm("24:00"), None);
    assert_eq!(parse_hhmm("12:60"), None);
    assert_eq!(parse_hhmm("noon"), None);
    assert_eq!(parse_hhmm("12"), None);
}

#[test]
fn interval_advances_by_step() {
    let t = mk_task(Some(30), None, None);
    let from = 1_000_000_000_u64;
    let next = next_run(&t, from).expect("interval should resolve");
    assert_eq!(next - from, 30 * 60_000);
}

#[test]
fn interval_enforces_min_floor() {
    let t = mk_task(Some(5), None, None);
    let from = 1_000_000_000_u64;
    let next = next_run(&t, from).expect("clamped interval should resolve");
    assert_eq!(next - from, MIN_INTERVAL_MINUTES as u64 * 60_000);
}

#[test]
fn daily_time_resolves_to_a_future_instant() {
    let t = mk_task(None, Some("09:00"), None);
    let now = now_ms();
    let next = next_run(&t, now).expect("daily should resolve");
    assert!(next > now, "next run must be strictly in the future");
    assert!(next - now <= 25 * 60 * 60_000, "next run should be within ~24h");
}

#[test]
fn no_schedule_returns_none() {
    let t = mk_task(None, None, None);
    assert!(next_run(&t, now_ms()).is_none());
}

#[test]
fn weekday_filter_skips_non_matching_days() {
    let t = mk_task(None, Some("08:00"), Some(vec![1]));
    let now = now_ms();
    let next = next_run(&t, now).expect("should resolve");
    let dt = chrono::DateTime::<chrono::Utc>::from_timestamp_millis(next as i64)
        .expect("valid timestamp")
        .with_timezone(&chrono::Local);
    assert_eq!(dt.weekday().num_days_from_monday(), 0, "should be a Monday");
}

#[test]
fn daily_choice_over_given_slots() {
    // Day 1 of the era was a Monday; day 7 a Sunday.
    let stamps: Vec<Option<u64>> = (0..8).map(|k| Some(1000 + k * 100)).collect();
    assert_eq!(next_daily_run(1050, &None, 1, &stamps), Some(1100));
    assert_eq!(next_daily_run(0, &Some(vec![0]), 1, &stamps), Some(1600));
    assert_eq!(next_daily_run(0, &Some(vec![]), 1, &stamps), Some(1000));
    let mut gap = stamps.clone();
    gap[0] = None;
    assert_eq!(next_daily_run(0, &None, 1, &gap), None);
}

#[test]
fn trigger_descriptions() {
    assert_eq!(describe_trigger(&mk_task(Some(5), None, None)), "every 15 minutes");
    assert_eq!(describe_trigger(&mk_task(None, Some("09:00"), Some(vec![1, 3, 9]))), "at 09:00 local (on Mon/Wed/?)");
    assert_eq!(describe_trigger(&mk_task(None, Some("09:00"), None)), "at 09:00 local (every day)");
    assert_eq!(describe_trigger(&mk_task(None, None, None)), "on a schedule");
}

#[test]
fn schedule_store_edits() {
    let mut tasks = vec![mk_task(Some(30), None, None)];
    let created = schedulestore::create(
        &mut tasks,
        schedulestore::CreateParams {
            title: "t".into(),
            prompt: "p".into(),
            trigger_type: None,
            interval_minutes: None,
            daily_time: Some("07:30".into()),
            daily_weekdays: None,
            enabled: Some(false),
            notify_channel: None,
            model: None,
        },
    );
    assert_eq!(created.id.len(), 32);
    assert_eq!(created.trigger_type, "time");
    assert_eq!(created.notify_channel, "inbox");
    assert_eq!(schedulestore::count_enabled(&tasks), 1);
    let updated = schedulestore::update(
        &mut tasks,
        "t1",
        UpdateParams {
            title: Some("renamed".into()),
            prompt: None,
            trigger_type: None,
            interval_minutes: Some(None),
            daily_time: None,
            daily_weekdays: None,
            enabled: None,
            notify_channel: None,
            model: None,
        },
    )
    .unwrap();
    assert_eq!(updated.title, "renamed");
    assert_eq!(updated.interval_minutes, None);
    assert_eq!(tasks[0].title, "renamed");
    let advanced = advance_schedule(&mut tasks, &mk_task(Some(20), None, None), 1_000, 1, &[None; 8]).unwrap();
    assert_eq!(advanced.next_run_at, Some(1_000 + 20 * 60_000));
    assert_eq!(advanced.last_chat_id.as_deref(), Some(""));
    assert!(schedulestore::get(&tasks, "nope").is_none());
    assert!(schedulestore::delete(&mut tasks, "t1"));
    assert!(!schedulestore::delete(&mut tasks, "t1"));
    assert_eq!(tasks.len(), 1);
}

fn item(id: &str, at: u64, read: bool) -> InboxItem {
    InboxItem {
        id: id.into(),
        task_id: None,
        chat_id: None,
        kind: "summary".into(),
        title: id.into(),
        body: String::new(),
        created_at: at,
        read,
    }
}

#[test]
fn inbox_lists_newest_first_and_marks_read() {
    let mut items = vec![item("a", 10, false), item("b", 30, true), item("c", 20, false), item("d", 30, false)];
    let all: Vec<String> = inboxstore::get_all(&items, false).into_iter().map(|i| i.id).collect();
    assert_eq!(all, vec!["b", "d", "c", "a"]);
    let unread: Vec<String> = inboxstore::get_all(&items, true).into_iter().map(|i| i.id).collect();
    assert_eq!(unread, vec!["d", "c", "a"]);
    assert!(inboxstore::mark_read(&mut items, "c"));
    assert!(!inboxstore::mark_read(&mut items, "zz"));
    assert_eq!(inboxstore::mark_all_read(&mut items), 2);
    assert_eq!(inboxstore::mark_all_read(&mut items), 0);
    assert!(inboxstore::delete(&mut items, "b"));
    assert_eq!(items.len(), 3);
    let made = inboxstore::create(
        &mut items,
        inboxstore::CreateParams { task_id: None, chat_id: None, kind: None, title: "hi".into(), body: None },
    );
    assert_eq!(made.kind, "summary");
    assert_eq!(made.body, "");
    assert!(!made.read);
    assert_eq!(items.len(), 4);
}
