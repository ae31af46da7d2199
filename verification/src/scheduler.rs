//! When scheduled tasks run: interval and daily triggers, their
//! descriptions, and the run-state bookkeeping of the scheduler loop.

use vstd::prelude::*;
use crate::schedulestore::{opt_str, set_run_state, ScheduledTask};
use crate::server::{digits_value, is_digit, unsigned_digits};
use crate::text::{chars_of, decimal, decimal_spec, find_char, join, join_spec, push_all, push_str, slice_of, string_of, to_string, views};

verus! {

pub const FREE_TIER_MAX_ENABLED_TASKS: usize = 3;

pub const MIN_INTERVAL_MINUTES: u32 = 15;

/// `str::parse::<u32>`: an optional `+`, then one or more ASCII digits
/// whose value fits in 32 bits.
pub open spec fn parse_u32(s: Seq<char>) -> Option<int> {
    let d = unsigned_digits(s);
    if d.len() > 0 && (forall|i: int| 0 <= i < d.len() ==> is_digit(#[trigger] d[i])) && digits_value(d)
        <= u32::MAX {
        Some(digits_value(d))
    } else {
        None
    }
}

proof fn lemma_digits_prefix(d: Seq<char>, k: int)
    requires
        0 <= k <= d.len(),
        forall|j: int| 0 <= j < d.len() ==> is_digit(#[trigger] d[j]),
    ensures
        digits_value(d) >= digits_value(d.take(k)),
        digits_value(d.take(k)) >= 0,
    decreases d.len(),
{
    if k == d.len() {
        assert(d.take(k) =~= d);
        if d.len() > 0 {
            lemma_digits_prefix(d.drop_last(), k - 1);
            assert(d.drop_last().take(k - 1) =~= d.drop_last());
            assert(is_digit(d[d.len() - 1]));
        }
    } else {
        assert forall|j: int| 0 <= j < d.drop_last().len() implies is_digit(#[trigger] d.drop_last()[j]) by {
            assert(d.drop_last()[j] == d[j]);
        }
        lemma_digits_prefix(d.drop_last(), k);
        assert(d.drop_last().take(k) =~= d.take(k));
        assert(is_digit(d[d.len() - 1]));
    }
}

fn parse_u32_exec(s: &[char]) -> (r: Option<u32>)
    ensures
        match r {
            Some(v) => parse_u32(s@) == Some(v as int),
            None => parse_u32(s@) is None,
        },
{
    let d = if s.len() > 0 && s[0] == '+' {
        slice_of(s, 1, s.len())
    } else {
        slice_of(s, 0, s.len())
    };
    assert(d@ =~= unsigned_digits(s@));
    if d.len() == 0 {
        return None;
    }
    let mut v: u64 = 0;
    let mut i: usize = 0;
    while i < d.len()
        invariant
            d@ == unsigned_digits(s@),
            i <= d@.len(),
            v <= u32::MAX,
            v == digits_value(d@.take(i as int)),
            forall|j: int| 0 <= j < i ==> is_digit(#[trigger] d@[j]),
        decreases d.len() - i,
    {
        let c = d[i];
        assert(d@.take(i + 1).drop_last() =~= d@.take(i as int));
        if !('0' <= c && c <= '9') {
            assert(!is_digit(d@[i as int]));
            assert(!(forall|j: int| 0 <= j < d@.len() ==> is_digit(#[trigger] d@[j])));
            assert(parse_u32(s@) is None);
            return None;
        }
        let nv = v * 10 + (c as u64 - '0' as u64);
        if nv > 0xFFFF_FFFF {
            proof {
                assert(nv == digits_value(d@.take(i + 1)));
                if forall|j: int| 0 <= j < d@.len() ==> is_digit(#[trigger] d@[j]) {
                    lemma_digits_prefix(d@, i + 1);
                }
            }
            assert(parse_u32(s@) is None);
            return None;
        }
        v = nv;
        i += 1;
    }
    assert(d@.take(d@.len() as int) =~= d@);
    Some(v as u32)
}

/// `"HH:MM"` (24h): the hour and minute, split at the first `:`.
pub open spec fn hhmm_spec(s: Seq<char>) -> Option<(int, int)> {
    if exists|i: int| 0 <= i < s.len() && s[i] == ':' {
        let c = choose|i: int| 0 <= i < s.len() && s[i] == ':' && forall|j: int| 0 <= j < i ==> s[j] != ':';
        match (parse_u32(s.take(c)), parse_u32(s.skip(c + 1))) {
            (Some(h), Some(m)) => if h < 24 && m < 60 {
                Some((h, m))
            } else {
                None
            },
            _ => None,
        }
    } else {
        None
    }
}

/// Parse `"HH:MM"` (24h) into `(hour, minute)`.
pub fn parse_hhmm(s: &str) -> (r: Option<(u32, u32)>)
    ensures
        match r {
            Some(hm) => hhmm_spec(s@) == Some((hm.0 as int, hm.1 as int)),
            None => hhmm_spec(s@) is None,
        },
{
    let cs = chars_of(s);
    let n = cs.len();
    let c = match find_char(&cs, ':') {
        Some(c) => c,
        None => {
            return None;
        },
    };
    let hs = slice_of(&cs, 0, c);
    let ms = slice_of(&cs, c + 1, cs.len());
    assert(hs@ =~= cs@.take(c as int));
    assert(ms@ =~= cs@.skip(c + 1));
    proof {
        assert(cs@[c as int] == ':');
        let k = choose|i: int| 0 <= i < cs@.len() && cs@[i] == ':' && forall|j: int| 0 <= j < i ==> cs@[j] != ':';
        assert(k == c);
    }
    let h = parse_u32_exec(&hs);
    let m = parse_u32_exec(&ms);
    match (h, m) {
        (Some(h), Some(m)) => if h < 24 && m < 60 {
            Some((h, m))
        } else {
            None
        },
        _ => None,
    }
}


// ---------------------------------------------------------------------------
// Next run
// ---------------------------------------------------------------------------

/// Weekday (0 = Sunday) of the day numbered `day` from the common era
/// (day 1, January 1st of year 1, was a Monday).
pub open spec fn weekday_of(day: int) -> int {
    day % 7
}

pub open spec fn day_allowed(weekdays: Option<Seq<u32>>, wd: int) -> bool {
    match weekdays {
        Some(days) => days.len() == 0 || days.contains(wd as u32),
        None => true,
    }
}

/// The first allowed day from offset `k` (up to a week ahead of `today`)
/// whose slot is after `from`; `None` when a slot's local time does not
/// exist once or no day qualifies. `stamps[k]` is the slot of `today + k`.
pub open spec fn daily_from(from: u64, weekdays: Option<Seq<u32>>, today: int, stamps: Seq<Option<u64>>, k: int) -> Option<u64>
    decreases 8 - k,
{
    if k < 0 || k > 7 {
        None
    } else if !day_allowed(weekdays, weekday_of(today + k)) {
        daily_from(from, weekdays, today, stamps, k + 1)
    } else {
        match stamps[k] {
            None => None,
            Some(c) => if c > from {
                Some(c)
            } else {
                daily_from(from, weekdays, today, stamps, k + 1)
            },
        }
    }
}

fn contains_day(days: &Vec<u32>, d: u32) -> (r: bool)
    ensures
        r == days@.contains(d),
{
    let mut i: usize = 0;
    while i < days.len()
        invariant
            i <= days@.len(),
            forall|j: int| 0 <= j < i ==> days@[j] != d,
        decreases days.len() - i,
    {
        if days[i] == d {
            return true;
        }
        i += 1;
    }
    false
}

/// The next daily run after `from`: `today` is the local day number and
/// `stamps` the local slot of each of the eight days from today on.
pub fn next_daily_run(from_ms: u64, weekdays: &Option<Vec<u32>>, today: i32, stamps: &[Option<u64>]) -> (r: Option<u64>)
    requires
        stamps@.len() == 8,
        1 <= today < 100_000_000,
    ensures
        r == daily_from(from_ms, opt_days_view(*weekdays), today as int, stamps@, 0),
{
    let mut k: usize = 0;
    while k <= 7
        invariant
            k <= 8,
            stamps@.len() == 8,
            1 <= today < 100_000_000,
            daily_from(from_ms, opt_days_view(*weekdays), today as int, stamps@, 0) == daily_from(
                from_ms,
                opt_days_view(*weekdays),
                today as int,
                stamps@,
                k as int,
            ),
        decreases 8 - k,
    {
        let wd = ((today as u32) + (k as u32)) % 7;
        let allowed = match weekdays {
            Some(days) => days.len() == 0 || contains_day(days, wd),
            None => true,
        };
        if allowed {
            match stamps[k] {
                None => {
                    return None;
                },
                Some(c) => {
                    if c > from_ms {
                        return Some(c);
                    }
                },
            }
        }
        k += 1;
    }
    None
}

pub open spec fn opt_days_view(o: Option<Vec<u32>>) -> Option<Seq<u32>> {
    match o {
        Some(v) => Some(v@),
        None => None,
    }
}

pub open spec fn interval_step(mins: u32) -> int {
    (if mins < MIN_INTERVAL_MINUTES { MIN_INTERVAL_MINUTES } else { mins }) as int * 60000
}

/// The next run of `task` after `from_ms`: the interval (at least 15
/// minutes) from `from_ms`; else the next daily slot given the local day
/// and slots; else none.
pub open spec fn next_run_spec(task: ScheduledTask, from: u64, today: int, stamps: Seq<Option<u64>>) -> Option<u64> {
    match task.interval_minutes {
        Some(mins) => Some((from + interval_step(mins)) as u64),
        None => match task.daily_time {
            Some(t) => match hhmm_spec(t@) {
                Some(_) => daily_from(from, opt_days_view(task.daily_weekdays), today, stamps, 0),
                None => None,
            },
            None => None,
        },
    }
}

/// The local time of day a daily task runs at: its parsed `HH:MM` when it
/// has no interval. The caller reads the local calendar for it (today and
/// the slot on each of the next eight days) and hands it to
/// `compute_next_run`.
pub fn local_slot(task: &ScheduledTask) -> (r: Option<(u32, u32)>)
    ensures
        match r {
            Some(hm) => task.interval_minutes is None && (task.daily_time matches Some(t) && hhmm_spec(t@) == Some(
                (hm.0 as int, hm.1 as int),
            )),
            None => task.interval_minutes is Some || (match task.daily_time {
                Some(t) => hhmm_spec(t@) is None,
                None => true,
            }),
        },
{
    if task.interval_minutes.is_some() {
        return None;
    }
    match &task.daily_time {
        Some(t) => parse_hhmm(t.as_str()),
        None => None,
    }
}

/// Compute the next run time (epoch-ms) of `task` after `from_ms`, given
/// the local day number `today` (days from the common era) and `stamps`,
/// the epoch milliseconds of the task's slot on `today` and each of the
/// seven days after it (`None` where that local time does not exist once).
pub fn compute_next_run(task: &ScheduledTask, from_ms: u64, today: i32, stamps: &[Option<u64>]) -> (r: Option<u64>)
    requires
        task.interval_minutes matches Some(mins) ==> from_ms + interval_step(mins) <= u64::MAX,
        1 <= today < 100_000_000,
        stamps@.len() == 8,
    ensures
        r == next_run_spec(*task, from_ms, today as int, stamps@),
{
    if let Some(mins) = task.interval_minutes {
        let m = if mins < MIN_INTERVAL_MINUTES {
            MIN_INTERVAL_MINUTES
        } else {
            mins
        };
        return Some(from_ms + (m as u64) * 60000);
    }
    match &task.daily_time {
        Some(t) => {
            match parse_hhmm(t.as_str()) {
                Some(_) => next_daily_run(from_ms, &task.daily_weekdays, today, stamps),
                None => None,
            }
        },
        None => None,
    }
}

// ---------------------------------------------------------------------------
// Descriptions and bookkeeping
// ---------------------------------------------------------------------------

pub open spec fn day_name(i: u32) -> Seq<char> {
    if i == 0 {
        "Sun"@
    } else if i == 1 {
        "Mon"@
    } else if i == 2 {
        "Tue"@
    } else if i == 3 {
        "Wed"@
    } else if i == 4 {
        "Thu"@
    } else if i == 5 {
        "Fri"@
    } else if i == 6 {
        "Sat"@
    } else {
        "?"@
    }
}

fn day_name_exec(i: u32) -> (r: &'static str)
    ensures
        r@ == day_name(i),
{
    if i == 0 {
        "Sun"
    } else if i == 1 {
        "Mon"
    } else if i == 2 {
        "Tue"
    } else if i == 3 {
        "Wed"
    } else if i == 4 {
        "Thu"
    } else if i == 5 {
        "Fri"
    } else if i == 6 {
        "Sat"
    } else {
        "?"
    }
}

pub open spec fn trigger_spec(task: ScheduledTask) -> Seq<char> {
    match task.interval_minutes {
        Some(mins) => "every "@ + decimal_spec((if mins < MIN_INTERVAL_MINUTES { MIN_INTERVAL_MINUTES } else { mins }) as nat) + " minutes"@,
        None => match task.daily_time {
            Some(t) => "at "@ + t@ + " local ("@ + match opt_days_view(task.daily_weekdays) {
                Some(d) => if d.len() > 0 {
                    "on "@ + join_spec(d.map_values(|i: u32| day_name(i)), "/"@)
                } else {
                    "every day"@
                },
                None => "every day"@,
            } + ")"@,
            None => "on a schedule"@,
        },
    }
}

/// A human description of when `task` runs.
pub fn describe_trigger(task: &ScheduledTask) -> (r: String)
    ensures
        r@ == trigger_spec(*task),
{
    if let Some(mins) = task.interval_minutes {
        let m = if mins < MIN_INTERVAL_MINUTES {
            MIN_INTERVAL_MINUTES
        } else {
            mins
        };
        let mut out = chars_of("every ");
        push_all(&mut out, &decimal(m as u64));
        push_str(&mut out, " minutes");
        return string_of(&out);
    }
    match &task.daily_time {
        Some(t) => {
            let days = match &task.daily_weekdays {
                Some(d) => if d.len() > 0 {
                    let mut names: Vec<Vec<char>> = Vec::new();
                    let mut i: usize = 0;
                    while i < d.len()
                        invariant
                            i <= d@.len(),
                            views(names@) == d@.map_values(|i: u32| day_name(i)).take(i as int),
                        decreases d.len() - i,
                    {
                        let n = chars_of(day_name_exec(d[i]));
                        let ghost before = views(names@);
                        names.push(n);
                        assert(views(names@) =~= before.push(n@));
                        assert(d@.map_values(|i: u32| day_name(i)).take(i + 1) =~= d@.map_values(|i: u32| day_name(i)).take(i as int).push(day_name(d@[i as int])));
                        i += 1;
                    }
                    assert(d@.map_values(|i: u32| day_name(i)).take(d@.len() as int) =~= d@.map_values(|i: u32| day_name(i)));
                    let mut out = chars_of("on ");
                    push_all(&mut out, &join(&names, &chars_of("/")));
                    out
                } else {
                    chars_of("every day")
                },
                None => chars_of("every day"),
            };
            let mut out = chars_of("at ");
            push_str(&mut out, t.as_str());
            push_str(&mut out, " local (");
            push_all(&mut out, &days);
            push_str(&mut out, ")");
            assert(out@ =~= trigger_spec(*task));
            string_of(&out)
        },
        None => to_string("on a schedule"),
    }
}


/// The next run recorded when a run is skipped or finished: the computed
/// next run, else an hour from `from`.
pub open spec fn advanced_next(computed: Option<u64>, from: u64) -> u64 {
    match computed {
        Some(n) => n,
        None => (from + 3_600_000) as u64,
    }
}

pub open spec fn last_run_or_zero(t: ScheduledTask) -> u64 {
    match t.last_run_at {
        Some(l) => l,
        None => 0,
    }
}

pub open spec fn chat_or_empty(t: ScheduledTask) -> Seq<char> {
    match opt_str(t.last_chat_id) {
        Some(c) => c,
        None => Seq::empty(),
    }
}

/// Records that `task` ran (or was skipped) at `from_ms`: its next run is
/// scheduled, keeping its last run and chat.
pub fn advance_schedule(
    tasks: &mut Vec<ScheduledTask>,
    task: &ScheduledTask,
    from_ms: u64,
    today: i32,
    stamps: &[Option<u64>],
) -> (r: Option<ScheduledTask>)
    requires
        from_ms <= u64::MAX - 3_600_000,
        task.interval_minutes matches Some(mins) ==> from_ms + interval_step(mins) <= u64::MAX,
        1 <= today < 100_000_000,
        stamps@.len() == 8,
    ensures
        match r {
            Some(n) => exists|i: int, now: u64|
                crate::schedulestore::first_with_id(old(tasks)@, task.id@, i)
                && #[trigger] crate::schedulestore::ran(
                    n,
                    old(tasks)@[i],
                    last_run_or_zero(*task),
                    advanced_next(next_run_spec(*task, from_ms, today as int, stamps@), from_ms),
                    chat_or_empty(*task),
                    now,
                ) && crate::schedulestore::changed_at(old(tasks)@, final(tasks)@, i),
            None => crate::schedulestore::no_id(old(tasks)@, task.id@) && final(tasks)@ == old(tasks)@,
        },
{
    let computed = compute_next_run(task, from_ms, today, stamps);
    let next = match computed {
        Some(n) => n,
        None => from_ms + 3_600_000,
    };
    let last = match task.last_run_at {
        Some(l) => l,
        None => 0,
    };
    let chat = match &task.last_chat_id {
        Some(c) => to_string(c.as_str()),
        None => String::new(),
    };
    assert(chat@ == chat_or_empty(*task));
    let r = set_run_state(tasks, task.id.as_str(), last, next, chat.as_str());
    proof {
        assert(next == advanced_next(next_run_spec(*task, from_ms, today as int, stamps@), from_ms));
        if r is Some {
            let n = r->0;
            {
                let (i, now) = choose|i: int, now: u64| crate::schedulestore::first_with_id(old(tasks)@, task.id@, i)
                    && #[trigger] crate::schedulestore::ran(n, old(tasks)@[i], last, next, chat@, now)
                    && crate::schedulestore::changed_at(old(tasks)@, final(tasks)@, i) && crate::schedulestore::same_task(final(tasks)@[i], n);
                assert(crate::schedulestore::ran(n, old(tasks)@[i], last_run_or_zero(*task), advanced_next(next_run_spec(*task, from_ms, today as int, stamps@), from_ms), chat_or_empty(*task), now));
            }
        }
    }
    r
}

} // verus!
