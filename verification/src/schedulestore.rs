//! Scheduled tasks: the records and the edits made to the stored list.
//!
//! Loading and saving the list is the caller's; these functions work on
//! the list in memory.

use vstd::prelude::*;
use crate::clock::{now_ms, uid};
use crate::text::{chars_of, eq_chars, to_string};

verus! {

#[derive(Debug, Clone)]
pub struct ScheduledTask {
    pub id: String,
    pub title: String,
    pub prompt: String,
    pub trigger_type: String,
    pub interval_minutes: Option<u32>,
    pub daily_time: Option<String>,
    pub daily_weekdays: Option<Vec<u32>>,
    pub enabled: bool,
    pub notify_channel: String,
    pub model: Option<String>,
    pub created_at: u64,
    pub updated_at: u64,
    pub last_run_at: Option<u64>,
    pub next_run_at: Option<u64>,
    pub last_chat_id: Option<String>,
}

pub fn default_trigger_time() -> (r: String)
    ensures
        r@ == "time"@,
{
    to_string("time")
}

pub fn default_inbox_channel() -> (r: String)
    ensures
        r@ == "inbox"@,
{
    to_string("inbox")
}

pub open spec fn opt_str(o: Option<String>) -> Option<Seq<char>> {
    match o {
        Some(s) => Some(s@),
        None => None,
    }
}

pub open spec fn opt_days(o: Option<Vec<u32>>) -> Option<Seq<u32>> {
    match o {
        Some(v) => Some(v@),
        None => None,
    }
}

/// Two tasks hold the same values.
pub open spec fn same_task(a: ScheduledTask, b: ScheduledTask) -> bool {
    &&& a.id@ == b.id@
    &&& a.title@ == b.title@
    &&& a.prompt@ == b.prompt@
    &&& a.trigger_type@ == b.trigger_type@
    &&& a.interval_minutes == b.interval_minutes
    &&& opt_str(a.daily_time) == opt_str(b.daily_time)
    &&& opt_days(a.daily_weekdays) == opt_days(b.daily_weekdays)
    &&& a.enabled == b.enabled
    &&& a.notify_channel@ == b.notify_channel@
    &&& opt_str(a.model) == opt_str(b.model)
    &&& a.created_at == b.created_at
    &&& a.updated_at == b.updated_at
    &&& a.last_run_at == b.last_run_at
    &&& a.next_run_at == b.next_run_at
    &&& opt_str(a.last_chat_id) == opt_str(b.last_chat_id)
}

pub(crate) fn copy_opt_str(o: &Option<String>) -> (r: Option<String>)
    ensures
        opt_str(r) == opt_str(*o),
{
    match o {
        Some(s) => Some(to_string(s.as_str())),
        None => None,
    }
}

fn copy_days(v: &Vec<u32>) -> (r: Vec<u32>)
    ensures
        r@ == v@,
{
    let mut out: Vec<u32> = Vec::new();
    let mut i: usize = 0;
    while i < v.len()
        invariant
            i <= v@.len(),
            out@ == v@.take(i as int),
        decreases v.len() - i,
    {
        out.push(v[i]);
        assert(v@.take(i + 1) =~= v@.take(i as int).push(v@[i as int]));
        i += 1;
    }
    assert(v@.take(v@.len() as int) =~= v@);
    out
}

fn copy_opt_days(o: &Option<Vec<u32>>) -> (r: Option<Vec<u32>>)
    ensures
        opt_days(r) == opt_days(*o),
{
    match o {
        Some(v) => Some(copy_days(v)),
        None => None,
    }
}

/// A copy of `t`.
pub fn copy_task(t: &ScheduledTask) -> (r: ScheduledTask)
    ensures
        same_task(r, *t),
{
    ScheduledTask {
        id: to_string(t.id.as_str()),
        title: to_string(t.title.as_str()),
        prompt: to_string(t.prompt.as_str()),
        trigger_type: to_string(t.trigger_type.as_str()),
        interval_minutes: t.interval_minutes,
        daily_time: copy_opt_str(&t.daily_time),
        daily_weekdays: copy_opt_days(&t.daily_weekdays),
        enabled: t.enabled,
        notify_channel: to_string(t.notify_channel.as_str()),
        model: copy_opt_str(&t.model),
        created_at: t.created_at,
        updated_at: t.updated_at,
        last_run_at: t.last_run_at,
        next_run_at: t.next_run_at,
        last_chat_id: copy_opt_str(&t.last_chat_id),
    }
}

/// The first position of a task with id `id`, if any.
pub open spec fn first_with_id(tasks: Seq<ScheduledTask>, id: Seq<char>, i: int) -> bool {
    0 <= i < tasks.len() && tasks[i].id@ == id && forall|j: int| 0 <= j < i ==> tasks[j].id@ != id
}

pub open spec fn no_id(tasks: Seq<ScheduledTask>, id: Seq<char>) -> bool {
    forall|j: int| 0 <= j < tasks.len() ==> tasks[j].id@ != id
}

fn find_index(tasks: &Vec<ScheduledTask>, id: &str) -> (r: Option<usize>)
    ensures
        match r {
            Some(i) => first_with_id(tasks@, id@, i as int),
            None => no_id(tasks@, id@),
        },
{
    let ic = chars_of(id);
    let mut i: usize = 0;
    while i < tasks.len()
        invariant
            i <= tasks@.len(),
            ic@ == id@,
            forall|j: int| 0 <= j < i ==> tasks@[j].id@ != id@,
        decreases tasks.len() - i,
    {
        if eq_chars(&chars_of(tasks[i].id.as_str()), &ic) {
            return Some(i);
        }
        i += 1;
    }
    None
}

/// The first task with id `task_id`.
pub fn get(tasks: &Vec<ScheduledTask>, task_id: &str) -> (r: Option<ScheduledTask>)
    ensures
        match r {
            Some(t) => exists|i: int| first_with_id(tasks@, task_id@, i) && same_task(t, tasks@[i]),
            None => no_id(tasks@, task_id@),
        },
{
    match find_index(tasks, task_id) {
        Some(i) => Some(copy_task(&tasks[i])),
        None => None,
    }
}

/// Number of enabled tasks among the first `k`.
pub open spec fn enabled_count(tasks: Seq<ScheduledTask>, k: int) -> int
    decreases k,
{
    if k <= 0 {
        0
    } else {
        enabled_count(tasks, k - 1) + if tasks[k - 1].enabled { 1int } else { 0 }
    }
}

pub fn count_enabled(tasks: &Vec<ScheduledTask>) -> (r: usize)
    ensures
        r == enabled_count(tasks@, tasks@.len() as int),
{
    let mut n: usize = 0;
    let mut i: usize = 0;
    while i < tasks.len()
        invariant
            i <= tasks@.len(),
            n == enabled_count(tasks@, i as int),
            n <= i,
        decreases tasks.len() - i,
    {
        if tasks[i].enabled {
            n += 1;
        }
        i += 1;
    }
    n
}

pub struct CreateParams {
    pub title: String,
    pub prompt: String,
    pub trigger_type: Option<String>,
    pub interval_minutes: Option<u32>,
    pub daily_time: Option<String>,
    pub daily_weekdays: Option<Vec<u32>>,
    pub enabled: Option<bool>,
    pub notify_channel: Option<String>,
    pub model: Option<String>,
}

/// The task a create request makes, with `id` and the creation time `now`.
pub open spec fn created(t: ScheduledTask, p: CreateParams, id: Seq<char>, now: u64) -> bool {
    &&& t.id@ == id
    &&& t.title@ == p.title@
    &&& t.prompt@ == p.prompt@
    &&& t.trigger_type@ == (match p.trigger_type { Some(x) => x@, None => "time"@ })
    &&& t.interval_minutes == p.interval_minutes
    &&& opt_str(t.daily_time) == opt_str(p.daily_time)
    &&& opt_days(t.daily_weekdays) == opt_days(p.daily_weekdays)
    &&& t.enabled == (match p.enabled { Some(e) => e, None => true })
    &&& t.notify_channel@ == (match p.notify_channel { Some(x) => x@, None => "inbox"@ })
    &&& opt_str(t.model) == opt_str(p.model)
    &&& t.created_at == now && t.updated_at == now
    &&& t.last_run_at is None && t.next_run_at is None && t.last_chat_id is None
}

/// Appends the task a create request makes, with id `id` at time `now`.
pub fn create_with(tasks: &mut Vec<ScheduledTask>, p: CreateParams, id: String, now: u64) -> (r: ScheduledTask)
    ensures
        created(r, p, id@, now),
        final(tasks)@.len() == old(tasks)@.len() + 1,
        final(tasks)@.take(old(tasks)@.len() as int) == old(tasks)@,
        same_task(final(tasks)@.last(), r),
{
    let trigger_type = match p.trigger_type {
        Some(x) => x,
        None => default_trigger_time(),
    };
    let notify_channel = match p.notify_channel {
        Some(x) => x,
        None => default_inbox_channel(),
    };
    let enabled = match p.enabled {
        Some(e) => e,
        None => true,
    };
    let task = ScheduledTask {
        id,
        title: p.title,
        prompt: p.prompt,
        trigger_type,
        interval_minutes: p.interval_minutes,
        daily_time: p.daily_time,
        daily_weekdays: p.daily_weekdays,
        enabled,
        notify_channel,
        model: p.model,
        created_at: now,
        updated_at: now,
        last_run_at: None,
        next_run_at: None,
        last_chat_id: None,
    };
    let copy = copy_task(&task);
    tasks.push(task);
    assert(tasks@.take(old(tasks)@.len() as int) =~= old(tasks)@);
    copy
}

/// Appends the task a create request makes, with a fresh id, created now.
pub fn create(tasks: &mut Vec<ScheduledTask>, p: CreateParams) -> (r: ScheduledTask)
    ensures
        exists|now: u64| created(r, p, r.id@, now),
        r.id@.len() == 32,
        final(tasks)@.len() == old(tasks)@.len() + 1,
        final(tasks)@.take(old(tasks)@.len() as int) == old(tasks)@,
        same_task(final(tasks)@.last(), r),
{
    let id = uid();
    let now = now_ms();
    create_with(tasks, p, id, now)
}

pub struct UpdateParams {
    pub title: Option<String>,
    pub prompt: Option<String>,
    pub trigger_type: Option<String>,
    pub interval_minutes: Option<Option<u32>>,
    pub daily_time: Option<Option<String>>,
    pub daily_weekdays: Option<Option<Vec<u32>>>,
    pub enabled: Option<bool>,
    pub notify_channel: Option<String>,
    pub model: Option<Option<String>>,
}

/// `t` with the fields `p` sets, updated at `now`.
pub open spec fn updated(n: ScheduledTask, t: ScheduledTask, p: UpdateParams, now: u64) -> bool {
    &&& n.id@ == t.id@
    &&& n.title@ == (match p.title { Some(x) => x@, None => t.title@ })
    &&& n.prompt@ == (match p.prompt { Some(x) => x@, None => t.prompt@ })
    &&& n.trigger_type@ == (match p.trigger_type { Some(x) => x@, None => t.trigger_type@ })
    &&& n.interval_minutes == (match p.interval_minutes { Some(x) => x, None => t.interval_minutes })
    &&& opt_str(n.daily_time) == (match p.daily_time { Some(x) => opt_str(x), None => opt_str(t.daily_time) })
    &&& opt_days(n.daily_weekdays) == (match p.daily_weekdays { Some(x) => opt_days(x), None => opt_days(t.daily_weekdays) })
    &&& n.enabled == (match p.enabled { Some(x) => x, None => t.enabled })
    &&& n.notify_channel@ == (match p.notify_channel { Some(x) => x@, None => t.notify_channel@ })
    &&& opt_str(n.model) == (match p.model { Some(x) => opt_str(x), None => opt_str(t.model) })
    &&& n.created_at == t.created_at
    &&& n.updated_at == now
    &&& n.last_run_at == t.last_run_at
    &&& n.next_run_at == t.next_run_at
    &&& opt_str(n.last_chat_id) == opt_str(t.last_chat_id)
}

/// Only position `i` of the list changes, to a task that `p` describes.
pub open spec fn changed_at(before: Seq<ScheduledTask>, after: Seq<ScheduledTask>, i: int) -> bool {
    &&& after.len() == before.len()
    &&& forall|j: int| 0 <= j < before.len() && j != i ==> same_task(#[trigger] after[j], before[j])
}

/// Applies `p` to the first task with id `task_id`, at time `now`.
pub fn update_at(tasks: &mut Vec<ScheduledTask>, task_id: &str, p: UpdateParams, now: u64) -> (r: Option<ScheduledTask>)
    ensures
        match r {
            Some(n) => exists|i: int| first_with_id(old(tasks)@, task_id@, i) && updated(n, old(tasks)@[i], p, now)
                && changed_at(old(tasks)@, final(tasks)@, i) && same_task(final(tasks)@[i], n),
            None => no_id(old(tasks)@, task_id@) && final(tasks)@ == old(tasks)@,
        },
{
    let i = match find_index(tasks, task_id) {
        Some(i) => i,
        None => return None,
    };
    let t = copy_task(&tasks[i]);
    let n = ScheduledTask {
        id: t.id,
        title: match p.title { Some(x) => x, None => t.title },
        prompt: match p.prompt { Some(x) => x, None => t.prompt },
        trigger_type: match p.trigger_type { Some(x) => x, None => t.trigger_type },
        interval_minutes: match p.interval_minutes { Some(x) => x, None => t.interval_minutes },
        daily_time: match p.daily_time { Some(x) => x, None => t.daily_time },
        daily_weekdays: match p.daily_weekdays { Some(x) => x, None => t.daily_weekdays },
        enabled: match p.enabled { Some(x) => x, None => t.enabled },
        notify_channel: match p.notify_channel { Some(x) => x, None => t.notify_channel },
        model: match p.model { Some(x) => x, None => t.model },
        created_at: t.created_at,
        updated_at: now,
        last_run_at: t.last_run_at,
        next_run_at: t.next_run_at,
        last_chat_id: t.last_chat_id,
    };
    let result = copy_task(&n);
    tasks.set(i, n);
    Some(result)
}

/// Applies `p` to the first task with id `task_id`, stamped now.
pub fn update(tasks: &mut Vec<ScheduledTask>, task_id: &str, p: UpdateParams) -> (r: Option<ScheduledTask>)
    ensures
        match r {
            Some(n) => exists|i: int, now: u64| first_with_id(old(tasks)@, task_id@, i) && updated(n, old(tasks)@[i], p, now)
                && changed_at(old(tasks)@, final(tasks)@, i) && same_task(final(tasks)@[i], n),
            None => no_id(old(tasks)@, task_id@) && final(tasks)@ == old(tasks)@,
        },
{
    let now = now_ms();
    update_at(tasks, task_id, p, now)
}

/// `t` after a run: last and next run times and the run's chat, at `now`.
pub open spec fn ran(n: ScheduledTask, t: ScheduledTask, last: u64, next: u64, chat: Seq<char>, now: u64) -> bool {
    &&& n.id@ == t.id@ && n.title@ == t.title@ && n.prompt@ == t.prompt@
    &&& n.trigger_type@ == t.trigger_type@ && n.interval_minutes == t.interval_minutes
    &&& opt_str(n.daily_time) == opt_str(t.daily_time) && opt_days(n.daily_weekdays) == opt_days(t.daily_weekdays)
    &&& n.enabled == t.enabled && n.notify_channel@ == t.notify_channel@ && opt_str(n.model) == opt_str(t.model)
    &&& n.created_at == t.created_at && n.updated_at == now
    &&& n.last_run_at == Some(last) && n.next_run_at == Some(next) && opt_str(n.last_chat_id) == Some(chat)
}

/// Records a run of the first task with id `task_id`, stamped at `now`.
pub fn set_run_state_at(tasks: &mut Vec<ScheduledTask>, task_id: &str, last_run_at: u64, next_run_at: u64, last_chat_id: &str, now: u64) -> (r: Option<ScheduledTask>)
    ensures
        match r {
            Some(n) => exists|i: int| first_with_id(old(tasks)@, task_id@, i) && ran(n, old(tasks)@[i], last_run_at, next_run_at, last_chat_id@, now)
                && changed_at(old(tasks)@, final(tasks)@, i) && same_task(final(tasks)@[i], n),
            None => no_id(old(tasks)@, task_id@) && final(tasks)@ == old(tasks)@,
        },
{
    let i = match find_index(tasks, task_id) {
        Some(i) => i,
        None => return None,
    };
    let t = copy_task(&tasks[i]);
    let n = ScheduledTask {
        last_run_at: Some(last_run_at),
        next_run_at: Some(next_run_at),
        last_chat_id: Some(to_string(last_chat_id)),
        updated_at: now,
        ..t
    };
    let result = copy_task(&n);
    tasks.set(i, n);
    Some(result)
}

/// Records a run of the first task with id `task_id`, stamped now.
pub fn set_run_state(tasks: &mut Vec<ScheduledTask>, task_id: &str, last_run_at: u64, next_run_at: u64, last_chat_id: &str) -> (r: Option<ScheduledTask>)
    ensures
        match r {
            Some(n) => exists|i: int, now: u64| first_with_id(old(tasks)@, task_id@, i) && ran(n, old(tasks)@[i], last_run_at, next_run_at, last_chat_id@, now)
                && changed_at(old(tasks)@, final(tasks)@, i) && same_task(final(tasks)@[i], n),
            None => no_id(old(tasks)@, task_id@) && final(tasks)@ == old(tasks)@,
        },
{
    let now = now_ms();
    set_run_state_at(tasks, task_id, last_run_at, next_run_at, last_chat_id, now)
}

/// The first `k` tasks without those whose id is `id`.
pub open spec fn without_id(tasks: Seq<ScheduledTask>, id: Seq<char>, k: int) -> Seq<ScheduledTask>
    decreases k,
{
    if k <= 0 {
        Seq::empty()
    } else if tasks[k - 1].id@ == id {
        without_id(tasks, id, k - 1)
    } else {
        without_id(tasks, id, k - 1).push(tasks[k - 1])
    }
}

/// Removes every task with id `task_id`; whether any was removed.
pub fn delete(tasks: &mut Vec<ScheduledTask>, task_id: &str) -> (r: bool)
    ensures
        final(tasks)@ == without_id(old(tasks)@, task_id@, old(tasks)@.len() as int),
        r == (final(tasks)@.len() != old(tasks)@.len()),
{
    let ic = chars_of(task_id);
    let ghost orig = tasks@;
    let n = tasks.len();
    let mut i: usize = 0;
    let mut k: usize = 0;
    assert(orig.skip(0) =~= orig);
    while k < n
        invariant
            n == orig.len(),
            ic@ == task_id@,
            k <= n,
            i <= k,
            i == without_id(orig, task_id@, k as int).len(),
            tasks@ == without_id(orig, task_id@, k as int) + orig.skip(k as int),
        decreases n - k,
    {
        let ghost w = without_id(orig, task_id@, k as int);
        assert(tasks@[i as int] == orig[k as int]);
        if eq_chars(&chars_of(tasks[i].id.as_str()), &ic) {
            tasks.remove(i);
            assert(tasks@ =~= w + orig.skip(k + 1));
        } else {
            assert(w.push(orig[k as int]) + orig.skip(k + 1) =~= w + orig.skip(k as int));
            i += 1;
        }
        k += 1;
    }
    assert(orig.skip(n as int) =~= Seq::<ScheduledTask>::empty());
    assert(tasks@ =~= without_id(orig, task_id@, n as int));
    tasks.len() != n
}

} // verus!
