//! The inbox: messages the agent posts to the user unprompted, and the
//! edits made to the stored list.
//!
//! Loading and saving the list is the caller's; these functions work on
//! the list in memory.

use vstd::prelude::*;
use crate::clock::{now_ms, uid};
use crate::schedulestore::{copy_opt_str, opt_str};
use crate::text::{chars_of, eq_chars, to_string};

verus! {

#[derive(Debug, Clone)]
pub struct InboxItem {
    pub id: String,
    /// The scheduled task that produced this, if any.
    pub task_id: Option<String>,
    /// The run's automation chat, so the UI can link to the transcript.
    pub chat_id: Option<String>,
    /// `"summary"` | `"flag"` | `"question"` | `"error"`
    pub kind: String,
    pub title: String,
    pub body: String,
    pub created_at: u64,
    pub read: bool,
}

/// The values of an item.
pub type ItemView = (Seq<char>, Option<Seq<char>>, Option<Seq<char>>, Seq<char>, Seq<char>, Seq<char>, u64, bool);

pub open spec fn iv(i: InboxItem) -> ItemView {
    (i.id@, opt_str(i.task_id), opt_str(i.chat_id), i.kind@, i.title@, i.body@, i.created_at, i.read)
}

pub open spec fn ivs(s: Seq<InboxItem>) -> Seq<ItemView> {
    s.map_values(|i: InboxItem| iv(i))
}

pub fn default_kind() -> (r: String)
    ensures
        r@ == "summary"@,
{
    to_string("summary")
}

pub fn copy_item(i: &InboxItem) -> (r: InboxItem)
    ensures
        iv(r) == iv(*i),
{
    InboxItem {
        id: to_string(i.id.as_str()),
        task_id: copy_opt_str(&i.task_id),
        chat_id: copy_opt_str(&i.chat_id),
        kind: to_string(i.kind.as_str()),
        title: to_string(i.title.as_str()),
        body: to_string(i.body.as_str()),
        created_at: i.created_at,
        read: i.read,
    }
}

/// Inserting `x` into a list sorted newest first, after every item at
/// least as new.
pub open spec fn insert_newest_first(s: Seq<ItemView>, x: ItemView) -> Seq<ItemView>
    decreases s.len(),
{
    if s.len() == 0 {
        seq![x]
    } else if s[0].6 >= x.6 {
        seq![s[0]] + insert_newest_first(s.drop_first(), x)
    } else {
        seq![x] + s
    }
}

/// The first `k` items (unread ones only, if asked), newest first, items
/// of equal age in list order.
pub open spec fn listing(items: Seq<ItemView>, unread_only: bool, k: int) -> Seq<ItemView>
    decreases k,
{
    if k <= 0 {
        Seq::empty()
    } else if unread_only && items[k - 1].7 {
        listing(items, unread_only, k - 1)
    } else {
        insert_newest_first(listing(items, unread_only, k - 1), items[k - 1])
    }
}

pub open spec fn newest_first(s: Seq<ItemView>) -> bool {
    forall|i: int, j: int| 0 <= i < j < s.len() ==> s[i].6 >= s[j].6
}

proof fn lemma_insert_sorted(s: Seq<ItemView>, x: ItemView)
    requires
        newest_first(s),
    ensures
        newest_first(insert_newest_first(s, x)),
        insert_newest_first(s, x).len() == s.len() + 1,
        forall|i: int| 0 <= i < insert_newest_first(s, x).len() ==> (#[trigger] insert_newest_first(s, x)[i] == x
            || s.contains(insert_newest_first(s, x)[i])),
    decreases s.len(),
{
    if s.len() > 0 && s[0].6 >= x.6 {
        let t = s.drop_first();
        lemma_insert_sorted(t, x);
        let r = insert_newest_first(t, x);
        assert forall|i: int| 0 <= i < r.len() implies s[0].6 >= #[trigger] r[i].6 by {
            if r[i] != x {
                let k = choose|k: int| 0 <= k < t.len() && t[k] == r[i];
                assert(s[k + 1] == t[k]);
            }
        }
        assert forall|i: int| 0 <= i < (seq![s[0]] + r).len() implies (#[trigger] (seq![s[0]] + r)[i] == x || s.contains((seq![s[0]] + r)[i])) by {
            if i == 0 {
                assert(s[0] == (seq![s[0]] + r)[0]);
            } else {
                assert((seq![s[0]] + r)[i] == r[i - 1]);
                if r[i - 1] != x {
                    let k = choose|k: int| 0 <= k < t.len() && t[k] == r[i - 1];
                    assert(s[k + 1] == t[k]);
                }
            }
        }
    } else if s.len() > 0 {
        assert forall|i: int| 0 <= i < (seq![x] + s).len() implies (#[trigger] (seq![x] + s)[i] == x || s.contains((seq![x] + s)[i])) by {
            if i > 0 {
                assert((seq![x] + s)[i] == s[i - 1]);
            }
        }
    }
}

proof fn lemma_listing_sorted(items: Seq<ItemView>, unread_only: bool, k: int)
    requires
        0 <= k <= items.len(),
    ensures
        newest_first(listing(items, unread_only, k)),
    decreases k,
{
    if k > 0 {
        lemma_listing_sorted(items, unread_only, k - 1);
        if !(unread_only && items[k - 1].7) {
            lemma_insert_sorted(listing(items, unread_only, k - 1), items[k - 1]);
        }
    }
}

fn insert_sorted_exec(out: &mut Vec<InboxItem>, x: InboxItem)
    ensures
        ivs(final(out)@) == insert_newest_first(ivs(old(out)@), iv(x)),
{
    let ghost s = ivs(out@);
    let mut p: usize = 0;
    assert(s.take(0) + s.skip(0) =~= s);
    assert(s.take(0) + insert_newest_first(s.skip(0), iv(x)) =~= insert_newest_first(s, iv(x)));
    while p < out.len() && out[p].created_at >= x.created_at
        invariant
            p <= out@.len(),
            s == ivs(out@),
            insert_newest_first(s, iv(x)) == s.take(p as int) + insert_newest_first(s.skip(p as int), iv(x)),
        decreases out.len() - p,
    {
        proof {
            let t = s.skip(p as int);
            assert(t[0] == s[p as int]);
            assert(t.drop_first() =~= s.skip(p + 1));
            assert(s.take(p + 1) =~= s.take(p as int) + seq![s[p as int]]);
        }
        p += 1;
    }
    proof {
        if p < s.len() {
            assert(s.skip(p as int)[0] == s[p as int]);
        } else {
            assert(s.skip(p as int) =~= Seq::<ItemView>::empty());
        }
    }
    let ghost xv = iv(x);
    out.insert(p, x);
    assert(ivs(out@) =~= s.take(p as int) + (seq![xv] + s.skip(p as int)));
}

/// The items (unread ones only, if asked), newest first.
pub fn get_all(items: &Vec<InboxItem>, unread_only: bool) -> (r: Vec<InboxItem>)
    ensures
        ivs(r@) == listing(ivs(items@), unread_only, items@.len() as int),
        newest_first(ivs(r@)),
{
    let ghost v = ivs(items@);
    let mut out: Vec<InboxItem> = Vec::new();
    let mut i: usize = 0;
    assert(ivs(out@) =~= Seq::<ItemView>::empty());
    while i < items.len()
        invariant
            i <= items@.len(),
            v == ivs(items@),
            ivs(out@) == listing(v, unread_only, i as int),
        decreases items.len() - i,
    {
        assert(v[i as int] == iv(items@[i as int]));
        if !(unread_only && items[i].read) {
            insert_sorted_exec(&mut out, copy_item(&items[i]));
        }
        i += 1;
    }
    proof {
        lemma_listing_sorted(v, unread_only, v.len() as int);
    }
    out
}

pub struct CreateParams {
    pub task_id: Option<String>,
    pub chat_id: Option<String>,
    pub kind: Option<String>,
    pub title: String,
    pub body: Option<String>,
}

pub open spec fn created(p: CreateParams, id: Seq<char>, now: u64) -> ItemView {
    (
        id,
        opt_str(p.task_id),
        opt_str(p.chat_id),
        match p.kind {
            Some(k) => k@,
            None => "summary"@,
        },
        p.title@,
        match p.body {
            Some(b) => b@,
            None => Seq::empty(),
        },
        now,
        false,
    )
}

/// Appends the item a create request makes, with `id` at time `now`.
pub fn create_with(items: &mut Vec<InboxItem>, p: CreateParams, id: String, now: u64) -> (r: InboxItem)
    ensures
        iv(r) == created(p, id@, now),
        ivs(final(items)@) == ivs(old(items)@).push(created(p, id@, now)),
{
    let kind = match p.kind {
        Some(k) => k,
        None => default_kind(),
    };
    let body = match p.body {
        Some(b) => b,
        None => String::new(),
    };
    let item = InboxItem { id, task_id: p.task_id, chat_id: p.chat_id, kind, title: p.title, body, created_at: now, read: false };
    let copy = copy_item(&item);
    let ghost before = ivs(items@);
    items.push(item);
    assert(ivs(items@) =~= before.push(iv(copy)));
    copy
}

/// Appends the item a create request makes, with a fresh id, created now.
pub fn create(items: &mut Vec<InboxItem>, p: CreateParams) -> (r: InboxItem)
    ensures
        exists|now: u64| iv(r) == created(p, r.id@, now) && ivs(final(items)@) == ivs(old(items)@).push(created(p, r.id@, now)),
        r.id@.len() == 32,
{
    let id = uid();
    let now = now_ms();
    create_with(items, p, id, now)
}

pub open spec fn as_read(x: ItemView) -> ItemView {
    (x.0, x.1, x.2, x.3, x.4, x.5, x.6, true)
}

pub open spec fn first_item(v: Seq<ItemView>, id: Seq<char>, i: int) -> bool {
    0 <= i < v.len() && v[i].0 == id && forall|j: int| 0 <= j < i ==> v[j].0 != id
}

/// Marks the first item with id `item_id` read; whether there was one.
pub fn mark_read(items: &mut Vec<InboxItem>, item_id: &str) -> (r: bool)
    ensures
        r ==> exists|i: int| first_item(ivs(old(items)@), item_id@, i) && ivs(final(items)@) == ivs(old(items)@).update(i, as_read(ivs(old(items)@)[i])),
        !r ==> (forall|j: int| 0 <= j < old(items)@.len() ==> old(items)@[j].id@ != item_id@) && ivs(final(items)@) == ivs(old(items)@),
{
    let ghost v = ivs(items@);
    let ic = chars_of(item_id);
    let mut i: usize = 0;
    while i < items.len()
        invariant
            i <= items@.len(),
            ic@ == item_id@,
            v == ivs(items@),
            items@ == old(items)@,
            forall|j: int| 0 <= j < i ==> items@[j].id@ != item_id@,
        decreases items.len() - i,
    {
        if eq_chars(&chars_of(items[i].id.as_str()), &ic) {
            let mut it = copy_item(&items[i]);
            it.read = true;
            let ghost nv = iv(it);
            items.set(i, it);
            assert(ivs(items@) =~= v.update(i as int, as_read(v[i as int])));
            assert(first_item(v, item_id@, i as int));
            return true;
        }
        i += 1;
    }
    false
}

pub open spec fn unread_count(v: Seq<ItemView>, k: int) -> int
    decreases k,
{
    if k <= 0 {
        0
    } else {
        unread_count(v, k - 1) + if v[k - 1].7 { 0int } else { 1 }
    }
}

/// Marks every item read; the number that were unread.
pub fn mark_all_read(items: &mut Vec<InboxItem>) -> (r: usize)
    ensures
        ivs(final(items)@) == ivs(old(items)@).map_values(|x: ItemView| as_read(x)),
        r == unread_count(ivs(old(items)@), old(items)@.len() as int),
{
    let ghost v = ivs(items@);
    let n = items.len();
    let mut changed: usize = 0;
    let mut i: usize = 0;
    while i < n
        invariant
            n == v.len(),
            items@.len() == n,
            i <= n,
            changed <= i,
            changed == unread_count(v, i as int),
            forall|j: int| 0 <= j < i ==> iv(#[trigger] items@[j]) == as_read(v[j]),
            forall|j: int| i <= j < n ==> iv(#[trigger] items@[j]) == v[j],
        decreases n - i,
    {
        if !items[i].read {
            let mut it = copy_item(&items[i]);
            it.read = true;
            items.set(i, it);
            changed += 1;
        }
        i += 1;
    }
    assert(ivs(items@) =~= v.map_values(|x: ItemView| as_read(x)));
    changed
}

/// The first `k` items without those whose id is `id`.
pub open spec fn without_item(v: Seq<ItemView>, id: Seq<char>, k: int) -> Seq<ItemView>
    decreases k,
{
    if k <= 0 {
        Seq::empty()
    } else if v[k - 1].0 == id {
        without_item(v, id, k - 1)
    } else {
        without_item(v, id, k - 1).push(v[k - 1])
    }
}

/// Removes every item with id `item_id`; whether any was removed.
pub fn delete(items: &mut Vec<InboxItem>, item_id: &str) -> (r: bool)
    ensures
        ivs(final(items)@) == without_item(ivs(old(items)@), item_id@, old(items)@.len() as int),
        r == (final(items)@.len() != old(items)@.len()),
{
    let ic = chars_of(item_id);
    let ghost orig = ivs(items@);
    let n = items.len();
    let mut i: usize = 0;
    let mut k: usize = 0;
    assert(orig.skip(0) =~= orig);
    while k < n
        invariant
            n == orig.len(),
            ic@ == item_id@,
            k <= n,
            i <= k,
            i == without_item(orig, item_id@, k as int).len(),
            items@.len() == i + (n - k),
            ivs(items@) == without_item(orig, item_id@, k as int) + orig.skip(k as int),
        decreases n - k,
    {
        let ghost w = without_item(orig, item_id@, k as int);
        assert(ivs(items@)[i as int] == orig[k as int]);
        if eq_chars(&chars_of(items[i].id.as_str()), &ic) {
            let ghost before = items@;
            items.remove(i);
            assert(items@ =~= before.remove(i as int));
            assert(ivs(items@) =~= ivs(before).remove(i as int));
            assert((w + orig.skip(k as int)).remove(i as int) =~= w + orig.skip(k + 1));
            assert(ivs(items@) =~= w + orig.skip(k + 1));
        } else {
            assert(w.push(orig[k as int]) + orig.skip(k + 1) =~= w + orig.skip(k as int));
            i += 1;
        }
        k += 1;
    }
    assert(orig.skip(n as int) =~= Seq::<ItemView>::empty());
    assert(ivs(items@) =~= without_item(orig, item_id@, n as int));
    items.len() != n
}

} // verus!
