//! Materialized session state: the entry tree, scalar values, lists and the
//! usage ledger, with the reads a storage backend answers.
//!
//! Scalar values and lists are kept sorted by their physical key
//! (`namespace`, NUL, `key`), which is the order scans report them in.

use vstd::prelude::*;
use crate::assoc::{assoc_get, drop_keyed, keyed, opt_view, position_keyed, put_keyed, sorted_insert, sorted_remove};
use crate::commit::{
    validate_committed_writes, validate_spec, CommitValidationState, CommittedWrite, Entry, EntryBody,
    entry_type_spec, custom_type_spec, entry_copy,
    PreparedCommit, UsageRow, Write, prepare_storage_commit, prepared_writes,
};
use crate::session_types::{BranchScan, EntryScan, EntryStructure, ForkOptions, SessionError, StorageBranchScan, UsageScan};
use crate::fork_policy::{
    contains_id, entry_copied, fork_spec, fork_walk_ends, live_target, parent_of, parent_pairs, plan_view, project_fork_current_state_write, project_spec,
    select_branch_fork, walk_ends, ForkCurrentStatePlan,
};
use crate::text::{chars_of, debug_quoted, debug_str, push_str, starts_with, str_eq, string_of, to_string};
use crate::values::{address_error, resolve_list_read_options, resolved_limit, Addr, ListReadOptions};

verus! {

/// A scalar cell as stored: the last value set and the seq that set it.
#[derive(Debug)]
pub struct StoredValue {
    pub address: Addr,
    pub value: serde_json::Value,
    pub seq: u64,
}

/// One element of a stored list, with the seq that appended it.
#[derive(Debug)]
pub struct ListElement {
    pub seq: u64,
    pub value: serde_json::Value,
}

/// Totals of token accounting, summed over the usage ledger.
pub trait UsageTotals: Sized {
    fn zero() -> Self;

    fn add(&self, other: &Self) -> Self;
}

/// `t` is a value that `U::zero` can return.
pub open spec fn zero_total<U: UsageTotals>(t: U) -> bool {
    call_ensures(U::zero, (), t)
}

/// `r` is a value that `a.add(&b)` can return.
pub open spec fn added_total<U: UsageTotals>(a: U, b: U, r: U) -> bool {
    call_ensures(U::add, (&a, &b), r)
}

/// `t` is what summing the usage of `rows`, in ledger order, with `add`
/// from `zero` can give.
pub open spec fn sums_to<U: UsageTotals>(rows: Seq<UsageRow<U>>, t: U) -> bool
    decreases rows.len(),
{
    if rows.len() == 0 {
        zero_total(t)
    } else {
        exists|p: U| sums_to(rows.drop_last(), p) && #[trigger] added_total(p, rows.last().usage, t)
    }
}

/// Session totals after a commit.
#[derive(Debug)]
pub struct SessionStats<U> {
    pub message_count: u64,
    pub usage: U,
}

/// One appended list element with the address of its list.
struct ListRecord {
    physical: String,
    address: Addr,
    element: ListElement,
}

/// The complete materialized state of a session.
pub struct InMemoryStorageState<M, U> {
    entries: Vec<Entry<M, U>>,
    values: Vec<(String, StoredValue)>,
    lists: Vec<ListRecord>,
    usage: Vec<UsageRow<U>>,
    message_count: u64,
    usage_total: U,
    next_seq: u64,
}

// ---------------------------------------------------------------------------
// The model
// ---------------------------------------------------------------------------

/// The key a value or list is stored under.
pub open spec fn physical(namespace: Seq<char>, key: Seq<char>) -> Seq<char> {
    namespace + seq!['\0'] + key
}

/// What the state holds: entries in commit order, scalar cells sorted by
/// physical key, list elements in append order with their list's key and
/// address, usage rows in commit order, the number of message entries, and
/// the next seq to give out.
pub struct StoreView<M, U> {
    pub entries: Seq<Entry<M, U>>,
    pub values: Seq<(Seq<char>, StoredValue)>,
    pub lists: Seq<(Seq<char>, Addr, ListElement)>,
    pub usage: Seq<UsageRow<U>>,
    pub message_count: int,
    pub next_seq: int,
}

pub open spec fn is_message<M, U>(e: Entry<M, U>) -> bool {
    e.body is Message
}

/// The list elements other than those under key `k`.
pub open spec fn drop_list(s: Seq<(Seq<char>, Addr, ListElement)>, k: Seq<char>) -> Seq<(Seq<char>, Addr, ListElement)>
    decreases s.len(),
{
    if s.len() == 0 {
        s
    } else if s.last().0 == k {
        drop_list(s.drop_last(), k)
    } else {
        drop_list(s.drop_last(), k).push(s.last())
    }
}

/// One committed write applied to the state.
pub open spec fn apply_write_spec<M, U>(v: StoreView<M, U>, w: CommittedWrite<M, U>) -> StoreView<M, U> {
    let next = w.seq_spec() + 1;
    match w {
        CommittedWrite::Entry { entry } => StoreView {
            entries: v.entries.push(entry),
            message_count: if is_message(entry) {
                v.message_count + 1
            } else {
                v.message_count
            },
            next_seq: next,
            ..v
        },
        CommittedWrite::Usage { row } => StoreView { usage: v.usage.push(row), next_seq: next, ..v },
        CommittedWrite::ValueDelete { namespace, key, .. } => StoreView {
            values: sorted_remove(v.values, physical(namespace@, key@)),
            next_seq: next,
            ..v
        },
        CommittedWrite::ListDelete { namespace, key, .. } => StoreView {
            lists: drop_list(v.lists, physical(namespace@, key@)),
            next_seq: next,
            ..v
        },
        CommittedWrite::ValueSet { seq, namespace, key, value } => StoreView {
            values: sorted_insert(
                v.values,
                physical(namespace@, key@),
                StoredValue { address: Addr { namespace, key }, value, seq },
            ),
            next_seq: next,
            ..v
        },
        CommittedWrite::ListAppend { seq, namespace, key, value } => StoreView {
            lists: v.lists.push((physical(namespace@, key@), Addr { namespace, key }, ListElement { seq, value })),
            next_seq: next,
            ..v
        },
    }
}

pub open spec fn apply_writes_upto<M, U>(v: StoreView<M, U>, ws: Seq<CommittedWrite<M, U>>, k: int) -> StoreView<
    M,
    U,
>
    decreases k,
{
    if k <= 0 {
        v
    } else {
        apply_write_spec(apply_writes_upto(v, ws, k - 1), ws[k - 1])
    }
}

spec fn records_view(r: Seq<ListRecord>) -> Seq<(Seq<char>, Addr, ListElement)> {
    r.map_values(|x: ListRecord| (x.physical@, x.address, x.element))
}

impl<M, U> InMemoryStorageState<M, U> {
    pub closed spec fn view_spec(&self) -> StoreView<M, U> {
        StoreView {
            entries: self.entries@,
            values: keyed(self.values@),
            lists: records_view(self.lists@),
            usage: self.usage@,
            message_count: self.message_count as int,
            next_seq: self.next_seq as int,
        }
    }

    /// The running usage total.
    pub closed spec fn totals(&self) -> U {
        self.usage_total
    }
}

/// The ids of a state's entries.
pub open spec fn entry_ids<M, U>(v: StoreView<M, U>) -> Set<Seq<char>> {
    Set::new(|id: Seq<char>| exists|i: int| 0 <= i < v.entries.len() && (#[trigger] v.entries[i]).id@ == id)
}

/// The ids of a state's usage rows.
pub open spec fn usage_ids<M, U>(v: StoreView<M, U>) -> Set<Seq<char>> {
    Set::new(|id: Seq<char>| exists|i: int| 0 <= i < v.usage.len() && (#[trigger] v.usage[i]).id@ == id)
}

fn physical_key(namespace: &str, key: &str) -> (r: String)
    ensures
        r@ == physical(namespace@, key@),
{
    let mut v: Vec<char> = Vec::new();
    push_str(&mut v, namespace);
    v.push('\0');
    push_str(&mut v, key);
    string_of(&v)
}

impl<M, U: UsageTotals> InMemoryStorageState<M, U> {
    /// An empty state whose first seq is 1.
    pub fn new() -> (r: Self)
        ensures
            r.view_spec() == (StoreView::<M, U> {
                entries: Seq::empty(),
                values: Seq::empty(),
                lists: Seq::empty(),
                usage: Seq::empty(),
                message_count: 0,
                next_seq: 1,
            }),
            state_ok(r.view_spec()),
            sums_to(r.view_spec().usage, r.totals()),
    {
        let r = InMemoryStorageState {
            entries: Vec::new(),
            values: Vec::new(),
            lists: Vec::new(),
            usage: Vec::new(),
            message_count: 0,
            usage_total: U::zero(),
            next_seq: 1,
        };
        assert(r.view_spec().values =~= Seq::<(Seq<char>, StoredValue)>::empty());
        assert(r.view_spec().lists =~= Seq::<(Seq<char>, Addr, ListElement)>::empty());
        r
    }

    fn drop_list_exec(&mut self, k: &String)
        ensures
            final(self).view_spec() == (StoreView { lists: drop_list(old(self).view_spec().lists, k@), ..old(self).view_spec() }),
            final(self).totals() == old(self).totals(),
    {
        let ghost s = records_view(self.lists@);
        let mut out: Vec<ListRecord> = Vec::new();
        let mut rest: Vec<ListRecord> = Vec::new();
        std::mem::swap(&mut self.lists, &mut rest);
        let ghost r0 = rest@;
        assert(records_view(out@) =~= drop_list(s.take(0), k@));
        for rec in it: rest
            invariant
                it.seq() == r0,
                records_view(r0) == s,
                records_view(out@) == drop_list(s.take(it.index() as int), k@),
        {
            let ghost idx = it.index() as int;
            let ghost t = s.take(idx + 1);
            assert(t.drop_last() =~= s.take(idx));
            assert(t.last() == s[idx]);
            if rec.physical != *k {
                let ghost before = records_view(out@);
                let ghost rv = (rec.physical@, rec.address, rec.element);
                out.push(rec);
                assert(records_view(out@) =~= before.push(rv));
            }
        }
        assert(s.take(s.len() as int) =~= s);
        self.lists = out;
    }

    fn apply_one(&mut self, write: CommittedWrite<M, U>)
        requires
            write.seq_spec() < u64::MAX,
            write is Entry ==> old(self).message_count < u64::MAX,
        ensures
            final(self).view_spec() == apply_write_spec(old(self).view_spec(), write),
            sums_to(old(self).view_spec().usage, old(self).totals()) ==> sums_to(
                final(self).view_spec().usage,
                final(self).totals(),
            ),
    {
        let ghost v0 = self.view_spec();
        let seq = write.seq();
        match write {
            CommittedWrite::Entry { entry } => {
                let is_msg = match &entry.body {
                    EntryBody::Message { .. } => true,
                    _ => false,
                };
                if is_msg {
                    self.message_count = self.message_count + 1;
                }
                self.entries.push(entry);
            },
            CommittedWrite::Usage { row } => {
                let ghost t0 = self.usage_total;
                let ghost u0 = self.usage@;
                let total = self.usage_total.add(&row.usage);
                assert(added_total(t0, row.usage, total));
                self.usage_total = total;
                self.usage.push(row);
                assert(self.usage@.drop_last() =~= u0);
                assert(self.usage@.last() == row);
                assert(sums_to(u0, t0) ==> sums_to(self.usage@, total));
            },
            CommittedWrite::ValueDelete { namespace, key, .. } => {
                let k = physical_key(namespace.as_str(), key.as_str());
                drop_keyed(&mut self.values, k.as_str());
            },
            CommittedWrite::ListDelete { namespace, key, .. } => {
                let k = physical_key(namespace.as_str(), key.as_str());
                self.drop_list_exec(&k);
            },
            CommittedWrite::ValueSet { seq, namespace, key, value } => {
                let k = physical_key(namespace.as_str(), key.as_str());
                let cell = StoredValue { address: Addr { namespace, key }, value, seq };
                put_keyed(&mut self.values, k, cell);
            },
            CommittedWrite::ListAppend { seq, namespace, key, value } => {
                let k = physical_key(namespace.as_str(), key.as_str());
                let ghost rv = (k@, Addr { namespace, key }, ListElement { seq, value });
                let ghost before = records_view(self.lists@);
                self.lists.push(ListRecord { physical: k, address: Addr { namespace, key }, element: ListElement { seq, value } });
                assert(records_view(self.lists@) =~= before.push(rv));
            },
        }
        self.next_seq = seq + 1;
    }
}

// ---------------------------------------------------------------------------
// The write-once tree
// ---------------------------------------------------------------------------

/// Entry and usage ids are pairwise distinct, and every parent is an
/// earlier entry.
pub open spec fn tree_ok<M, U>(v: StoreView<M, U>) -> bool {
    &&& forall|i: int, j: int| 0 <= i < j < v.entries.len() ==> (#[trigger] v.entries[i]).id@ != (#[trigger] v.entries[j]).id@
    &&& forall|i: int, j: int| 0 <= i < j < v.usage.len() ==> (#[trigger] v.usage[i]).id@ != (#[trigger] v.usage[j]).id@
    &&& forall|i: int, j: int|
        0 <= i < v.entries.len() && 0 <= j < v.usage.len() ==> (#[trigger] v.entries[i]).id@ != (#[trigger] v.usage[j]).id@
    &&& forall|i: int|
        0 <= i < v.entries.len() ==> ((#[trigger] v.entries[i]).parent_id matches Some(p) ==> exists|j: int|
            0 <= j < i && (#[trigger] v.entries[j]).id@ == p@)
}

proof fn lemma_validate_ok_prefix<M, U>(
    writes: Seq<CommittedWrite<M, U>>,
    first_seq: u64,
    eids: Set<Seq<char>>,
    uids: Set<Seq<char>>,
    i: int,
    k: int,
)
    requires
        0 <= i <= k,
        crate::commit::validate_upto(writes, first_seq, eids, uids, k) is Ok,
    ensures
        crate::commit::validate_upto(writes, first_seq, eids, uids, i) is Ok,
    decreases k - i,
{
    if i < k {
        lemma_validate_ok_prefix(writes, first_seq, eids, uids, i + 1, k);
    }
}

/// One validated write keeps the tree well formed.
proof fn lemma_apply_keeps_tree<M, U>(
    v: StoreView<M, U>,
    w: CommittedWrite<M, U>,
    tx: Set<Seq<char>>,
    txe: Set<Seq<char>>,
    eids: Set<Seq<char>>,
    uids: Set<Seq<char>>,
)
    requires
        tree_ok(v),
        entry_ids(v) == eids.union(txe),
        usage_ids(v).subset_of(uids.union(tx)),
        txe.subset_of(tx),
        match crate::commit::write_ids(w) {
            Some(ids) => {
                &&& !eids.contains(ids.0) && !uids.contains(ids.0) && !tx.contains(ids.0)
                &&& (ids.1 matches Some(p) ==> (eids.contains(p) || txe.contains(p)))
            },
            None => true,
        },
    ensures
        tree_ok(apply_write_spec(v, w)),
        entry_ids(apply_write_spec(v, w)) == eids.union(
            match crate::commit::write_ids(w) {
                Some(ids) => if ids.2 {
                    txe.insert(ids.0)
                } else {
                    txe
                },
                None => txe,
            },
        ),
        usage_ids(apply_write_spec(v, w)).subset_of(uids.union(
            match crate::commit::write_ids(w) {
                Some(ids) => tx.insert(ids.0),
                None => tx,
            },
        )),
{
    let n = apply_write_spec(v, w);
    match w {
        CommittedWrite::Entry { entry } => {
            let id = entry.id@;
            assert(!entry_ids(v).contains(id));
            assert(!usage_ids(v).contains(id));
            assert forall|i: int| 0 <= i < v.entries.len() implies v.entries[i].id@ != id by {
                assert(entry_ids(v).contains(v.entries[i].id@));
            }
            assert forall|j: int| 0 <= j < v.usage.len() implies v.usage[j].id@ != id by {
                assert(usage_ids(v).contains(v.usage[j].id@));
            }
            assert forall|i: int| 0 <= i < n.entries.len() implies ((#[trigger] n.entries[i]).parent_id matches Some(p) ==> exists|j: int|
                0 <= j < i && (#[trigger] n.entries[j]).id@ == p@) by {
                if i < v.entries.len() {
                    assert(n.entries[i] == v.entries[i]);
                    if let Some(p) = v.entries[i].parent_id {
                        let j = choose|j: int| 0 <= j < i && (#[trigger] v.entries[j]).id@ == p@;
                        assert(n.entries[j] == v.entries[j]);
                    }
                } else {
                    if let Some(p) = entry.parent_id {
                        assert(entry_ids(v).contains(p@));
                        let j = choose|j: int| 0 <= j < v.entries.len() && (#[trigger] v.entries[j]).id@ == p@;
                        assert(n.entries[j] == v.entries[j]);
                    }
                }
            }
            assert(entry_ids(n) =~= eids.union(txe.insert(id))) by {
                assert forall|x: Seq<char>| entry_ids(n).contains(x) == eids.union(txe.insert(id)).contains(x) by {
                    if entry_ids(n).contains(x) {
                        let i = choose|i: int| 0 <= i < n.entries.len() && (#[trigger] n.entries[i]).id@ == x;
                        if i < v.entries.len() {
                            assert(n.entries[i] == v.entries[i]);
                            assert(entry_ids(v).contains(x));
                        }
                    }
                    if eids.union(txe.insert(id)).contains(x) {
                        if x == id {
                            assert(n.entries[v.entries.len() as int].id@ == x);
                        } else {
                            assert(entry_ids(v).contains(x));
                            let i = choose|i: int| 0 <= i < v.entries.len() && (#[trigger] v.entries[i]).id@ == x;
                            assert(n.entries[i] == v.entries[i]);
                        }
                    }
                }
            }
            assert(usage_ids(n) =~= usage_ids(v));
        },
        CommittedWrite::Usage { row } => {
            let id = row.id@;
            assert(!entry_ids(v).contains(id));
            assert forall|i: int| 0 <= i < v.entries.len() implies v.entries[i].id@ != id by {
                assert(entry_ids(v).contains(v.entries[i].id@));
            }
            assert forall|j: int| 0 <= j < v.usage.len() implies v.usage[j].id@ != id by {
                assert(usage_ids(v).contains(v.usage[j].id@));
            }
            assert(entry_ids(n) =~= entry_ids(v));
            assert forall|x: Seq<char>| usage_ids(n).contains(x) implies uids.union(tx.insert(id)).contains(x) by {
                let i = choose|i: int| 0 <= i < n.usage.len() && (#[trigger] n.usage[i]).id@ == x;
                if i < v.usage.len() {
                    assert(n.usage[i] == v.usage[i]);
                    assert(usage_ids(v).contains(x));
                }
            }
        },
        _ => {
            assert(entry_ids(n) =~= entry_ids(v));
            assert(usage_ids(n) =~= usage_ids(v));
        },
    }
}

/// Every list element's seq is below `n`.
pub open spec fn list_seqs_ok(s: Seq<(Seq<char>, Addr, ListElement)>, n: int) -> bool {
    forall|i: int| 0 <= i < s.len() ==> (#[trigger] s[i]).2.seq < n
}

pub open spec fn value_seqs_below(s: Seq<(Seq<char>, StoredValue)>, n: int) -> bool {
    forall|i: int| 0 <= i < s.len() ==> (#[trigger] s[i]).1.seq < n
}

/// Entries, usage rows and list elements are in increasing seq order, and
/// every stored seq is below the next one to give out.
pub open spec fn seqs_ok<M, U>(v: StoreView<M, U>) -> bool {
    &&& forall|i: int, j: int| 0 <= i < j < v.entries.len() ==> (#[trigger] v.entries[i]).seq < (#[trigger] v.entries[j]).seq
    &&& forall|i: int| 0 <= i < v.entries.len() ==> (#[trigger] v.entries[i]).seq < v.next_seq
    &&& forall|i: int, j: int| 0 <= i < j < v.usage.len() ==> (#[trigger] v.usage[i]).seq < (#[trigger] v.usage[j]).seq
    &&& forall|i: int| 0 <= i < v.usage.len() ==> (#[trigger] v.usage[i]).seq < v.next_seq
    &&& list_seqs_ok(v.lists, v.next_seq)
    &&& value_seqs_below(v.values, v.next_seq)
}

/// A well-formed state: a write-once tree, ordered seqs, first seq 1 or more.
pub open spec fn state_ok<M, U>(v: StoreView<M, U>) -> bool {
    &&& tree_ok(v)
    &&& seqs_ok(v)
    &&& 1 <= v.next_seq
}

proof fn lemma_drop_list_seqs(s: Seq<(Seq<char>, Addr, ListElement)>, k: Seq<char>, n: int)
    requires
        list_seqs_ok(s, n),
    ensures
        list_seqs_ok(drop_list(s, k), n),
    decreases s.len(),
{
    if s.len() > 0 {
        assert(list_seqs_ok(s.drop_last(), n)) by {
            assert forall|i: int| 0 <= i < s.drop_last().len() implies (#[trigger] s.drop_last()[i]).2.seq < n by {
                assert(s.drop_last()[i] == s[i]);
            }
        }
        lemma_drop_list_seqs(s.drop_last(), k, n);
        let d = drop_list(s.drop_last(), k);
        if s.last().0 != k {
            assert forall|i: int| 0 <= i < d.len() implies (#[trigger] d.push(s.last())[i]) == d[i] by {}
        }
    }
}

proof fn lemma_sorted_insert_below(s: Seq<(Seq<char>, StoredValue)>, k: Seq<char>, c: StoredValue, n: int)
    requires
        value_seqs_below(s, n),
        c.seq < n,
    ensures
        value_seqs_below(sorted_insert(s, k, c), n),
    decreases s.len(),
{
    if s.len() > 0 && s[0].0 != k && !crate::text::lex_lt(k, s[0].0) {
        assert(value_seqs_below(s.drop_first(), n)) by {
            assert forall|i: int| 0 <= i < s.drop_first().len() implies (#[trigger] s.drop_first()[i]).1.seq < n by {
                assert(s.drop_first()[i] == s[i + 1]);
            }
        }
        lemma_sorted_insert_below(s.drop_first(), k, c, n);
        let t = sorted_insert(s.drop_first(), k, c);
        assert forall|i: int| 0 <= i < (seq![s[0]] + t).len() implies (#[trigger] (seq![s[0]] + t)[i]).1.seq < n by {
            if i > 0 {
                assert((seq![s[0]] + t)[i] == t[i - 1]);
            }
        }
    } else if s.len() > 0 && s[0].0 != k {
        assert forall|i: int| 0 <= i < (seq![(k, c)] + s).len() implies (#[trigger] (seq![(k, c)] + s)[i]).1.seq < n by {
            if i > 0 {
                assert((seq![(k, c)] + s)[i] == s[i - 1]);
            }
        }
    }
}

proof fn lemma_sorted_remove_below(s: Seq<(Seq<char>, StoredValue)>, k: Seq<char>, n: int)
    requires
        value_seqs_below(s, n),
    ensures
        value_seqs_below(sorted_remove(s, k), n),
    decreases s.len(),
{
    if s.len() > 0 {
        assert(value_seqs_below(s.drop_last(), n)) by {
            assert forall|i: int| 0 <= i < s.drop_last().len() implies (#[trigger] s.drop_last()[i]).1.seq < n by {
                assert(s.drop_last()[i] == s[i]);
            }
        }
        lemma_sorted_remove_below(s.drop_last(), k, n);
    }
}

/// A write whose seq is at least the next one keeps the seqs in order.
proof fn lemma_apply_keeps_seqs<M, U>(v: StoreView<M, U>, w: CommittedWrite<M, U>)
    requires
        seqs_ok(v),
        w.seq_spec() >= v.next_seq,
    ensures
        seqs_ok(apply_write_spec(v, w)),
{
    let n = apply_write_spec(v, w);
    let next = w.seq_spec() + 1;
    assert(list_seqs_ok(v.lists, next));
    assert(value_seqs_below(v.values, next));
    match w {
        CommittedWrite::Entry { entry } => {
            assert forall|i: int| 0 <= i < v.entries.len() implies (#[trigger] n.entries[i]) == v.entries[i] by {}
        },
        CommittedWrite::Usage { row } => {
            assert forall|i: int| 0 <= i < v.usage.len() implies (#[trigger] n.usage[i]) == v.usage[i] by {}
        },
        CommittedWrite::ValueDelete { namespace, key, .. } => {
            lemma_sorted_remove_below(v.values, physical(namespace@, key@), next);
        },
        CommittedWrite::ListDelete { namespace, key, .. } => {
            lemma_drop_list_seqs(v.lists, physical(namespace@, key@), next);
        },
        CommittedWrite::ValueSet { seq, namespace, key, value } => {
            lemma_sorted_insert_below(
                v.values,
                physical(namespace@, key@),
                StoredValue { address: Addr { namespace, key }, value, seq },
                next,
            );
        },
        CommittedWrite::ListAppend { seq, namespace, key, value } => {
            let t = (physical(namespace@, key@), Addr { namespace, key }, ListElement { seq, value });
            assert forall|i: int| 0 <= i < v.lists.len() implies (#[trigger] n.lists[i]) == v.lists[i] by {}
            assert(n.lists[v.lists.len() as int] == t);
        },
    }
}

// ---------------------------------------------------------------------------
// Commits
// ---------------------------------------------------------------------------

/// The transaction checks of `writes` hold, and what they have seen after
/// the first `i` writes matches the state reached.
pub open spec fn applied_sets_match<M, U>(
    v: StoreView<M, U>,
    writes: Seq<CommittedWrite<M, U>>,
    first_seq: u64,
    eids: Set<Seq<char>>,
    uids: Set<Seq<char>>,
    i: int,
) -> bool {
    match crate::commit::validate_upto(writes, first_seq, eids, uids, i) {
        Ok(st) => {
            &&& st.0 == v.next_seq - 1
            &&& entry_ids(v) == eids.union(st.2)
            &&& usage_ids(v).subset_of(uids.union(st.1))
            &&& st.2.subset_of(st.1)
        },
        Err(_) => false,
    }
}

impl<M, U: UsageTotals + Clone> InMemoryStorageState<M, U> {
    /// Apply writes that passed validation, and return the totals after.
    pub fn apply_validated(&mut self, writes: Vec<CommittedWrite<M, U>>) -> (r: SessionStats<U>)
        requires
            state_ok(old(self).view_spec()),
            validate_spec(
                writes@,
                old(self).view_spec().next_seq as u64,
                entry_ids(old(self).view_spec()),
                usage_ids(old(self).view_spec()),
            ) is Ok,
            forall|i: int| 0 <= i < writes@.len() ==> (#[trigger] writes@[i]).seq_spec() < u64::MAX,
            old(self).view_spec().message_count + writes@.len() < u64::MAX,
            sums_to(old(self).view_spec().usage, old(self).totals()),
        ensures
            final(self).view_spec() == apply_writes_upto(old(self).view_spec(), writes@, writes@.len() as int),
            state_ok(final(self).view_spec()),
            sums_to(final(self).view_spec().usage, final(self).totals()),
            r.message_count == final(self).view_spec().message_count,
            cloned(final(self).totals(), r.usage),
    {
        let ghost v0 = self.view_spec();
        let ghost ws = writes@;
        let ghost first = v0.next_seq as u64;
        let ghost eids = entry_ids(v0);
        let ghost uids = usage_ids(v0);
        assert(entry_ids(v0) =~= eids.union(Set::<Seq<char>>::empty()));
        for w in it: writes
            invariant
                it.seq() == ws,
                state_ok(self.view_spec()),
                sums_to(self.view_spec().usage, self.totals()),
                self.view_spec() == apply_writes_upto(v0, ws, it.index() as int),
                validate_spec(ws, first, eids, uids) is Ok,
                applied_sets_match(self.view_spec(), ws, first, eids, uids, it.index() as int),
                forall|i: int| 0 <= i < ws.len() ==> (#[trigger] ws[i]).seq_spec() < u64::MAX,
                self.view_spec().message_count <= v0.message_count + it.index(),
                v0.message_count + ws.len() < u64::MAX,
        {
            let ghost idx = it.index() as int;
            assert(w == ws[idx]);
            proof {
                lemma_validate_ok_prefix(ws, first, eids, uids, idx + 1, ws.len() as int);
                let st = crate::commit::validate_upto(ws, first, eids, uids, idx)->Ok_0;
                lemma_apply_keeps_tree(self.view_spec(), w, st.1, st.2, eids, uids);
                lemma_apply_keeps_seqs(self.view_spec(), w);
            }
            self.apply_one(w);
        }
        SessionStats { message_count: self.message_count, usage: self.usage_total.clone() }
    }
}

impl<M, U> InMemoryStorageState<M, U> {
    /// Give `writes` their seqs and timestamp and check them against the
    /// committed state, without applying anything.
    pub fn prepare_commit(&self, writes: Vec<Write<M, U>>, timestamp: u64) -> (r: Result<PreparedCommit<M, U>, SessionError>)
        requires
            1 <= self.view_spec().next_seq,
            self.view_spec().next_seq + writes@.len() <= u64::MAX + 1,
        ensures
            match r {
                Ok(p) => {
                    &&& p.first_seq == self.view_spec().next_seq
                    &&& p.timestamp == timestamp
                    &&& p.writes@ == prepared_writes(writes@, p.first_seq, timestamp)
                    &&& p.seqs@.len() == writes@.len()
                    &&& forall|i: int| 0 <= i < writes@.len() ==> #[trigger] p.seqs@[i] == p.first_seq + i
                    &&& validate_spec(p.writes@, p.first_seq, entry_ids(self.view_spec()), usage_ids(self.view_spec())) is Ok
                },
                Err(e) => e matches SessionError::Storage(m) && validate_spec(
                    prepared_writes(writes@, self.view_spec().next_seq as u64, timestamp),
                    self.view_spec().next_seq as u64,
                    entry_ids(self.view_spec()),
                    usage_ids(self.view_spec()),
                ) == Err::<(), Seq<char>>(m@),
            },
    {
        let ghost ws = writes@;
        let prepared = prepare_storage_commit(writes, self.next_seq, timestamp);
        assert forall|i: int| 0 <= i < ws.len() implies #[trigger] prepared.seqs@[i] == prepared.first_seq + i by {
            assert(crate::commit::committed_as(ws[i], (prepared.first_seq + i) as u64, timestamp, prepared.writes@[i]));
        }
        match validate_committed_writes(prepared.writes.as_slice(), self.next_seq, self) {
            Ok(()) => Ok(prepared),
            Err(m) => Err(SessionError::Storage(m)),
        }
    }

    /// Raise the next seq to at least `next_seq`.
    pub fn advance_next_seq(&mut self, next_seq: u64)
        requires
            next_seq >= 1,
        ensures
            final(self).view_spec() == (StoreView {
                next_seq: if next_seq > old(self).view_spec().next_seq {
                    next_seq as int
                } else {
                    old(self).view_spec().next_seq
                },
                ..old(self).view_spec()
            }),
            state_ok(old(self).view_spec()) ==> state_ok(final(self).view_spec()),
            final(self).totals() == old(self).totals(),
    {
        if next_seq > self.next_seq {
            self.next_seq = next_seq;
        }
    }

    pub fn get_next_seq(&self) -> (r: u64)
        ensures
            r == self.view_spec().next_seq,
    {
        self.next_seq
    }

    /// The number of message entries and the usage totals.
    pub fn get_stats(&self) -> (r: SessionStats<U>)
        where
            U: Clone,
        ensures
            r.message_count == self.view_spec().message_count,
            cloned(self.totals(), r.usage),
    {
        SessionStats { message_count: self.message_count, usage: self.usage_total.clone() }
    }
}

// ---------------------------------------------------------------------------
// Reads
// ---------------------------------------------------------------------------

/// The values a sequence of references points at.
pub open spec fn derefs<T>(s: Seq<&T>) -> Seq<T> {
    s.map_values(|x: &T| *x)
}

/// The first `n` items of `s`, or all of them when there are fewer.
pub open spec fn upto<T>(s: Seq<T>, n: int) -> Seq<T> {
    if n < s.len() {
        s.take(n)
    } else {
        s
    }
}

/// The scalar cell at an address.
pub open spec fn value_at<M, U>(v: StoreView<M, U>, address: Addr) -> Option<StoredValue> {
    assoc_get(v.values, physical(address.namespace@, address.key@))
}

/// A cell lies under a scan prefix: same namespace, key starting with the
/// prefix key.
pub open spec fn in_scan(c: StoredValue, prefix: Addr) -> bool {
    c.address.namespace@ == prefix.namespace@ && prefix.key@.is_prefix_of(c.address.key@)
}

/// The cells under a prefix, in physical-key order.
pub open spec fn scan_values_spec<M, U>(v: StoreView<M, U>, prefix: Addr) -> Seq<StoredValue> {
    v.values.map_values(|p: (Seq<char>, StoredValue)| p.1).filter(|c: StoredValue| in_scan(c, prefix))
}

/// An element lies past the cursor in the reading direction.
pub open spec fn past_cursor(seq: u64, cursor: Option<u64>, desc: bool) -> bool {
    match cursor {
        Some(c) => if desc {
            seq < c
        } else {
            seq > c
        },
        None => true,
    }
}

/// The elements of the list at `address` past the cursor, in append order.
pub open spec fn list_picked<M, U>(v: StoreView<M, U>, address: Addr, cursor: Option<u64>, desc: bool) -> Seq<
    ListElement,
> {
    v.lists.filter(
        |t: (Seq<char>, Addr, ListElement)|
            t.0 == physical(address.namespace@, address.key@) && past_cursor(t.2.seq, cursor, desc),
    ).map_values(|t: (Seq<char>, Addr, ListElement)| t.2)
}

/// What reading a list returns: the elements past the cursor, newest first
/// when descending, at most the resolved limit of them.
pub open spec fn read_list_spec<M, U>(v: StoreView<M, U>, address: Addr, options: ListReadOptions) -> Seq<ListElement> {
    let picked = list_picked(v, address, options.cursor, options.desc);
    upto(
        if options.desc {
            picked.reverse()
        } else {
            picked
        },
        resolved_limit(options.limit),
    )
}

/// The first entry with id `id`.
pub open spec fn find_entry<M, U>(es: Seq<Entry<M, U>>, id: Seq<char>) -> Option<Entry<M, U>>
    decreases es.len(),
{
    if es.len() == 0 {
        None
    } else if es[0].id@ == id {
        Some(es[0])
    } else {
        find_entry(es.drop_first(), id)
    }
}

fn reverse_refs<'a, T>(v: &Vec<&'a T>) -> (r: Vec<&'a T>)
    ensures
        r@ == v@.reverse(),
{
    let n = v.len();
    let mut r: Vec<&'a T> = Vec::new();
    let mut i: usize = 0;
    while i < n
        invariant
            n == v@.len(),
            i <= n,
            r@.len() == i,
            forall|j: int| 0 <= j < i ==> r@[j] == v@[n - 1 - j],
        decreases n - i,
    {
        r.push(v[n - 1 - i]);
        i += 1;
    }
    assert(r@ =~= v@.reverse());
    r
}

impl<M, U> InMemoryStorageState<M, U> {
    /// Index of the first entry with id `id`.
    fn entry_index(&self, id: &String) -> (r: Option<usize>)
        ensures
            match r {
                Some(i) => {
                    &&& i < self.entries@.len()
                    &&& self.entries@[i as int].id@ == id@
                    &&& forall|j: int| 0 <= j < i ==> (#[trigger] self.entries@[j]).id@ != id@
                },
                None => forall|j: int| 0 <= j < self.entries@.len() ==> (#[trigger] self.entries@[j]).id@ != id@,
            },
    {
        let mut i: usize = 0;
        while i < self.entries.len()
            invariant
                i <= self.entries@.len(),
                forall|j: int| 0 <= j < i ==> (#[trigger] self.entries@[j]).id@ != id@,
            decreases self.entries.len() - i,
        {
            if self.entries[i].id == *id {
                return Some(i);
            }
            i += 1;
        }
        None
    }

    /// The cell stored at `address`.
    pub fn get_value(&self, address: &Addr) -> (r: Option<&StoredValue>)
        ensures
            match r {
                Some(c) => value_at(self.view_spec(), *address) == Some(*c),
                None => value_at(self.view_spec(), *address) is None,
            },
    {
        let k = physical_key(address.namespace.as_str(), address.key.as_str());
        match position_keyed(&self.values, k.as_str()) {
            Some(i) => Some(&self.values[i].1),
            None => None,
        }
    }

    /// The cells in `prefix.namespace` whose key starts with `prefix.key`,
    /// in key order.
    pub fn scan_values(&self, prefix: &Addr) -> (r: Vec<&StoredValue>)
        ensures
            derefs(r@) == scan_values_spec(self.view_spec(), *prefix),
    {
        let ghost cells = self.view_spec().values.map_values(|p: (Seq<char>, StoredValue)| p.1);
        let ghost pred = |c: StoredValue| in_scan(c, *prefix);
        let pk = chars_of(prefix.key.as_str());
        let mut out: Vec<&StoredValue> = Vec::new();
        let mut i: usize = 0;
        assert(cells.take(0).filter(pred) =~= Seq::<StoredValue>::empty());
        while i < self.values.len()
            invariant
                i <= self.values@.len(),
                cells.len() == self.values@.len(),
                forall|j: int| 0 <= j < cells.len() ==> #[trigger] cells[j] == self.values@[j].1,
                pk@ == prefix.key@,
                pred == (|c: StoredValue| in_scan(c, *prefix)),
                derefs(out@) == cells.take(i as int).filter(pred),
            decreases self.values.len() - i,
        {
            let cell = &self.values[i].1;
            let ghost before = derefs(out@);
            assert(cells.take(i + 1).drop_last() =~= cells.take(i as int));
            assert(cells.take(i + 1).last() == cells[i as int]);
            let kc = chars_of(cell.address.key.as_str());
            let same_ns = cell.address.namespace == prefix.namespace;
            let hit = same_ns && starts_with(&kc, &pk);
            assert(hit == pred(cells[i as int]));
            assert(cells.take(i + 1).filter(pred) == if pred(cells[i as int]) {
                before.push(cells[i as int])
            } else {
                before
            }) by {
                reveal(Seq::filter);
            }
            if hit {
                out.push(cell);
                assert(derefs(out@) =~= before.push(*cell));
            }
            i += 1;
        }
        assert(cells.take(cells.len() as int) =~= cells);
        out
    }

    /// The elements of the list at `address`, read as `options` say.
    pub fn read_list(&self, address: &Addr, options: ListReadOptions) -> (r: Vec<&ListElement>)
        ensures
            derefs(r@) == read_list_spec(self.view_spec(), *address, options),
    {
        let (cursor, desc, limit) = resolve_list_read_options(options);
        let k = physical_key(address.namespace.as_str(), address.key.as_str());
        let ghost s = self.view_spec().lists;
        let ghost pred = |t: (Seq<char>, Addr, ListElement)|
            t.0 == physical(address.namespace@, address.key@) && past_cursor(t.2.seq, cursor, desc);
        let ghost f = |t: (Seq<char>, Addr, ListElement)| t.2;
        let mut out: Vec<&ListElement> = Vec::new();
        let mut i: usize = 0;
        assert(s.take(0).filter(pred) =~= Seq::<(Seq<char>, Addr, ListElement)>::empty());
        assert(derefs(out@) =~= s.take(0).filter(pred).map_values(f));
        while i < self.lists.len()
            invariant
                i <= self.lists@.len(),
                s == records_view(self.lists@),
                k@ == physical(address.namespace@, address.key@),
                pred == (|t: (Seq<char>, Addr, ListElement)|
                    t.0 == physical(address.namespace@, address.key@) && past_cursor(t.2.seq, cursor, desc)),
                f == (|t: (Seq<char>, Addr, ListElement)| t.2),
                derefs(out@) == s.take(i as int).filter(pred).map_values(f),
            decreases self.lists.len() - i,
        {
            let rec = &self.lists[i];
            let ghost before = s.take(i as int).filter(pred);
            assert(s.take(i + 1).drop_last() =~= s.take(i as int));
            assert(s.take(i + 1).last() == s[i as int]);
            assert(s[i as int] == (rec.physical@, rec.address, rec.element));
            let seq = rec.element.seq;
            let past = match cursor {
                Some(c) => if desc {
                    seq < c
                } else {
                    seq > c
                },
                None => true,
            };
            let same = rec.physical == k;
            assert((same && past) == pred(s[i as int]));
            assert(s.take(i + 1).filter(pred) == if pred(s[i as int]) {
                before.push(s[i as int])
            } else {
                before
            }) by {
                reveal(Seq::filter);
            }
            if same && past {
                out.push(&rec.element);
                assert(before.push(s[i as int]).map_values(f) =~= before.map_values(f).push(rec.element));
            }
            i += 1;
        }
        assert(s.take(s.len() as int) =~= s);
        let mut picked = if desc {
            reverse_refs(&out)
        } else {
            out
        };
        proof {
            if desc {
                assert(derefs(picked@) =~= derefs(out@).reverse());
            }
        }
        let ghost whole = derefs(picked@);
        picked.truncate(limit);
        assert(derefs(picked@) =~= upto(whole, limit as int));
        picked
    }

    /// The entries with the given ids, in the order of `ids`; `None` for an
    /// id with no entry.
    pub fn get_entries(&self, ids: &[String]) -> (r: Vec<Option<&Entry<M, U>>>)
        ensures
            r@.len() == ids@.len(),
            forall|i: int|
                0 <= i < ids@.len() ==> match #[trigger] r@[i] {
                    Some(e) => find_entry(self.view_spec().entries, ids@[i]@) == Some(*e),
                    None => find_entry(self.view_spec().entries, ids@[i]@) is None,
                },
    {
        let mut out: Vec<Option<&Entry<M, U>>> = Vec::new();
        let mut i: usize = 0;
        while i < ids.len()
            invariant
                i <= ids@.len(),
                out@.len() == i,
                forall|j: int|
                    0 <= j < i ==> match #[trigger] out@[j] {
                        Some(e) => find_entry(self.view_spec().entries, ids@[j]@) == Some(*e),
                        None => find_entry(self.view_spec().entries, ids@[j]@) is None,
                    },
            decreases ids.len() - i,
        {
            let found = self.entry_index(&ids[i]);
            proof {
                let es = self.view_spec().entries;
                match found {
                    Some(x) => lemma_find_entry_at(es, ids@[i as int]@, x as int),
                    None => lemma_find_entry_none(es, ids@[i as int]@),
                }
            }
            match found {
                Some(x) => out.push(Some(&self.entries[x])),
                None => out.push(None),
            }
            i += 1;
        }
        out
    }
}

/// An entry has the asked type and custom type, where these are given.
pub open spec fn type_ok<M, U>(e: Entry<M, U>, entry_type: Option<&'static str>, custom_type: Option<String>) -> bool {
    &&& (entry_type matches Some(t) ==> entry_type_spec(e.body) == t@)
    &&& (custom_type matches Some(c) ==> custom_type_spec(e.body) == Some(c@))
}

/// An entry passes the filters of an entry scan.
pub open spec fn entry_scan_hit<M, U>(e: Entry<M, U>, q: EntryScan) -> bool {
    &&& type_ok(e, q.entry_type, q.custom_type)
    &&& (q.from_seq matches Some(f) ==> e.seq >= f)
    &&& (q.to_seq matches Some(t) ==> e.seq <= t)
}

/// What an entry scan returns: the matching entries in seq order (newest
/// first when descending), at most `limit` of them.
pub open spec fn scan_entries_spec<M, U>(v: StoreView<M, U>, q: EntryScan) -> Seq<Entry<M, U>> {
    let ordered = if q.desc {
        v.entries.reverse()
    } else {
        v.entries
    };
    let hits = ordered.filter(|e: Entry<M, U>| entry_scan_hit(e, q));
    match q.limit {
        Some(l) => upto(hits, l as int),
        None => hits,
    }
}

/// A usage row lies in the scanned seq range.
pub open spec fn usage_scan_hit<U>(r: UsageRow<U>, q: UsageScan) -> bool {
    &&& (q.from_seq matches Some(f) ==> r.seq >= f)
    &&& (q.to_seq matches Some(t) ==> r.seq <= t)
}

/// What a usage scan returns: the rows in range in ledger order (reversed
/// when descending), at most `limit` of them.
pub open spec fn scan_usage_spec<M, U>(v: StoreView<M, U>, q: UsageScan) -> Seq<UsageRow<U>> {
    let hits = v.usage.filter(|r: UsageRow<U>| usage_scan_hit(r, q));
    let ordered = if q.desc {
        hits.reverse()
    } else {
        hits
    };
    match q.limit {
        Some(l) => upto(ordered, l as int),
        None => ordered,
    }
}

fn type_matches<M, U>(e: &Entry<M, U>, entry_type: Option<&'static str>, custom_type: &Option<String>) -> (r: bool)
    ensures
        r == type_ok(*e, entry_type, *custom_type),
{
    let type_hit = match entry_type {
        Some(t) => str_eq(e.entry_type(), t),
        None => true,
    };
    let custom_hit = match custom_type {
        Some(c) => match e.custom_type() {
            Some(ct) => str_eq(ct, c.as_str()),
            None => false,
        },
        None => true,
    };
    type_hit && custom_hit
}

/// The first `limit` items of a filtered sequence are what a scan that
/// stops once it holds `limit` items has collected.
proof fn lemma_filter_prefix<T>(s: Seq<T>, pred: spec_fn(T) -> bool, i: int, limit: int)
    requires
        0 <= i <= s.len(),
        0 <= limit,
        s.take(i).filter(pred).len() <= limit,
        i == s.len() || s.take(i).filter(pred).len() == limit,
    ensures
        upto(s.filter(pred), limit) == s.take(i).filter(pred),
{
    if i == s.len() {
        assert(s.take(i) =~= s);
    } else {
        assert(s =~= s.take(i) + s.skip(i));
        Seq::filter_distributes_over_add(s.take(i), s.skip(i), pred);
        let a = s.take(i).filter(pred);
        let b = s.skip(i).filter(pred);
        assert((a + b).take(limit) =~= a);
    }
}

/// Filtering keeps strictly increasing seqs increasing.
proof fn lemma_filter_usage_inc<U>(s: Seq<UsageRow<U>>, pred: spec_fn(UsageRow<U>) -> bool, n: int)
    requires
        forall|i: int, j: int| 0 <= i < j < s.len() ==> (#[trigger] s[i]).seq < (#[trigger] s[j]).seq,
        forall|i: int| 0 <= i < s.len() ==> (#[trigger] s[i]).seq < n,
    ensures
        forall|i: int, j: int|
            0 <= i < j < s.filter(pred).len() ==> (#[trigger] s.filter(pred)[i]).seq < (#[trigger] s.filter(pred)[j]).seq,
        forall|i: int| 0 <= i < s.filter(pred).len() ==> (#[trigger] s.filter(pred)[i]).seq < n,
    decreases s.len(),
{
    reveal(Seq::filter);
    if s.len() > 0 {
        let d = s.drop_last();
        let last = s.last();
        assert forall|i: int, j: int| 0 <= i < j < d.len() implies (#[trigger] d[i]).seq < (#[trigger] d[j]).seq by {
            assert(d[i] == s[i] && d[j] == s[j]);
        }
        assert forall|i: int| 0 <= i < d.len() implies (#[trigger] d[i]).seq < last.seq by {
            assert(d[i] == s[i]);
            assert(s[i].seq < s[s.len() - 1].seq);
        }
        lemma_filter_usage_inc(d, pred, last.seq as int);
        let f = d.filter(pred);
        if pred(last) {
            assert forall|i: int| 0 <= i < f.len() implies (#[trigger] f.push(last)[i]) == f[i] by {}
            assert(f.push(last)[f.len() as int] == last);
        }
    }
}

impl<M, U> InMemoryStorageState<M, U> {
    /// The entries that pass the scan's filters, in seq order or newest
    /// first, at most `limit` of them.
    pub fn scan_entries(&self, query: &EntryScan) -> (r: Vec<&Entry<M, U>>)
        ensures
            derefs(r@) == scan_entries_spec(self.view_spec(), *query),
    {
        let ghost es = self.view_spec().entries;
        let ghost ordered = if query.desc {
            es.reverse()
        } else {
            es
        };
        let ghost pred = |e: Entry<M, U>| entry_scan_hit(e, *query);
        let n = self.entries.len();
        let limit = match query.limit {
            Some(l) => l,
            None => usize::MAX,
        };
        let mut out: Vec<&Entry<M, U>> = Vec::new();
        let mut i: usize = 0;
        assert(ordered.take(0).filter(pred) =~= Seq::<Entry<M, U>>::empty()) by {
            reveal(Seq::filter);
        }
        while i < n && out.len() < limit
            invariant
                n == es.len(),
                es == self.entries@,
                ordered.len() == n,
                forall|j: int| 0 <= j < n ==> #[trigger] ordered[j] == if query.desc {
                    es[n - 1 - j]
                } else {
                    es[j]
                },
                pred == (|e: Entry<M, U>| entry_scan_hit(e, *query)),
                i <= n,
                out@.len() <= limit,
                out@.len() <= i,
                derefs(out@) == ordered.take(i as int).filter(pred),
            decreases n - i,
        {
            let idx = if query.desc {
                n - 1 - i
            } else {
                i
            };
            let e = &self.entries[idx];
            assert(*e == ordered[i as int]);
            let ghost before = ordered.take(i as int).filter(pred);
            assert(ordered.take(i + 1).drop_last() =~= ordered.take(i as int));
            assert(ordered.take(i + 1).last() == ordered[i as int]);
            let from_ok = match query.from_seq {
                Some(f) => e.seq >= f,
                None => true,
            };
            let to_ok = match query.to_seq {
                Some(t) => e.seq <= t,
                None => true,
            };
            let hit = type_matches(e, query.entry_type, &query.custom_type) && from_ok && to_ok;
            assert(hit == pred(ordered[i as int]));
            assert(ordered.take(i + 1).filter(pred) == if pred(ordered[i as int]) {
                before.push(ordered[i as int])
            } else {
                before
            }) by {
                reveal(Seq::filter);
            }
            if hit {
                out.push(e);
                assert(derefs(out@) =~= before.push(*e));
            }
            i += 1;
        }
        proof {
            assert(es.reverse().len() == n);
            lemma_filter_prefix(ordered, pred, i as int, limit as int);
        }
        out
    }

    /// The usage rows in the scanned seq range, ascending by seq (descending
    /// when asked), at most `limit` of them.
    pub fn scan_usage(&self, query: &UsageScan) -> (r: Vec<&UsageRow<U>>)
        ensures
            derefs(r@) == scan_usage_spec(self.view_spec(), *query),
            state_ok(self.view_spec()) ==> forall|i: int, j: int|
                0 <= i < j < r@.len() ==> if query.desc {
                    r@[i].seq > r@[j].seq
                } else {
                    r@[i].seq < r@[j].seq
                },
    {
        let ghost us = self.view_spec().usage;
        let ghost pred = |r: UsageRow<U>| usage_scan_hit(r, *query);
        let mut hits: Vec<&UsageRow<U>> = Vec::new();
        let mut i: usize = 0;
        assert(us.take(0).filter(pred) =~= Seq::<UsageRow<U>>::empty()) by {
            reveal(Seq::filter);
        }
        while i < self.usage.len()
            invariant
                us == self.usage@,
                i <= us.len(),
                pred == (|r: UsageRow<U>| usage_scan_hit(r, *query)),
                derefs(hits@) == us.take(i as int).filter(pred),
            decreases self.usage.len() - i,
        {
            let row = &self.usage[i];
            let ghost before = us.take(i as int).filter(pred);
            assert(us.take(i + 1).drop_last() =~= us.take(i as int));
            assert(us.take(i + 1).last() == us[i as int]);
            let from_ok = match query.from_seq {
                Some(f) => row.seq >= f,
                None => true,
            };
            let to_ok = match query.to_seq {
                Some(t) => row.seq <= t,
                None => true,
            };
            assert((from_ok && to_ok) == pred(us[i as int]));
            assert(us.take(i + 1).filter(pred) == if pred(us[i as int]) {
                before.push(us[i as int])
            } else {
                before
            }) by {
                reveal(Seq::filter);
            }
            if from_ok && to_ok {
                hits.push(row);
                assert(derefs(hits@) =~= before.push(*row));
            }
            i += 1;
        }
        assert(us.take(us.len() as int) =~= us);
        let ghost fh = us.filter(pred);
        let mut ordered = if query.desc {
            reverse_refs(&hits)
        } else {
            hits
        };
        proof {
            if query.desc {
                assert(derefs(ordered@) =~= fh.reverse());
            }
        }
        let ghost whole = derefs(ordered@);
        match query.limit {
            Some(l) => {
                ordered.truncate(l);
                assert(derefs(ordered@) =~= upto(whole, l as int));
            },
            None => {},
        }
        proof {
            if state_ok(self.view_spec()) {
                lemma_filter_usage_inc(us, pred, self.view_spec().next_seq);
                assert forall|i: int, j: int| 0 <= i < j < ordered@.len() implies if query.desc {
                    ordered@[i].seq > ordered@[j].seq
                } else {
                    ordered@[i].seq < ordered@[j].seq
                } by {
                    assert(ordered@[i] == derefs(ordered@)[i]);
                    assert(ordered@[j] == derefs(ordered@)[j]);
                    if query.desc {
                        assert(whole[i] == fh[fh.len() - 1 - i]);
                        assert(whole[j] == fh[fh.len() - 1 - j]);
                    }
                }
            }
        }
        ordered
    }
}

/// Index of the first entry with id `id` at or after `from`, or -1.
pub open spec fn index_from<M, U>(es: Seq<Entry<M, U>>, id: Seq<char>, from: int) -> int
    decreases es.len() - from,
{
    if from < 0 || from >= es.len() {
        -1
    } else if es[from].id@ == id {
        from
    } else {
        index_from(es, id, from + 1)
    }
}

/// The walk from entry `i` up to the root, newest first; or the id of the
/// first parent that is missing.
pub open spec fn ancestry<M, U>(es: Seq<Entry<M, U>>, i: int) -> Result<Seq<Entry<M, U>>, Seq<char>>
    decreases i,
{
    if i < 0 || i >= es.len() {
        Ok(Seq::empty())
    } else {
        match es[i].parent_id {
            None => Ok(seq![es[i]]),
            Some(p) => {
                let j = index_from(es, p@, 0);
                if j < 0 {
                    Err(p@)
                } else if j >= i {
                    // Parents come before their children in a well-formed tree.
                    Ok(seq![es[i]])
                } else {
                    match ancestry(es, j) {
                        Ok(rest) => Ok(seq![es[i]] + rest),
                        Err(e) => Err(e),
                    }
                }
            },
        }
    }
}

/// A branch scan stops at an entry: its id or its type is the stop mark.
pub open spec fn stop_hit<M, U>(e: Entry<M, U>, q: BranchScan) -> bool {
    ||| (q.stop_at_id matches Some(id) && e.id@ == id@)
    ||| (q.stop_at_type matches Some(t) && entry_type_spec(e.body) == t@)
}

/// `s` up to and including its first stop entry.
pub open spec fn stop_prefix<M, U>(s: Seq<Entry<M, U>>, q: BranchScan) -> Seq<Entry<M, U>>
    decreases s.len(),
{
    if s.len() == 0 {
        s
    } else if stop_hit(s[0], q) {
        seq![s[0]]
    } else {
        seq![s[0]] + stop_prefix(s.drop_first(), q)
    }
}

/// A walked entry passes the scan's filters; the cursor keeps seqs above it
/// when oldest first and below it when newest first.
pub open spec fn branch_keep<M, U>(e: Entry<M, U>, q: BranchScan) -> bool {
    &&& type_ok(e, q.entry_type, q.custom_type)
    &&& past_cursor(e.seq, q.cursor, !q.oldest_first)
}

/// The query applied to a walked path (newest first).
pub open spec fn branch_select<M, U>(path: Seq<Entry<M, U>>, q: BranchScan) -> Seq<Entry<M, U>> {
    let ordered = if q.oldest_first {
        path.reverse()
    } else {
        path
    };
    let kept = stop_prefix(ordered, q).filter(|e: Entry<M, U>| branch_keep(e, q));
    match q.limit {
        Some(l) => upto(kept, l as int),
        None => kept,
    }
}

/// The walk from the entry with id `start` up to the root, newest first, or
/// the message of the storage error.
pub open spec fn walk_spec<M, U>(es: Seq<Entry<M, U>>, start: Seq<char>) -> Result<Seq<Entry<M, U>>, Seq<char>> {
    let i = index_from(es, start, 0);
    if i < 0 {
        Err("Unknown branch start: "@ + start)
    } else {
        match ancestry(es, i) {
            Ok(path) => Ok(path),
            Err(p) => Err("Corrupt branch: missing parent "@ + p),
        }
    }
}

/// What a branch scan returns, or the message of the storage error.
pub open spec fn scan_branch_spec<M, U>(v: StoreView<M, U>, q: StorageBranchScan) -> Result<Seq<Entry<M, U>>, Seq<char>> {
    match walk_spec(v.entries, q.start@) {
        Ok(path) => Ok(branch_select(path, q.query)),
        Err(m) => Err(m),
    }
}

proof fn lemma_index_from_first<M, U>(es: Seq<Entry<M, U>>, id: Seq<char>, from: int, x: int)
    requires
        0 <= from <= x < es.len(),
        es[x].id@ == id,
        forall|j: int| 0 <= j < x ==> (#[trigger] es[j]).id@ != id,
    ensures
        index_from(es, id, from) == x,
    decreases x - from,
{
    if from < x {
        lemma_index_from_first(es, id, from + 1, x);
    }
}

proof fn lemma_index_from_none<M, U>(es: Seq<Entry<M, U>>, id: Seq<char>, from: int)
    requires
        0 <= from,
        forall|j: int| 0 <= j < es.len() ==> (#[trigger] es[j]).id@ != id,
    ensures
        index_from(es, id, from) == -1,
    decreases es.len() - from,
{
    if from < es.len() {
        lemma_index_from_none(es, id, from + 1);
    }
}

proof fn lemma_stop_prefix<M, U>(s: Seq<Entry<M, U>>, q: BranchScan, i: int)
    requires
        0 <= i <= s.len(),
        forall|j: int| 0 <= j < i ==> !stop_hit(#[trigger] s[j], q),
    ensures
        i == s.len() ==> stop_prefix(s, q) == s,
        i < s.len() && stop_hit(s[i], q) ==> stop_prefix(s, q) == s.take(i + 1),
    decreases i,
{
    if s.len() > 0 {
        if i > 0 {
            assert forall|j: int| 0 <= j < i - 1 implies !stop_hit(#[trigger] s.drop_first()[j], q) by {
                assert(s.drop_first()[j] == s[j + 1]);
            }
            lemma_stop_prefix(s.drop_first(), q, i - 1);
            assert(!stop_hit(s[0], q));
            assert(seq![s[0]] + s.drop_first() =~= s);
            if i < s.len() {
                assert(seq![s[0]] + s.drop_first().take(i) =~= s.take(i + 1));
            }
        } else {
            assert(seq![s[0]] =~= s.take(1));
        }
    } else {
        assert(i == 0);
    }
}

impl<M, U> InMemoryStorageState<M, U> {
    /// The entries from `start` up to the root, newest first.
    fn walk_branch(&self, start: &String) -> (r: Result<Vec<&Entry<M, U>>, SessionError>)
        requires
            state_ok(self.view_spec()),
        ensures
            match r {
                Ok(path) => walk_spec(self.view_spec().entries, start@) == Ok::<Seq<Entry<M, U>>, Seq<char>>(
                    derefs(path@),
                ),
                Err(e) => e matches SessionError::Storage(m) && walk_spec(self.view_spec().entries, start@) == Err::<
                    Seq<Entry<M, U>>,
                    Seq<char>,
                >(m@),
            },
    {
        let ghost es = self.view_spec().entries;
        let first = match self.entry_index(start) {
            Some(i) => i,
            None => {
                proof {
                    lemma_index_from_none(es, start@, 0);
                }
                return Err(storage_error("Unknown branch start: ", start.as_str()));
            },
        };
        proof {
            lemma_index_from_first(es, start@, 0, first as int);
        }
        let mut path: Vec<&Entry<M, U>> = Vec::new();
        let mut cur: usize = first;
        loop
            invariant_except_break
                cur < es.len(),
                match ancestry(es, cur as int) {
                    Ok(rest) => ancestry(es, first as int) == Ok::<Seq<Entry<M, U>>, Seq<char>>(derefs(path@) + rest),
                    Err(e) => ancestry(es, first as int) == Err::<Seq<Entry<M, U>>, Seq<char>>(e),
                },
            invariant
                es == self.entries@,
                state_ok(self.view_spec()),
                0 <= first < es.len(),
                index_from(es, start@, 0) == first,
            ensures
                ancestry(es, first as int) == Ok::<Seq<Entry<M, U>>, Seq<char>>(derefs(path@)),
            decreases cur,
        {
            let e = &self.entries[cur];
            let ghost before = derefs(path@);
            path.push(e);
            assert(derefs(path@) =~= before.push(*e));
            match &e.parent_id {
                None => {
                    assert(before + seq![*e] =~= before.push(*e));
                    break;
                },
                Some(p) => {
                    match self.entry_index(p) {
                        None => {
                            proof {
                                lemma_index_from_none(es, p@, 0);
                            }
                            return Err(storage_error("Corrupt branch: missing parent ", p.as_str()));
                        },
                        Some(j) => {
                            proof {
                                lemma_index_from_first(es, p@, 0, j as int);
                                let k = choose|k: int| 0 <= k < cur && (#[trigger] es[k]).id@ == p@;
                                assert(j <= k);
                                assert(before + (seq![*e] + ancestry(es, j as int)->Ok_0) =~= derefs(path@) + ancestry(
                                    es,
                                    j as int,
                                )->Ok_0);
                            }
                            cur = j;
                        },
                    }
                },
            }
        }
        Ok(path)
    }
}

/// The query of a branch scan applied to a walked path (newest first).
fn select_branch<'a, M, U>(path: Vec<&'a Entry<M, U>>, q: &BranchScan) -> (r: Vec<&'a Entry<M, U>>)
    ensures
        derefs(r@) == branch_select(derefs(path@), *q),
{
    let ghost p0 = derefs(path@);
    let ordered = if q.oldest_first {
        reverse_refs(&path)
    } else {
        path
    };
    let ghost o = derefs(ordered@);
    proof {
        if q.oldest_first {
            assert(o =~= p0.reverse());
        }
    }
    let n = ordered.len();
    let mut stopped: Vec<&'a Entry<M, U>> = Vec::new();
    let mut i: usize = 0;
    let mut done = false;
    while i < n && !done
        invariant
            n == o.len(),
            o == derefs(ordered@),
            i <= n,
            !done ==> forall|j: int| 0 <= j < i ==> !stop_hit(#[trigger] o[j], *q),
            !done ==> derefs(stopped@) == o.take(i as int),
            done ==> derefs(stopped@) == stop_prefix(o, *q),
        decreases n - i,
    {
        let e = ordered[i];
        assert(*e == o[i as int]);
        let ghost before = derefs(stopped@);
        stopped.push(e);
        assert(derefs(stopped@) =~= before.push(*e));
        assert(o.take(i + 1) =~= o.take(i as int).push(o[i as int]));
        let id_hit = match &q.stop_at_id {
            Some(id) => e.id == *id,
            None => false,
        };
        let type_hit = match q.stop_at_type {
            Some(t) => str_eq(e.entry_type(), t),
            None => false,
        };
        if id_hit || type_hit {
            proof {
                lemma_stop_prefix(o, *q, i as int);
            }
            done = true;
        }
        i += 1;
    }
    proof {
        if !done {
            lemma_stop_prefix(o, *q, n as int);
            assert(o.take(n as int) =~= o);
        }
    }
    let ghost sp = stop_prefix(o, *q);
    let ghost pred = |e: Entry<M, U>| branch_keep(e, *q);
    let mut kept: Vec<&'a Entry<M, U>> = Vec::new();
    let mut k: usize = 0;
    assert(sp.take(0).filter(pred) =~= Seq::<Entry<M, U>>::empty()) by {
        reveal(Seq::filter);
    }
    while k < stopped.len()
        invariant
            sp == derefs(stopped@),
            k <= sp.len(),
            pred == (|e: Entry<M, U>| branch_keep(e, *q)),
            derefs(kept@) == sp.take(k as int).filter(pred),
        decreases stopped.len() - k,
    {
        let e = stopped[k];
        assert(*e == sp[k as int]);
        let ghost before = sp.take(k as int).filter(pred);
        assert(sp.take(k + 1).drop_last() =~= sp.take(k as int));
        assert(sp.take(k + 1).last() == sp[k as int]);
        let past = match q.cursor {
            Some(c) => if q.oldest_first {
                e.seq > c
            } else {
                e.seq < c
            },
            None => true,
        };
        let keep = type_matches(e, q.entry_type, &q.custom_type) && past;
        assert(keep == pred(sp[k as int]));
        assert(sp.take(k + 1).filter(pred) == if pred(sp[k as int]) {
            before.push(sp[k as int])
        } else {
            before
        }) by {
            reveal(Seq::filter);
        }
        if keep {
            kept.push(e);
            assert(derefs(kept@) =~= before.push(*e));
        }
        k += 1;
    }
    assert(sp.take(sp.len() as int) =~= sp);
    let ghost whole = derefs(kept@);
    match q.limit {
        Some(l) => {
            kept.truncate(l);
            assert(derefs(kept@) =~= upto(whole, l as int));
        },
        None => {},
    }
    kept
}

impl<M, U> InMemoryStorageState<M, U> {
    /// Walk from `query.start` to the root and apply the query: stop marks,
    /// order, type and cursor filters, limit.
    pub fn scan_branch(&self, query: &StorageBranchScan) -> (r: Result<Vec<&Entry<M, U>>, SessionError>)
        requires
            state_ok(self.view_spec()),
        ensures
            match r {
                Ok(es) => scan_branch_spec(self.view_spec(), *query) == Ok::<Seq<Entry<M, U>>, Seq<char>>(
                    derefs(es@),
                ),
                Err(e) => e matches SessionError::Storage(m) && scan_branch_spec(self.view_spec(), *query) == Err::<
                    Seq<Entry<M, U>>,
                    Seq<char>,
                >(m@),
            },
    {
        match self.walk_branch(&query.start) {
            Ok(path) => Ok(select_branch(path, &query.query)),
            Err(e) => Err(e),
        }
    }

    /// `scan_branch`, each entry reduced to its structure.
    pub fn scan_branch_structure(&self, query: &StorageBranchScan) -> (r: Result<Vec<EntryStructure>, SessionError>)
        requires
            state_ok(self.view_spec()),
        ensures
            match r {
                Ok(ss) => scan_branch_spec(self.view_spec(), *query) is Ok && ss@.len()
                    == scan_branch_spec(self.view_spec(), *query)->Ok_0.len() && forall|i: int|
                    0 <= i < ss@.len() ==> #[trigger] structure_of(
                        ss@[i],
                        scan_branch_spec(self.view_spec(), *query)->Ok_0[i],
                    ),
                Err(e) => e matches SessionError::Storage(m) && scan_branch_spec(self.view_spec(), *query) == Err::<
                    Seq<Entry<M, U>>,
                    Seq<char>,
                >(m@),
            },
    {
        let entries = match self.scan_branch(query) {
            Ok(es) => es,
            Err(e) => return Err(e),
        };
        let ghost es = derefs(entries@);
        let mut out: Vec<EntryStructure> = Vec::new();
        let mut i: usize = 0;
        while i < entries.len()
            invariant
                es == derefs(entries@),
                i <= entries@.len(),
                out@.len() == i,
                forall|j: int| 0 <= j < i ==> #[trigger] structure_of(out@[j], es[j]),
            decreases entries.len() - i,
        {
            let s = EntryStructure::from_entry(entries[i]);
            out.push(s);
            i += 1;
        }
        Ok(out)
    }
}

/// A structure records an entry's id, parent, seq, timestamp and types.
pub open spec fn structure_of<M, U>(s: EntryStructure, e: Entry<M, U>) -> bool {
    &&& s.id@ == e.id@
    &&& opt_view(s.parent_id) == opt_view(e.parent_id)
    &&& s.seq == e.seq
    &&& s.timestamp == e.timestamp
    &&& s.entry_type@ == entry_type_spec(e.body)
    &&& opt_view(s.custom_type) == custom_type_spec(e.body)
}

fn copy_opt(o: &Option<String>) -> (r: Option<String>)
    ensures
        opt_view(r) == opt_view(*o),
{
    match o {
        Some(s) => Some(to_string(s.as_str())),
        None => None,
    }
}

impl EntryStructure {
    /// The structure of an entry.
    pub fn from_entry<M, U>(entry: &Entry<M, U>) -> (r: EntryStructure)
        ensures
            structure_of(r, *entry),
    {
        let custom_type = match entry.custom_type() {
            Some(c) => Some(to_string(c)),
            None => None,
        };
        EntryStructure {
            id: to_string(entry.id.as_str()),
            parent_id: copy_opt(&entry.parent_id),
            seq: entry.seq,
            timestamp: entry.timestamp,
            entry_type: to_string(entry.entry_type()),
            custom_type,
        }
    }
}

// ---------------------------------------------------------------------------
// Forks
// ---------------------------------------------------------------------------

/// Each entry's id with its parent, in commit order.
pub open spec fn entry_parents<M, U>(es: Seq<Entry<M, U>>) -> Seq<(Seq<char>, Option<Seq<char>>)> {
    es.map_values(|e: Entry<M, U>| (e.id@, opt_view(e.parent_id)))
}

/// The cell stored under `namespace` and `key`.
pub open spec fn cell_at<M, U>(v: StoreView<M, U>, namespace: Seq<char>, key: Seq<char>) -> Option<StoredValue> {
    assoc_get(v.values, physical(namespace, key))
}

/// The string a JSON value holds, when it is a string.
pub uninterp spec fn json_str_of(v: serde_json::Value) -> Option<Seq<char>>;

/// `serde_json::Value::as_str`, owned: the string a JSON string holds;
/// `None` for any other value.
#[verifier::external_body]
fn json_as_string(v: &serde_json::Value) -> (r: Option<String>)
    ensures
        opt_view(r) == json_str_of(*v),
{
    v.as_str().map(String::from)
}

/// How a fork copies: `None` for the whole tree, or the branch, its new
/// tip and the entries copied; or the error.
pub open spec fn fork_plan_spec<M, U>(v: StoreView<M, U>, options: ForkOptions) -> Result<
    Option<(Seq<char>, Option<Seq<char>>, Seq<Seq<char>>)>,
    Seq<char>,
> {
    match options {
        ForkOptions::Tree { .. } => Ok(None),
        ForkOptions::Branch { branch, entry_id, before, .. } => {
            let tip = match cell_at(v, "pi.branch.tip"@, branch@) {
                Some(c) => json_str_of(c.value),
                None => None,
            };
            match fork_spec(branch@, opt_view(entry_id), before, tip, entry_parents(v.entries)) {
                Err(m) => Err(m),
                Ok(res) => if cell_at(v, "pi.lane.config"@, branch@) is None || cell_at(v, "pi.lane.state"@, branch@) is None {
                    Err("Source branch "@ + debug_quoted(branch@) + " is not a configured AgentLane"@)
                } else {
                    Ok(Some(res))
                },
            }
        },
    }
}

/// How a fork copies, as decided.
enum MemoryForkPlan {
    Tree,
    Branch { branch: String, destination_tip: Option<String>, entry_ids: Vec<String> },
}

spec fn memory_plan_view(p: MemoryForkPlan) -> Option<(Seq<char>, Option<Seq<char>>, Seq<Seq<char>>)> {
    match p {
        MemoryForkPlan::Tree => None,
        MemoryForkPlan::Branch { branch, destination_tip, entry_ids } => Some(
            (branch@, opt_view(destination_tip), entry_ids@.map_values(|s: String| s@)),
        ),
    }
}

/// The live values (in key order) and list elements (in append order) of a
/// state, as the writes that would set them.
pub open spec fn live_writes<M, U>(v: StoreView<M, U>) -> Seq<CommittedWrite<M, U>> {
    v.values.map_values(
        |p: (Seq<char>, StoredValue)|
            CommittedWrite::<M, U>::ValueSet {
                seq: p.1.seq,
                namespace: p.1.address.namespace,
                key: p.1.address.key,
                value: p.1.value,
            },
    ) + v.lists.map_values(
        |t: (Seq<char>, Addr, ListElement)|
            CommittedWrite::<M, U>::ListAppend {
                seq: t.2.seq,
                namespace: t.1.namespace,
                key: t.1.key,
                value: t.2.value,
            },
    )
}

/// The first error projecting the first `k` writes into a fork.
pub open spec fn fork_error<M, U>(
    ws: Seq<CommittedWrite<M, U>>,
    plan: Option<(Seq<char>, Option<Seq<char>>)>,
    copied: Option<Seq<Seq<char>>>,
    fresh: serde_json::Value,
    k: int,
) -> Option<Seq<char>>
    decreases k,
{
    if k <= 0 {
        None
    } else {
        match fork_error(ws, plan, copied, fresh, k - 1) {
            Some(m) => Some(m),
            None => match project_spec(ws[k - 1], plan, copied, fresh) {
                Err(m) => Some(m),
                Ok(_) => None,
            },
        }
    }
}

/// `base` with the projections of the first `k` writes applied.
pub open spec fn replay_fork<M, U>(
    base: StoreView<M, U>,
    ws: Seq<CommittedWrite<M, U>>,
    plan: Option<(Seq<char>, Option<Seq<char>>)>,
    copied: Option<Seq<Seq<char>>>,
    fresh: serde_json::Value,
    k: int,
) -> StoreView<M, U>
    decreases k,
{
    if k <= 0 {
        base
    } else {
        let prev = replay_fork(base, ws, plan, copied, fresh, k - 1);
        match project_spec(ws[k - 1], plan, copied, fresh) {
            Ok(Some(w)) => apply_write_spec(prev, w),
            _ => prev,
        }
    }
}

proof fn lemma_fork_error_stays<M, U>(
    ws: Seq<CommittedWrite<M, U>>,
    plan: Option<(Seq<char>, Option<Seq<char>>)>,
    copied: Option<Seq<Seq<char>>>,
    fresh: serde_json::Value,
    i: int,
    k: int,
)
    requires
        0 <= i <= k,
        fork_error(ws, plan, copied, fresh, i) is Some,
    ensures
        fork_error(ws, plan, copied, fresh, k) == fork_error(ws, plan, copied, fresh, i),
    decreases k - i,
{
    if i < k {
        lemma_fork_error_stays(ws, plan, copied, fresh, i, k - 1);
    }
}

/// Replaying live writes leaves the entries, the message count and the
/// usage ledger alone.
proof fn lemma_replay_keeps_entries<M, U>(
    base: StoreView<M, U>,
    ws: Seq<CommittedWrite<M, U>>,
    plan: Option<(Seq<char>, Option<Seq<char>>)>,
    copied: Option<Seq<Seq<char>>>,
    fresh: serde_json::Value,
    k: int,
)
    ensures
        replay_fork(base, ws, plan, copied, fresh, k).entries == base.entries,
        replay_fork(base, ws, plan, copied, fresh, k).message_count == base.message_count,
        replay_fork(base, ws, plan, copied, fresh, k).usage == base.usage,
    decreases k,
{
    if k > 0 {
        lemma_replay_keeps_entries(base, ws, plan, copied, fresh, k - 1);
        match project_spec(ws[k - 1], plan, copied, fresh) {
            Ok(Some(w)) => {
                assert(live_target(ws[k - 1]) is Some);
                assert(!(w is Entry) && !(w is Usage));
            },
            _ => {},
        }
    }
}

/// The number of message entries.
pub open spec fn messages_in<M, U>(es: Seq<Entry<M, U>>) -> int
    decreases es.len(),
{
    if es.len() == 0 {
        0
    } else {
        messages_in(es.drop_last()) + if is_message(es.last()) {
            1int
        } else {
            0int
        }
    }
}

proof fn lemma_assoc_first<V>(p: Seq<(Seq<char>, V)>, k: Seq<char>, i: int)
    requires
        0 <= i < p.len(),
        p[i].0 == k,
        forall|j: int| 0 <= j < i ==> (#[trigger] p[j]).0 != k,
    ensures
        assoc_get(p, k) == Some(p[i].1),
    decreases i,
{
    if i > 0 {
        assert forall|j: int| 0 <= j < i - 1 implies (#[trigger] p.drop_first()[j]).0 != k by {
            assert(p.drop_first()[j] == p[j + 1]);
        }
        lemma_assoc_first(p.drop_first(), k, i - 1);
    }
}

proof fn lemma_assoc_none<V>(p: Seq<(Seq<char>, V)>, k: Seq<char>)
    requires
        forall|j: int| 0 <= j < p.len() ==> (#[trigger] p[j]).0 != k,
    ensures
        assoc_get(p, k) is None,
    decreases p.len(),
{
    if p.len() > 0 {
        assert(p[0].0 != k);
        assert forall|j: int| 0 <= j < p.drop_first().len() implies (#[trigger] p.drop_first()[j]).0 != k by {
            assert(p.drop_first()[j] == p[j + 1]);
        }
        lemma_assoc_none(p.drop_first(), k);
    }
}

proof fn lemma_walk_mono(p: Seq<(Seq<char>, Option<Seq<char>>)>, x: Seq<char>, n: nat, m: nat)
    requires
        walk_ends(p, x, n),
        n <= m,
    ensures
        walk_ends(p, x, m),
    decreases n,
{
    match parent_of(p, x) {
        Some(Some(par)) => lemma_walk_mono(p, par, (n - 1) as nat, (m - 1) as nat),
        _ => {},
    }
}

/// In a well-formed tree the walk from entry `i` reaches the root within
/// `i` steps.
proof fn lemma_walk_from_entry<M, U>(v: StoreView<M, U>, i: int)
    requires
        tree_ok(v),
        0 <= i < v.entries.len(),
    ensures
        walk_ends(entry_parents(v.entries), v.entries[i].id@, i as nat),
    decreases i,
{
    let p = entry_parents(v.entries);
    let id = v.entries[i].id@;
    assert forall|j: int| 0 <= j < i implies (#[trigger] p[j]).0 != id by {
        assert(p[j].0 == v.entries[j].id@);
    }
    lemma_assoc_first(p, id, i);
    match v.entries[i].parent_id {
        Some(par) => {
            let j = choose|j: int| 0 <= j < i && (#[trigger] v.entries[j]).id@ == par@;
            lemma_walk_from_entry(v, j);
            lemma_walk_mono(p, par@, j as nat, (i - 1) as nat);
        },
        None => {},
    }
}

proof fn lemma_fork_walk_ends<M, U>(v: StoreView<M, U>, tip: Option<Seq<char>>)
    requires
        tree_ok(v),
    ensures
        fork_walk_ends(tip, entry_parents(v.entries)),
{
    let p = entry_parents(v.entries);
    if let Some(t) = tip {
        if exists|i: int| 0 <= i < v.entries.len() && (#[trigger] v.entries[i]).id@ == t {
            let i = choose|i: int| 0 <= i < v.entries.len() && (#[trigger] v.entries[i]).id@ == t;
            lemma_walk_from_entry(v, i);
        } else {
            assert forall|j: int| 0 <= j < p.len() implies (#[trigger] p[j]).0 != t by {
                assert(p[j].0 == v.entries[j].id@);
            }
            lemma_assoc_none(p, t);
            assert(walk_ends(p, t, 0));
        }
    }
}

impl<M, U> InMemoryStorageState<M, U> {
    fn get_cell(&self, namespace: &str, key: &str) -> (r: Option<&StoredValue>)
        ensures
            match r {
                Some(c) => cell_at(self.view_spec(), namespace@, key@) == Some(*c),
                None => cell_at(self.view_spec(), namespace@, key@) is None,
            },
    {
        let k = physical_key(namespace, key);
        match position_keyed(&self.values, k.as_str()) {
            Some(i) => Some(&self.values[i].1),
            None => None,
        }
    }

    fn parent_records(&self) -> (r: Vec<(String, Option<String>)>)
        ensures
            parent_pairs(r@) == entry_parents(self.view_spec().entries),
    {
        let mut out: Vec<(String, Option<String>)> = Vec::new();
        let mut i: usize = 0;
        while i < self.entries.len()
            invariant
                i <= self.entries@.len(),
                parent_pairs(out@) == entry_parents(self.entries@.take(i as int)),
            decreases self.entries.len() - i,
        {
            let e = &self.entries[i];
            let parent = match &e.parent_id {
                Some(p) => Some(p.clone()),
                None => None,
            };
            let ghost before = out@;
            out.push((e.id.clone(), parent));
            let ghost item = (e.id@, opt_view(e.parent_id));
            assert(parent_pairs(out@) =~= parent_pairs(before).push(item));
            assert(self.entries@.take(i + 1) =~= self.entries@.take(i as int).push(*e));
            assert(entry_parents(self.entries@.take(i as int).push(*e)) =~= entry_parents(self.entries@.take(i as int)).push(item));
            i += 1;
        }
        assert(self.entries@.take(self.entries@.len() as int) =~= self.entries@);
        out
    }

    fn select_fork_plan(&self, options: &ForkOptions) -> (r: Result<MemoryForkPlan, SessionError>)
        requires
            state_ok(self.view_spec()),
        ensures
            match r {
                Ok(p) => fork_plan_spec(self.view_spec(), *options) == Ok::<
                    Option<(Seq<char>, Option<Seq<char>>, Seq<Seq<char>>)>,
                    Seq<char>,
                >(memory_plan_view(p)),
                Err(e) => e matches SessionError::Storage(m) && fork_plan_spec(self.view_spec(), *options) == Err::<
                    Option<(Seq<char>, Option<Seq<char>>, Seq<Seq<char>>)>,
                    Seq<char>,
                >(m@),
            },
    {
        match options {
            ForkOptions::Tree { .. } => Ok(MemoryForkPlan::Tree),
            ForkOptions::Branch { branch, entry_id, before, .. } => {
                let tip = match self.get_cell("pi.branch.tip", branch.as_str()) {
                    Some(stored) => json_as_string(&stored.value),
                    None => None,
                };
                let parents = self.parent_records();
                proof {
                    lemma_fork_walk_ends(self.view_spec(), opt_view(tip));
                }
                let eid: Option<&str> = match entry_id {
                    Some(e) => Some(e.as_str()),
                    None => None,
                };
                assert(match eid {
                    Some(e) => Some(e@),
                    None => None,
                } == opt_view(*entry_id));
                let selected = match select_branch_fork(branch.as_str(), eid, *before, tip, parents.as_slice()) {
                    Ok(res) => res,
                    Err(m) => return Err(SessionError::Storage(m)),
                };
                let configured = self.get_cell("pi.lane.config", branch.as_str()).is_some() && self.get_cell(
                    "pi.lane.state",
                    branch.as_str(),
                ).is_some();
                if !configured {
                    let mut msg = chars_of("Source branch ");
                    push_str(&mut msg, debug_str(branch.as_str()).as_str());
                    push_str(&mut msg, " is not a configured AgentLane");
                    return Err(SessionError::Storage(string_of(&msg)));
                }
                let (destination, destination_tip, entry_ids) = selected;
                Ok(MemoryForkPlan::Branch { branch: destination, destination_tip, entry_ids })
            },
        }
    }
}

/// The entries a plan copies (`None`: all of them).
pub open spec fn plan_copied(plan: Option<(Seq<char>, Option<Seq<char>>, Seq<Seq<char>>)>) -> Option<Seq<Seq<char>>> {
    match plan {
        Some(p) => Some(p.2),
        None => None,
    }
}

/// The branch and tip a plan projects values for (`None`: the whole tree).
pub open spec fn plan_target(plan: Option<(Seq<char>, Option<Seq<char>>, Seq<Seq<char>>)>) -> Option<
    (Seq<char>, Option<Seq<char>>),
> {
    match plan {
        Some(p) => Some((p.0, p.1)),
        None => None,
    }
}

/// What the fork of `v` holds, given the copied entries `d_entries` (with
/// their message count) that `d` starts from.
pub open spec fn fork_matches<M: Clone, U: Clone>(
    v: StoreView<M, U>,
    plan: Option<(Seq<char>, Option<Seq<char>>, Seq<Seq<char>>)>,
    fresh: serde_json::Value,
    d: StoreView<M, U>,
) -> bool {
    let copied = plan_copied(plan);
    let kept = v.entries.filter(|e: Entry<M, U>| entry_copied(copied, e.id@));
    let ws = live_writes(v);
    let base = StoreView {
        entries: d.entries,
        values: Seq::empty(),
        lists: Seq::empty(),
        usage: Seq::empty(),
        message_count: d.message_count,
        next_seq: 1,
    };
    let replayed = replay_fork(base, ws, plan_target(plan), copied, fresh, ws.len() as int);
    &&& d.entries.len() == kept.len()
    &&& forall|i: int| 0 <= i < kept.len() ==> #[trigger] entry_copy(kept[i], d.entries[i])
    &&& d.message_count == messages_in(kept)
    &&& d.values == replayed.values
    &&& d.lists == replayed.lists
    &&& d.usage == Seq::<UsageRow<U>>::empty()
    &&& d.next_seq == v.next_seq
}

impl<M: Clone, U: UsageTotals + Clone> InMemoryStorageState<M, U> {
    /// A new state holding what a fork keeps: the copied entries, the live
    /// values and list elements projected for the fork (lane state reset to
    /// `fresh_lane_state`), no usage ledger, and the same next seq.
    pub fn create_fork(&self, options: &ForkOptions, fresh_lane_state: &serde_json::Value) -> (r: Result<
        InMemoryStorageState<M, U>,
        SessionError,
    >)
        requires
            state_ok(self.view_spec()),
        ensures
            ({
                let planr = fork_plan_spec(self.view_spec(), *options);
                let ws = live_writes(self.view_spec());
                match r {
                    Ok(d) => {
                        &&& planr is Ok
                        &&& fork_error(ws, plan_target(planr->Ok_0), plan_copied(planr->Ok_0), *fresh_lane_state, ws.len() as int) is None
                        &&& fork_matches(self.view_spec(), planr->Ok_0, *fresh_lane_state, d.view_spec())
                        &&& sums_to(d.view_spec().usage, d.totals())
                    },
                    Err(e) => e matches SessionError::Storage(m) && (planr == Err::<
                        Option<(Seq<char>, Option<Seq<char>>, Seq<Seq<char>>)>,
                        Seq<char>,
                    >(m@) || (planr is Ok && fork_error(
                        ws,
                        plan_target(planr->Ok_0),
                        plan_copied(planr->Ok_0),
                        *fresh_lane_state,
                        ws.len() as int,
                    ) == Some(m@))),
                }
            }),
    {
        let ghost v = self.view_spec();
        let plan = match self.select_fork_plan(options) {
            Ok(p) => p,
            Err(e) => return Err(e),
        };
        let ghost pv = memory_plan_view(plan);
        let ghost copied = plan_copied(pv);
        let (current, copied_ids): (ForkCurrentStatePlan, Option<&[String]>) = match &plan {
            MemoryForkPlan::Tree => (ForkCurrentStatePlan::Tree, None),
            MemoryForkPlan::Branch { branch, destination_tip, entry_ids } => {
                let tip = match destination_tip {
                    Some(t) => Some(t.clone()),
                    None => None,
                };
                (ForkCurrentStatePlan::Branch { branch: branch.clone(), destination_tip: tip }, Some(entry_ids.as_slice()))
            },
        };
        assert(plan_view(current) == plan_target(pv));
        assert(match copied_ids {
            Some(ids) => Some(ids@.map_values(|s: String| s@)),
            None => None,
        } == copied);
        let mut dest: InMemoryStorageState<M, U> = InMemoryStorageState::new();
        // The copied entries, in commit order.
        let ghost es = v.entries;
        let ghost pred = |e: Entry<M, U>| entry_copied(copied, e.id@);
        let mut count: u64 = 0;
        let mut i: usize = 0;
        assert(es.take(0).filter(pred) =~= Seq::<Entry<M, U>>::empty()) by {
            reveal(Seq::filter);
        }
        while i < self.entries.len()
            invariant
                es == self.entries@,
                i <= es.len(),
                pred == (|e: Entry<M, U>| entry_copied(copied, e.id@)),
                copied == match copied_ids {
                    Some(ids) => Some(ids@.map_values(|s: String| s@)),
                    None => None,
                },
                dest.entries@.len() == es.take(i as int).filter(pred).len(),
                forall|j: int|
                    0 <= j < dest.entries@.len() ==> #[trigger] entry_copy(es.take(i as int).filter(pred)[j], dest.entries@[j]),
                count == messages_in(es.take(i as int).filter(pred)),
                count <= i,
                dest.view_spec().values == Seq::<(Seq<char>, StoredValue)>::empty(),
                dest.view_spec().lists == Seq::<(Seq<char>, Addr, ListElement)>::empty(),
                dest.view_spec().usage == Seq::<UsageRow<U>>::empty(),
                dest.view_spec().next_seq == 1,
                sums_to(dest.view_spec().usage, dest.totals()),
            decreases self.entries.len() - i,
        {
            let e = &self.entries[i];
            let ghost before = es.take(i as int).filter(pred);
            assert(es.take(i + 1).drop_last() =~= es.take(i as int));
            assert(es.take(i + 1).last() == es[i as int]);
            let keep = match copied_ids {
                Some(ids) => contains_id(ids, e.id.as_str()),
                None => true,
            };
            assert(keep == pred(es[i as int]));
            assert(es.take(i + 1).filter(pred) == if pred(es[i as int]) {
                before.push(es[i as int])
            } else {
                before
            }) by {
                reveal(Seq::filter);
            }
            if keep {
                let is_msg = match &e.body {
                    EntryBody::Message { .. } => true,
                    _ => false,
                };
                assert(before.push(*e).drop_last() =~= before);
                if is_msg {
                    count = count + 1;
                }
                let c = e.copy();
                dest.entries.push(c);
            }
            i += 1;
        }
        assert(es.take(es.len() as int) =~= es);
        dest.message_count = count;
        let ghost base = dest.view_spec();
        assert(base.values =~= Seq::<(Seq<char>, StoredValue)>::empty());
        assert(base.lists =~= Seq::<(Seq<char>, Addr, ListElement)>::empty());
        // The live values, then the list elements, projected for the fork.
        let ghost ws = live_writes(v);
        let nv = self.values.len();
        assert(ws.len() == nv + self.lists@.len());
        let mut k: usize = 0;
        while k < nv
            invariant
                ws == live_writes(v),
                v == self.view_spec(),
                state_ok(v),
                nv == self.values@.len(),
                ws.len() == nv + self.lists@.len(),
                k <= nv,
                plan_view(current) == plan_target(pv),
                fork_plan_spec(v, *options) == Ok::<
                    Option<(Seq<char>, Option<Seq<char>>, Seq<Seq<char>>)>,
                    Seq<char>,
                >(pv),
                copied == plan_copied(pv),
                copied == match copied_ids {
                    Some(ids) => Some(ids@.map_values(|s: String| s@)),
                    None => None,
                },
                fork_error(ws, plan_target(pv), copied, *fresh_lane_state, k as int) is None,
                dest.view_spec() == replay_fork(base, ws, plan_target(pv), copied, *fresh_lane_state, k as int),
                sums_to(dest.view_spec().usage, dest.totals()),
            decreases nv - k,
        {
            let cell = &self.values[k].1;
            assert(v.values[k as int].1 == *cell);
            let w: CommittedWrite<M, U> = CommittedWrite::ValueSet {
                seq: cell.seq,
                namespace: cell.address.namespace.clone(),
                key: cell.address.key.clone(),
                value: cell.value.clone(),
            };
            assert(w == ws[k as int]);
            assert(w.seq_spec() < v.next_seq);
            match project_fork_current_state_write(w, &current, copied_ids, fresh_lane_state.clone()) {
                Err(e) => {
                    proof {
                        assert(fork_error(ws, plan_target(pv), copied, *fresh_lane_state, k + 1) == Some(
                            e->Storage_0@,
                        ));
                        lemma_fork_error_stays(ws, plan_target(pv), copied, *fresh_lane_state, k + 1, ws.len() as int);
                        assert(fork_plan_spec(v, *options) == Ok::<
                            Option<(Seq<char>, Option<Seq<char>>, Seq<Seq<char>>)>,
                            Seq<char>,
                        >(pv));
                        assert(e matches SessionError::Storage(m) && fork_error(
                            ws,
                            plan_target(pv),
                            copied,
                            *fresh_lane_state,
                            ws.len() as int,
                        ) == Some(m@));
                    }
                    return Err(e);
                },
                Ok(None) => {},
                Ok(Some(pw)) => {
                    assert(pw.seq_spec() == ws[k as int].seq_spec());
                    dest.apply_one(pw);
                },
            }
            k += 1;
        }
        let nl = self.lists.len();
        let mut j: usize = 0;
        while j < nl
            invariant
                ws == live_writes(v),
                v == self.view_spec(),
                state_ok(v),
                nv == self.values@.len(),
                nl == self.lists@.len(),
                ws.len() == nv + nl,
                j <= nl,
                plan_view(current) == plan_target(pv),
                fork_plan_spec(v, *options) == Ok::<
                    Option<(Seq<char>, Option<Seq<char>>, Seq<Seq<char>>)>,
                    Seq<char>,
                >(pv),
                copied == plan_copied(pv),
                copied == match copied_ids {
                    Some(ids) => Some(ids@.map_values(|s: String| s@)),
                    None => None,
                },
                fork_error(ws, plan_target(pv), copied, *fresh_lane_state, nv + j) is None,
                dest.view_spec() == replay_fork(base, ws, plan_target(pv), copied, *fresh_lane_state, nv + j),
                sums_to(dest.view_spec().usage, dest.totals()),
            decreases nl - j,
        {
            let rec = &self.lists[j];
            assert(v.lists[j as int] == (rec.physical@, rec.address, rec.element));
            let w: CommittedWrite<M, U> = CommittedWrite::ListAppend {
                seq: rec.element.seq,
                namespace: rec.address.namespace.clone(),
                key: rec.address.key.clone(),
                value: rec.element.value.clone(),
            };
            assert(w == ws[nv + j]);
            assert(w.seq_spec() < v.next_seq);
            match project_fork_current_state_write(w, &current, copied_ids, fresh_lane_state.clone()) {
                Err(e) => {
                    proof {
                        assert(fork_error(ws, plan_target(pv), copied, *fresh_lane_state, nv + j + 1) == Some(
                            e->Storage_0@,
                        ));
                        lemma_fork_error_stays(ws, plan_target(pv), copied, *fresh_lane_state, nv + j + 1, ws.len() as int);
                        assert(fork_plan_spec(v, *options) == Ok::<
                            Option<(Seq<char>, Option<Seq<char>>, Seq<Seq<char>>)>,
                            Seq<char>,
                        >(pv));
                        assert(e matches SessionError::Storage(m) && fork_error(
                            ws,
                            plan_target(pv),
                            copied,
                            *fresh_lane_state,
                            ws.len() as int,
                        ) == Some(m@));
                    }
                    return Err(e);
                },
                Ok(None) => {},
                Ok(Some(pw)) => {
                    assert(pw.seq_spec() == ws[nv + j].seq_spec());
                    dest.apply_one(pw);
                },
            }
            j += 1;
        }
        dest.next_seq = self.next_seq;
        proof {
            lemma_replay_keeps_entries(base, ws, plan_target(pv), copied, *fresh_lane_state, ws.len() as int);
            let d = dest.view_spec();
            let base2 = StoreView {
                entries: d.entries,
                values: Seq::empty(),
                lists: Seq::empty(),
                usage: Seq::empty(),
                message_count: d.message_count,
                next_seq: 1,
            };
            assert(base2 == base);
        }
        Ok(dest)
    }
}

/// A storage error whose message is `prefix` followed by `detail`.
fn storage_error(prefix: &str, detail: &str) -> (r: SessionError)
    ensures
        r matches SessionError::Storage(m) && m@ == prefix@ + detail@,
{
    let mut v: Vec<char> = Vec::new();
    push_str(&mut v, prefix);
    push_str(&mut v, detail);
    SessionError::Storage(string_of(&v))
}

proof fn lemma_find_entry_at<M, U>(es: Seq<Entry<M, U>>, id: Seq<char>, x: int)
    requires
        0 <= x < es.len(),
        es[x].id@ == id,
        forall|j: int| 0 <= j < x ==> (#[trigger] es[j]).id@ != id,
    ensures
        find_entry(es, id) == Some(es[x]),
    decreases x,
{
    if x > 0 {
        assert(es[0].id@ != id);
        lemma_find_entry_at(es.drop_first(), id, x - 1);
    }
}

proof fn lemma_find_entry_none<M, U>(es: Seq<Entry<M, U>>, id: Seq<char>)
    requires
        forall|j: int| 0 <= j < es.len() ==> (#[trigger] es[j]).id@ != id,
    ensures
        find_entry(es, id) is None,
    decreases es.len(),
{
    if es.len() > 0 {
        assert(es[0].id@ != id);
        assert forall|j: int| 0 <= j < es.drop_first().len() implies (#[trigger] es.drop_first()[j]).id@ != id by {
            assert(es.drop_first()[j] == es[j + 1]);
        }
        lemma_find_entry_none(es.drop_first(), id);
    }
}

impl<M, U> InMemoryStorageState<M, U> {
    fn has_usage_id(&self, id: &str) -> (r: bool)
        ensures
            r == usage_ids(self.view_spec()).contains(id@),
    {
        let target = to_string(id);
        let mut i: usize = 0;
        while i < self.usage.len()
            invariant
                i <= self.usage@.len(),
                target@ == id@,
                forall|j: int| 0 <= j < i ==> (#[trigger] self.usage@[j]).id@ != id@,
            decreases self.usage.len() - i,
        {
            if self.usage[i].id == target {
                assert(self.usage@[i as int].id@ == id@);
                return true;
            }
            i += 1;
        }
        false
    }
}

impl<M, U> CommitValidationState for InMemoryStorageState<M, U> {
    open spec fn entry_ids(&self) -> Set<Seq<char>> {
        entry_ids(self.view_spec())
    }

    open spec fn usage_ids(&self) -> Set<Seq<char>> {
        usage_ids(self.view_spec())
    }

    fn has_entry_or_usage_id(&self, id: &str) -> (r: bool) {
        self.has_entry_id(id) || self.has_usage_id(id)
    }

    fn has_entry_id(&self, id: &str) -> (r: bool) {
        let target = to_string(id);
        let mut i: usize = 0;
        while i < self.entries.len()
            invariant
                i <= self.entries@.len(),
                target@ == id@,
                forall|j: int| 0 <= j < i ==> (#[trigger] self.entries@[j]).id@ != id@,
            decreases self.entries.len() - i,
        {
            if self.entries[i].id == target {
                assert(self.entries@[i as int].id@ == id@);
                return true;
            }
            i += 1;
        }
        false
    }
}

} // verus!
