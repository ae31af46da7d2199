//! What storage promises across calls: a read gives back the last write to
//! its address, a list reads back in append order, a commit hands out
//! consecutive seqs, and a batch that reuses an id is refused.

use vstd::prelude::*;
use crate::assoc::{assoc_get, lemma_get_insert, lemma_get_push, sorted_insert, sorted_remove};
use crate::commit::{
    committed_spec, lemma_validate_err_stays, prepared_writes, validate_spec, validate_upto, write_ids, CommittedWrite,
    Write,
};
use crate::fork_policy::{live_target, project_spec};
use crate::storage::{
    apply_write_spec, apply_writes_upto, drop_list, entry_ids, fork_matches, list_picked, live_writes, physical,
    plan_copied, plan_target, replay_fork, usage_ids, value_at, ListElement, StoreView, StoredValue,
};
use crate::text::lex_lt;
use crate::values::{address_error, Addr};

verus! {

proof fn lemma_get_remove<V>(s: Seq<(Seq<char>, V)>, k: Seq<char>, k2: Seq<char>)
    ensures
        assoc_get(sorted_remove(s, k), k2) == if k2 == k {
            None
        } else {
            assoc_get(s, k2)
        },
    decreases s.len(),
{
    if s.len() > 0 {
        let d = s.drop_last();
        assert(s =~= d.push(s.last()));
        lemma_get_remove(d, k, k2);
        lemma_get_push(d, s.last(), k2);
        if s.last().0 != k {
            lemma_get_push(sorted_remove(d, k), s.last(), k2);
        }
    }
}

/// Keys made from namespaces without NUL are equal only for equal parts.
proof fn lemma_physical_injective(n1: Seq<char>, k1: Seq<char>, n2: Seq<char>, k2: Seq<char>)
    requires
        !n1.contains('\0'),
        !n2.contains('\0'),
        physical(n1, k1) == physical(n2, k2),
    ensures
        n1 == n2,
        k1 == k2,
{
    let p = physical(n1, k1);
    if n1.len() < n2.len() {
        assert(p[n1.len() as int] == '\0');
        assert(physical(n2, k2)[n1.len() as int] == n2[n1.len() as int]);
        assert(n2.contains(n2[n1.len() as int]));
    } else if n2.len() < n1.len() {
        assert(physical(n2, k2)[n2.len() as int] == '\0');
        assert(p[n2.len() as int] == n1[n2.len() as int]);
        assert(n1.contains(n1[n2.len() as int]));
    } else {
        assert(n1 =~= p.take(n1.len() as int));
        assert(n2 =~= physical(n2, k2).take(n2.len() as int));
        assert(k1 =~= p.skip(n1.len() as int + 1));
        assert(k2 =~= physical(n2, k2).skip(n2.len() as int + 1));
    }
}

/// The address a value or list write goes to, if it has one.
pub open spec fn write_address<M, U>(w: CommittedWrite<M, U>) -> Option<(Seq<char>, Seq<char>)> {
    match w {
        CommittedWrite::ValueSet { namespace, key, .. } => Some((namespace@, key@)),
        CommittedWrite::ValueDelete { namespace, key, .. } => Some((namespace@, key@)),
        CommittedWrite::ListAppend { namespace, key, .. } => Some((namespace@, key@)),
        CommittedWrite::ListDelete { namespace, key, .. } => Some((namespace@, key@)),
        _ => None,
    }
}

/// The address is one a value or list write accepts.
pub open spec fn address_ok(namespace: Seq<char>, key: Seq<char>) -> bool {
    address_error(namespace, key) is None
}

/// Reading a value after a write: a set gives back the value set, with its
/// seq; a delete gives nothing; a write anywhere else leaves the address as
/// it was.
pub proof fn lemma_value_read_after_write<M, U>(v: StoreView<M, U>, w: CommittedWrite<M, U>, at: Addr)
    requires
        address_ok(at.namespace@, at.key@),
        write_address(w) matches Some(a) ==> address_ok(a.0, a.1),
    ensures
        value_at(apply_write_spec(v, w), at) == match w {
            CommittedWrite::ValueSet { seq, namespace, key, value } => if namespace@ == at.namespace@ && key@
                == at.key@ {
                Some(StoredValue { address: Addr { namespace, key }, value, seq })
            } else {
                value_at(v, at)
            },
            CommittedWrite::ValueDelete { namespace, key, .. } => if namespace@ == at.namespace@ && key@ == at.key@ {
                None
            } else {
                value_at(v, at)
            },
            _ => value_at(v, at),
        },
{
    let k2 = physical(at.namespace@, at.key@);
    match w {
        CommittedWrite::ValueSet { seq, namespace, key, value } => {
            let k = physical(namespace@, key@);
            lemma_get_insert(v.values, k, StoredValue { address: Addr { namespace, key }, value, seq }, k2);
            if k == k2 {
                lemma_physical_injective(namespace@, key@, at.namespace@, at.key@);
            }
        },
        CommittedWrite::ValueDelete { namespace, key, .. } => {
            let k = physical(namespace@, key@);
            lemma_get_remove(v.values, k, k2);
            if k == k2 {
                lemma_physical_injective(namespace@, key@, at.namespace@, at.key@);
            }
        },
        _ => {},
    }
}

spec fn on_list(k: Seq<char>) -> spec_fn((Seq<char>, Addr, ListElement)) -> bool {
    |t: (Seq<char>, Addr, ListElement)| t.0 == k && crate::storage::past_cursor(t.2.seq, None, false)
}

proof fn lemma_filter_drop_list(s: Seq<(Seq<char>, Addr, ListElement)>, k: Seq<char>, k2: Seq<char>)
    ensures
        drop_list(s, k).filter(on_list(k2)) == if k2 == k {
            Seq::<(Seq<char>, Addr, ListElement)>::empty()
        } else {
            s.filter(on_list(k2))
        },
    decreases s.len(),
{
    reveal(Seq::filter);
    if s.len() > 0 {
        lemma_filter_drop_list(s.drop_last(), k, k2);
        let d = drop_list(s.drop_last(), k);
        if s.last().0 != k {
            assert(d.push(s.last()).drop_last() =~= d);
        }
    }
}

/// Reading a list after a write, from the start: an append adds its element
/// at the end; a delete empties the list; a write anywhere else leaves the
/// list as it was.
pub proof fn lemma_list_append_order<M, U>(v: StoreView<M, U>, w: CommittedWrite<M, U>, at: Addr)
    requires
        address_ok(at.namespace@, at.key@),
        write_address(w) matches Some(a) ==> address_ok(a.0, a.1),
    ensures
        list_picked(apply_write_spec(v, w), at, None, false) == match w {
            CommittedWrite::ListAppend { seq, namespace, key, value } => if namespace@ == at.namespace@ && key@
                == at.key@ {
                list_picked(v, at, None, false).push(ListElement { seq, value })
            } else {
                list_picked(v, at, None, false)
            },
            CommittedWrite::ListDelete { namespace, key, .. } => if namespace@ == at.namespace@ && key@ == at.key@ {
                Seq::empty()
            } else {
                list_picked(v, at, None, false)
            },
            _ => list_picked(v, at, None, false),
        },
{
    let k2 = physical(at.namespace@, at.key@);
    let f = |t: (Seq<char>, Addr, ListElement)| t.2;
    assert(on_list(k2) == (|t: (Seq<char>, Addr, ListElement)|
        t.0 == physical(at.namespace@, at.key@) && crate::storage::past_cursor(t.2.seq, None, false)));
    match w {
        CommittedWrite::ListAppend { seq, namespace, key, value } => {
            let k = physical(namespace@, key@);
            let t = (k, Addr { namespace, key }, ListElement { seq, value });
            assert(v.lists.push(t).drop_last() =~= v.lists);
            assert(v.lists.push(t).filter(on_list(k2)) == if k == k2 {
                v.lists.filter(on_list(k2)).push(t)
            } else {
                v.lists.filter(on_list(k2))
            }) by {
                reveal(Seq::filter);
            }
            if k == k2 {
                lemma_physical_injective(namespace@, key@, at.namespace@, at.key@);
                assert(v.lists.filter(on_list(k2)).push(t).map_values(f) =~= v.lists.filter(on_list(k2)).map_values(
                    f,
                ).push(ListElement { seq, value }));
            }
        },
        CommittedWrite::ListDelete { namespace, key, .. } => {
            let k = physical(namespace@, key@);
            lemma_filter_drop_list(v.lists, k, k2);
            if k == k2 {
                lemma_physical_injective(namespace@, key@, at.namespace@, at.key@);
                assert(Seq::<(Seq<char>, Addr, ListElement)>::empty().map_values(f) =~= Seq::<ListElement>::empty());
            }
        },
        _ => {},
    }
}

proof fn lemma_seq_advance<M, U>(v: StoreView<M, U>, writes: Seq<Write<M, U>>, timestamp: u64, k: int)
    requires
        0 <= k <= writes.len(),
        v.next_seq + writes.len() <= u64::MAX + 1,
        0 <= v.next_seq,
    ensures
        apply_writes_upto(v, prepared_writes(writes, v.next_seq as u64, timestamp), k).next_seq == v.next_seq + k,
    decreases k,
{
    if k > 0 {
        lemma_seq_advance(v, writes, timestamp, k - 1);
        let c = committed_spec(writes[k - 1], (v.next_seq + k - 1) as u64, timestamp);
        assert(c.seq_spec() == v.next_seq + k - 1);
    }
}

/// A commit of `n` writes leaves the next seq `n` further on: each write
/// took one seq, in order.
pub proof fn lemma_commit_advances_seq<M, U>(v: StoreView<M, U>, writes: Seq<Write<M, U>>, timestamp: u64)
    requires
        1 <= v.next_seq,
        v.next_seq + writes.len() <= u64::MAX + 1,
    ensures
        apply_writes_upto(v, prepared_writes(writes, v.next_seq as u64, timestamp), writes.len() as int).next_seq
            == v.next_seq + writes.len(),
        forall|i: int|
            0 <= i < writes.len() ==> (#[trigger] prepared_writes(writes, v.next_seq as u64, timestamp)[i]).seq_spec()
                == v.next_seq + i,
{
    lemma_seq_advance(v, writes, timestamp, writes.len() as int);
    assert forall|i: int| 0 <= i < writes.len() implies (#[trigger] prepared_writes(
        writes,
        v.next_seq as u64,
        timestamp,
    )[i]).seq_spec() == v.next_seq + i by {
        let c = committed_spec(writes[i], (v.next_seq + i) as u64, timestamp);
        assert(c.seq_spec() == v.next_seq + i);
    }
}

/// The id an entry or usage write introduces.
pub open spec fn new_id<M, U>(w: Write<M, U>) -> Option<Seq<char>> {
    match w {
        Write::Entry(e) => Some(e.id@),
        Write::Usage(r) => Some(r.id@),
        _ => None,
    }
}

/// A batch that brings an entry or usage id the state already has is
/// refused.
pub proof fn lemma_duplicate_id_refused<M, U>(v: StoreView<M, U>, writes: Seq<Write<M, U>>, timestamp: u64, i: int)
    requires
        1 <= v.next_seq,
        v.next_seq + writes.len() <= u64::MAX + 1,
        0 <= i < writes.len(),
        new_id(writes[i]) matches Some(id) && (entry_ids(v).contains(id) || usage_ids(v).contains(id)),
    ensures
        validate_spec(prepared_writes(writes, v.next_seq as u64, timestamp), v.next_seq as u64, entry_ids(v), usage_ids(v))
            is Err,
{
    let first = v.next_seq as u64;
    let ws = prepared_writes(writes, first, timestamp);
    let e = entry_ids(v);
    let u = usage_ids(v);
    let c = committed_spec(writes[i], (first + i) as u64, timestamp);
    assert(ws[i] == c);
    assert(write_ids(c) matches Some(ids) && ids.0 == new_id(writes[i])->Some_0);
    assert(validate_upto(ws, first, e, u, i + 1) is Err);
    lemma_validate_err_stays(ws, first, e, u, i + 1, ws.len() as int);
}

/// Operation, pending-write and result state: what a fork never keeps.
pub open spec fn operation_namespace(ns: Seq<char>) -> bool {
    ns == "pi.result"@ || "pi.op."@.is_prefix_of(ns) || "pi.pending."@.is_prefix_of(ns)
}

proof fn lemma_sorted_insert_all<V>(s: Seq<(Seq<char>, V)>, k: Seq<char>, v: V, p: spec_fn(V) -> bool)
    requires
        forall|i: int| 0 <= i < s.len() ==> p(#[trigger] s[i].1),
        p(v),
    ensures
        forall|i: int| 0 <= i < sorted_insert(s, k, v).len() ==> p(#[trigger] sorted_insert(s, k, v)[i].1),
    decreases s.len(),
{
    if s.len() > 0 && s[0].0 != k && !lex_lt(k, s[0].0) {
        assert forall|i: int| 0 <= i < s.drop_first().len() implies p(#[trigger] s.drop_first()[i].1) by {
            assert(s.drop_first()[i] == s[i + 1]);
        }
        lemma_sorted_insert_all(s.drop_first(), k, v, p);
        let t = sorted_insert(s.drop_first(), k, v);
        assert forall|i: int| 0 <= i < (seq![s[0]] + t).len() implies p(#[trigger] (seq![s[0]] + t)[i].1) by {
            if i > 0 {
                assert((seq![s[0]] + t)[i] == t[i - 1]);
            }
        }
    } else if s.len() > 0 && s[0].0 != k {
        assert forall|i: int| 0 <= i < (seq![(k, v)] + s).len() implies p(#[trigger] (seq![(k, v)] + s)[i].1) by {
            if i > 0 {
                assert((seq![(k, v)] + s)[i] == s[i - 1]);
            }
        }
    } else if s.len() > 0 {
        assert forall|i: int| 0 <= i < s.update(0, (k, v)).len() implies p(#[trigger] s.update(0, (k, v))[i].1) by {
            if i > 0 {
                assert(s.update(0, (k, v))[i] == s[i]);
            }
        }
    }
}

spec fn no_operation_state<M, U>(v: StoreView<M, U>) -> bool {
    &&& forall|i: int| 0 <= i < v.values.len() ==> !operation_namespace(#[trigger] v.values[i].1.address.namespace@)
    &&& forall|i: int| 0 <= i < v.lists.len() ==> !operation_namespace(#[trigger] v.lists[i].1.namespace@)
}

proof fn lemma_replay_no_operation_state<M, U>(
    base: StoreView<M, U>,
    ws: Seq<CommittedWrite<M, U>>,
    plan: Option<(Seq<char>, Option<Seq<char>>)>,
    copied: Option<Seq<Seq<char>>>,
    fresh: serde_json::Value,
    k: int,
)
    requires
        no_operation_state(base),
    ensures
        no_operation_state(replay_fork(base, ws, plan, copied, fresh, k)),
    decreases k,
{
    if k > 0 {
        lemma_replay_no_operation_state(base, ws, plan, copied, fresh, k - 1);
        let prev = replay_fork(base, ws, plan, copied, fresh, k - 1);
        match project_spec(ws[k - 1], plan, copied, fresh) {
            Ok(Some(w)) => {
                let ns = live_target(ws[k - 1])->Some_0.0;
                reveal_strlit("pi.result");
                reveal_strlit("pi.op.");
                reveal_strlit("pi.pending.");
                reveal_strlit("pi.session.name");
                reveal_strlit("pi.entry.label");
                reveal_strlit("pi.branch.tip");
                reveal_strlit("pi.lane.config");
                reveal_strlit("pi.lane.state");
                assert(!operation_namespace(ns)) by {
                    if ns == "pi.session.name"@ || ns == "pi.entry.label"@ || ns == "pi.branch.tip"@ || ns
                        == "pi.lane.config"@ || ns == "pi.lane.state"@ {
                        assert(ns[3] != "pi.op."@[3] && ns[3] != "pi.pending."@[3] && ns[3] != "pi.result"@[3]);
                    }
                }
                assert(live_target(w) matches Some(t) && t.0 == ns);
                match w {
                    CommittedWrite::ValueSet { seq, namespace, key, value } => {
                        let cell = StoredValue { address: Addr { namespace, key }, value, seq };
                        let p = |c: StoredValue| !operation_namespace(c.address.namespace@);
                        assert forall|i: int| 0 <= i < prev.values.len() implies p(#[trigger] prev.values[i].1) by {}
                        lemma_sorted_insert_all(prev.values, physical(namespace@, key@), cell, p);
                        let n = apply_write_spec(prev, w);
                        assert forall|i: int| 0 <= i < n.values.len() implies !operation_namespace(
                            #[trigger] n.values[i].1.address.namespace@,
                        ) by {
                            assert(p(n.values[i].1));
                        }
                    },
                    CommittedWrite::ListAppend { seq, namespace, key, value } => {
                        let n = apply_write_spec(prev, w);
                        assert forall|i: int| 0 <= i < n.lists.len() implies !operation_namespace(
                            #[trigger] n.lists[i].1.namespace@,
                        ) by {
                            if i < prev.lists.len() {
                                assert(n.lists[i] == prev.lists[i]);
                                assert(!operation_namespace(prev.lists[i].1.namespace@));
                            } else {
                                assert(n.lists[i].1 == Addr { namespace, key });
                                assert(namespace@ == ns);
                            }
                        }
                    },
                    _ => {},
                }
            },
            _ => {},
        }
    }
}

/// A fork keeps no operation, pending-write or result state, and no usage
/// ledger.
pub proof fn lemma_fork_drops_operation_state<M: Clone, U: Clone>(
    v: StoreView<M, U>,
    plan: Option<(Seq<char>, Option<Seq<char>>, Seq<Seq<char>>)>,
    fresh: serde_json::Value,
    d: StoreView<M, U>,
)
    requires
        fork_matches(v, plan, fresh, d),
    ensures
        d.usage.len() == 0,
        forall|i: int| 0 <= i < d.values.len() ==> !operation_namespace(#[trigger] d.values[i].1.address.namespace@),
        forall|i: int| 0 <= i < d.lists.len() ==> !operation_namespace(#[trigger] d.lists[i].1.namespace@),
{
    let copied = plan_copied(plan);
    let ws = live_writes(v);
    let base = StoreView {
        entries: d.entries,
        values: Seq::empty(),
        lists: Seq::empty(),
        usage: Seq::empty(),
        message_count: d.message_count,
        next_seq: 1,
    };
    lemma_replay_no_operation_state(base, ws, plan_target(plan), copied, fresh, ws.len() as int);
}

} // verus!
