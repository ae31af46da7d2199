//! The session write model and commit validation.
//!
//! A commit is an atomic batch of writes; storage gives each write one
//! increasing seq and the batch one timestamp. Validation enforces the
//! write-once tree before anything is applied: increasing seqs, no entry or
//! usage id used twice, and every parent present.
//!
//! Entry bodies carry a message payload `M` and token accounting `U`, which
//! the storage moves around without reading.

use vstd::prelude::*;
use crate::text::{decimal, decimal_spec, push_all, push_str, string_of};
use crate::session_types::{ENTRY_TYPE_BRANCH_SUMMARY, ENTRY_TYPE_COMPACTION, ENTRY_TYPE_CUSTOM, ENTRY_TYPE_MESSAGE};

verus! {

#[derive(Debug)]
pub enum EntryBody<M, U> {
    Message { message: M, terminate: Option<bool> },
    Compaction {
        summary: String,
        retained_tail: Vec<M>,
        tokens_before: u64,
        details: Option<serde_json::Value>,
        usage: Option<U>,
        from_hook: bool,
    },
    BranchSummary {
        from_id: Option<String>,
        summary: String,
        details: Option<serde_json::Value>,
        usage: Option<U>,
        from_hook: bool,
    },
    Custom { custom_type: String, data: Option<serde_json::Value> },
}

/// One write-once node in the conversation tree.
#[derive(Debug)]
pub struct Entry<M, U> {
    pub id: String,
    pub parent_id: Option<String>,
    pub seq: u64,
    pub timestamp: u64,
    pub body: EntryBody<M, U>,
}

/// The type name of an entry body.
pub open spec fn entry_type_spec<M, U>(body: EntryBody<M, U>) -> Seq<char> {
    match body {
        EntryBody::Message { .. } => ENTRY_TYPE_MESSAGE@,
        EntryBody::Compaction { .. } => ENTRY_TYPE_COMPACTION@,
        EntryBody::BranchSummary { .. } => ENTRY_TYPE_BRANCH_SUMMARY@,
        EntryBody::Custom { .. } => ENTRY_TYPE_CUSTOM@,
    }
}

/// The custom type of a custom entry body.
pub open spec fn custom_type_spec<M, U>(body: EntryBody<M, U>) -> Option<Seq<char>> {
    match body {
        EntryBody::Custom { custom_type, .. } => Some(custom_type@),
        _ => None,
    }
}

impl<M, U> Entry<M, U> {
    pub fn entry_type(&self) -> (r: &'static str)
        ensures
            r@ == entry_type_spec(self.body),
    {
        match &self.body {
            EntryBody::Message { .. } => ENTRY_TYPE_MESSAGE,
            EntryBody::Compaction { .. } => ENTRY_TYPE_COMPACTION,
            EntryBody::BranchSummary { .. } => ENTRY_TYPE_BRANCH_SUMMARY,
            EntryBody::Custom { .. } => ENTRY_TYPE_CUSTOM,
        }
    }

    pub fn custom_type(&self) -> (r: Option<&str>)
        ensures
            match r {
                Some(s) => custom_type_spec(self.body) == Some(s@),
                None => custom_type_spec(self.body) is None,
            },
    {
        match &self.body {
            EntryBody::Custom { custom_type, .. } => Some(custom_type.as_str()),
            _ => None,
        }
    }

    pub fn as_message(&self) -> (r: Option<&M>)
        ensures
            match r {
                Some(m) => self.body matches EntryBody::Message { message, .. } && *m == message,
                None => !(self.body is Message),
            },
    {
        match &self.body {
            EntryBody::Message { message, .. } => Some(message),
            _ => None,
        }
    }
}

/// `b` holds the same body as `a`, its message and usage payloads cloned.
pub open spec fn body_copy<M: Clone, U: Clone>(a: EntryBody<M, U>, b: EntryBody<M, U>) -> bool {
    match a {
        EntryBody::Message { message: m1, terminate: t1 } => b matches EntryBody::Message { message: m2, terminate: t2 }
            && cloned(m1, m2) && t1 == t2,
        EntryBody::Compaction {
            summary: s1,
            retained_tail: r1,
            tokens_before: k1,
            details: d1,
            usage: u1,
            from_hook: h1,
        } => b matches EntryBody::Compaction {
            summary: s2,
            retained_tail: r2,
            tokens_before: k2,
            details: d2,
            usage: u2,
            from_hook: h2,
        } && s1 == s2 && r1@.len() == r2@.len() && (forall|i: int| 0 <= i < r1@.len() ==> cloned(#[trigger] r1@[i], r2@[i]))
            && k1 == k2 && d1 == d2 && opt_cloned(u1, u2) && h1 == h2,
        EntryBody::BranchSummary { from_id: f1, summary: s1, details: d1, usage: u1, from_hook: h1 } => b matches EntryBody::BranchSummary {
            from_id: f2,
            summary: s2,
            details: d2,
            usage: u2,
            from_hook: h2,
        } && f1 == f2 && s1 == s2 && d1 == d2 && opt_cloned(u1, u2) && h1 == h2,
        EntryBody::Custom { custom_type: c1, data: d1 } => b matches EntryBody::Custom { custom_type: c2, data: d2 } && c1
            == c2 && d1 == d2,
    }
}

pub open spec fn opt_cloned<U: Clone>(a: Option<U>, b: Option<U>) -> bool {
    match a {
        Some(x) => b matches Some(y) && cloned(x, y),
        None => b is None,
    }
}

/// `b` is a copy of entry `a`.
pub open spec fn entry_copy<M: Clone, U: Clone>(a: Entry<M, U>, b: Entry<M, U>) -> bool {
    &&& a.id == b.id
    &&& a.parent_id == b.parent_id
    &&& a.seq == b.seq
    &&& a.timestamp == b.timestamp
    &&& body_copy(a.body, b.body)
}

fn copy_opt_string(o: &Option<String>) -> (r: Option<String>)
    ensures
        r == *o,
{
    match o {
        Some(s) => Some(s.clone()),
        None => None,
    }
}

fn copy_opt_json(o: &Option<serde_json::Value>) -> (r: Option<serde_json::Value>)
    ensures
        r == *o,
{
    match o {
        Some(v) => Some(v.clone()),
        None => None,
    }
}

impl<M: Clone, U: Clone> Entry<M, U> {
    /// A copy of the entry.
    pub fn copy(&self) -> (r: Entry<M, U>)
        ensures
            entry_copy(*self, r),
    {
        let body = match &self.body {
            EntryBody::Message { message, terminate } => EntryBody::Message { message: message.clone(), terminate: *terminate },
            EntryBody::Compaction { summary, retained_tail, tokens_before, details, usage, from_hook } => EntryBody::Compaction {
                summary: summary.clone(),
                retained_tail: retained_tail.clone(),
                tokens_before: *tokens_before,
                details: copy_opt_json(details),
                usage: usage.clone(),
                from_hook: *from_hook,
            },
            EntryBody::BranchSummary { from_id, summary, details, usage, from_hook } => EntryBody::BranchSummary {
                from_id: copy_opt_string(from_id),
                summary: summary.clone(),
                details: copy_opt_json(details),
                usage: usage.clone(),
                from_hook: *from_hook,
            },
            EntryBody::Custom { custom_type, data } => EntryBody::Custom {
                custom_type: custom_type.clone(),
                data: copy_opt_json(data),
            },
        };
        Entry {
            id: self.id.clone(),
            parent_id: copy_opt_string(&self.parent_id),
            seq: self.seq,
            timestamp: self.timestamp,
            body,
        }
    }
}

/// A row of the usage ledger.
#[derive(Debug)]
pub struct UsageRow<U> {
    pub id: String,
    pub seq: u64,
    pub usage: U,
    pub entry_id: Option<String>,
    pub adjustment: bool,
    pub details: Option<serde_json::Value>,
}

/// An entry before storage gives it a seq and a timestamp.
#[derive(Debug)]
pub struct NewEntry<M, U> {
    pub id: String,
    pub parent_id: Option<String>,
    pub body: EntryBody<M, U>,
}

/// A usage row before storage gives it a seq.
#[derive(Debug)]
pub struct UsageRowNoSeq<U> {
    pub id: String,
    pub usage: U,
    pub entry_id: Option<String>,
    pub adjustment: bool,
    pub details: Option<serde_json::Value>,
}

#[derive(Debug)]
pub enum ValueWrite {
    Assign { namespace: String, key: String, value: serde_json::Value },
    Delete { namespace: String, key: String },
}

#[derive(Debug)]
pub enum ListWrite {
    Append { namespace: String, key: String, value: serde_json::Value },
    Delete { namespace: String, key: String },
}

/// A write handed to a transaction.
#[derive(Debug)]
pub enum Write<M, U> {
    Entry(NewEntry<M, U>),
    Usage(UsageRowNoSeq<U>),
    Value(ValueWrite),
    List(ListWrite),
}

pub fn insert_entry<M, U>(entry: NewEntry<M, U>) -> (r: Write<M, U>)
    ensures
        r == Write::Entry(entry),
{
    Write::Entry(entry)
}

pub fn insert_usage<M, U>(row: UsageRowNoSeq<U>) -> (r: Write<M, U>)
    ensures
        r == Write::<M, U>::Usage(row),
{
    Write::Usage(row)
}

/// A write with its seq (and, for an entry, its timestamp), as applied.
#[derive(Debug)]
pub enum CommittedWrite<M, U> {
    Entry { entry: Entry<M, U> },
    Usage { row: UsageRow<U> },
    ValueSet { seq: u64, namespace: String, key: String, value: serde_json::Value },
    ValueDelete { seq: u64, namespace: String, key: String },
    ListAppend { seq: u64, namespace: String, key: String, value: serde_json::Value },
    ListDelete { seq: u64, namespace: String, key: String },
}

impl<M, U> CommittedWrite<M, U> {
    pub open spec fn seq_spec(self) -> u64 {
        match self {
            CommittedWrite::Entry { entry } => entry.seq,
            CommittedWrite::Usage { row } => row.seq,
            CommittedWrite::ValueSet { seq, .. } => seq,
            CommittedWrite::ValueDelete { seq, .. } => seq,
            CommittedWrite::ListAppend { seq, .. } => seq,
            CommittedWrite::ListDelete { seq, .. } => seq,
        }
    }

    pub fn seq(&self) -> (r: u64)
        ensures
            r == self.seq_spec(),
    {
        match self {
            CommittedWrite::Entry { entry } => entry.seq,
            CommittedWrite::Usage { row } => row.seq,
            CommittedWrite::ValueSet { seq, .. } => *seq,
            CommittedWrite::ValueDelete { seq, .. } => *seq,
            CommittedWrite::ListAppend { seq, .. } => *seq,
            CommittedWrite::ListDelete { seq, .. } => *seq,
        }
    }
}

#[derive(Debug)]
pub struct PreparedCommit<M, U> {
    pub writes: Vec<CommittedWrite<M, U>>,
    pub first_seq: u64,
    pub seqs: Vec<u64>,
    pub timestamp: u64,
}

/// A write as committed at `seq` and `timestamp`: the same content, with
/// the seq (and an entry's timestamp) filled in.
pub open spec fn committed_spec<M, U>(w: Write<M, U>, seq: u64, timestamp: u64) -> CommittedWrite<M, U> {
    match w {
        Write::Entry(e) => CommittedWrite::<M, U>::Entry {
            entry: Entry { id: e.id, parent_id: e.parent_id, seq, timestamp, body: e.body },
        },
        Write::Usage(r) => CommittedWrite::<M, U>::Usage {
            row: UsageRow {
                id: r.id,
                seq,
                usage: r.usage,
                entry_id: r.entry_id,
                adjustment: r.adjustment,
                details: r.details,
            },
        },
        Write::Value(ValueWrite::Assign { namespace, key, value }) => CommittedWrite::<M, U>::ValueSet {
            seq,
            namespace,
            key,
            value,
        },
        Write::Value(ValueWrite::Delete { namespace, key }) => CommittedWrite::<M, U>::ValueDelete {
            seq,
            namespace,
            key,
        },
        Write::List(ListWrite::Append { namespace, key, value }) => CommittedWrite::<M, U>::ListAppend {
            seq,
            namespace,
            key,
            value,
        },
        Write::List(ListWrite::Delete { namespace, key }) => CommittedWrite::<M, U>::ListDelete {
            seq,
            namespace,
            key,
        },
    }
}

pub open spec fn committed_as<M, U>(w: Write<M, U>, seq: u64, timestamp: u64, c: CommittedWrite<M, U>) -> bool {
    c == committed_spec(w, seq, timestamp)
}

/// The writes of a batch committed from `first_seq` on at `timestamp`.
pub open spec fn prepared_writes<M, U>(writes: Seq<Write<M, U>>, first_seq: u64, timestamp: u64) -> Seq<
    CommittedWrite<M, U>,
> {
    Seq::new(writes.len(), |i: int| committed_spec(writes[i], (first_seq + i) as u64, timestamp))
}

fn commit_write<M, U>(write: Write<M, U>, seq: u64, timestamp: u64) -> (r: CommittedWrite<M, U>)
    ensures
        committed_as(write, seq, timestamp, r),
{
    match write {
        Write::Entry(e) => CommittedWrite::Entry {
            entry: Entry { id: e.id, parent_id: e.parent_id, seq, timestamp, body: e.body },
        },
        Write::Usage(r) => CommittedWrite::Usage {
            row: UsageRow {
                id: r.id,
                seq,
                usage: r.usage,
                entry_id: r.entry_id,
                adjustment: r.adjustment,
                details: r.details,
            },
        },
        Write::Value(ValueWrite::Assign { namespace, key, value }) => CommittedWrite::ValueSet {
            seq,
            namespace,
            key,
            value,
        },
        Write::Value(ValueWrite::Delete { namespace, key }) => CommittedWrite::ValueDelete { seq, namespace, key },
        Write::List(ListWrite::Append { namespace, key, value }) => CommittedWrite::ListAppend {
            seq,
            namespace,
            key,
            value,
        },
        Write::List(ListWrite::Delete { namespace, key }) => CommittedWrite::ListDelete { seq, namespace, key },
    }
}

/// Give the writes consecutive seqs from `first_seq` and one timestamp.
pub fn prepare_storage_commit<M, U>(writes: Vec<Write<M, U>>, first_seq: u64, timestamp: u64) -> (r: PreparedCommit<
    M,
    U,
>)
    requires
        first_seq + writes@.len() <= u64::MAX + 1,
    ensures
        r.first_seq == first_seq,
        r.timestamp == timestamp,
        r.writes@.len() == writes@.len(),
        r.seqs@.len() == writes@.len(),
        r.writes@ == prepared_writes(writes@, first_seq, timestamp),
        forall|i: int|
            0 <= i < writes@.len() ==> #[trigger] committed_as(writes@[i], (first_seq + i) as u64, timestamp, r.writes@[i])
                && r.seqs@[i] == first_seq + i,
{
    let ghost ws = writes@;
    let n = writes.len();
    let mut committed: Vec<CommittedWrite<M, U>> = Vec::new();
    let mut seqs: Vec<u64> = Vec::new();
    let mut index: u64 = 0;
    for w in it: writes
        invariant
            it.seq() == ws,
            n == ws.len(),
            first_seq + ws.len() <= u64::MAX + 1,
            index == it.index(),
            committed@.len() == index,
            seqs@.len() == index,
            forall|i: int|
                0 <= i < index ==> #[trigger] committed_as(ws[i], (first_seq + i) as u64, timestamp, committed@[i])
                    && seqs@[i] == first_seq + i,
    {
        assert(index < n);
        let seq = first_seq + index;
        let c = commit_write(w, seq, timestamp);
        committed.push(c);
        seqs.push(seq);
        index = index + 1;
    }
    assert forall|i: int| 0 <= i < ws.len() implies committed@[i] == prepared_writes(ws, first_seq, timestamp)[i] by {
        assert(committed_as(ws[i], (first_seq + i) as u64, timestamp, committed@[i]));
    }
    assert(committed@ =~= prepared_writes(ws, first_seq, timestamp));
    PreparedCommit { writes: committed, first_seq, seqs, timestamp }
}

// ---------------------------------------------------------------------------
// Validation
// ---------------------------------------------------------------------------

/// What committed state a new transaction is checked against.
pub trait CommitValidationState {
    spec fn entry_ids(&self) -> Set<Seq<char>>;

    spec fn usage_ids(&self) -> Set<Seq<char>>;

    fn has_entry_or_usage_id(&self, id: &str) -> (r: bool)
        ensures
            r == (self.entry_ids().contains(id@) || self.usage_ids().contains(id@)),
    ;

    fn has_entry_id(&self, id: &str) -> (r: bool)
        ensures
            r == self.entry_ids().contains(id@),
    ;
}

/// The id, parent and kind of an entry or usage write.
pub open spec fn write_ids<M, U>(w: CommittedWrite<M, U>) -> Option<(Seq<char>, Option<Seq<char>>, bool)> {
    match w {
        CommittedWrite::Entry { entry } => Some(
            (
                entry.id@,
                match entry.parent_id {
                    Some(p) => Some(p@),
                    None => None,
                },
                true,
            ),
        ),
        CommittedWrite::Usage { row } => Some((row.id@, None, false)),
        _ => None,
    }
}

/// Checking the first `i` writes: the last seq, the ids used and the
/// entry ids used by the transaction so far, or the first error.
pub open spec fn validate_upto<M, U>(
    writes: Seq<CommittedWrite<M, U>>,
    first_seq: u64,
    entry_ids: Set<Seq<char>>,
    usage_ids: Set<Seq<char>>,
    i: int,
) -> Result<(int, Set<Seq<char>>, Set<Seq<char>>), Seq<char>>
    decreases i,
{
    if i <= 0 {
        Ok((first_seq - 1, Set::empty(), Set::empty()))
    } else {
        match validate_upto(writes, first_seq, entry_ids, usage_ids, i - 1) {
            Err(e) => Err(e),
            Ok(st) => {
                let seq = writes[i - 1].seq_spec();
                if seq <= st.0 {
                    Err("Non-monotonic storage sequence: "@ + decimal_spec(seq as nat))
                } else {
                    match write_ids(writes[i - 1]) {
                        None => Ok((seq as int, st.1, st.2)),
                        Some(ids) => if entry_ids.contains(ids.0) || usage_ids.contains(ids.0) || st.1.contains(
                            ids.0,
                        ) {
                            Err("Duplicate entry or usage id: "@ + ids.0)
                        } else if ids.1 matches Some(p) && !entry_ids.contains(p) && !st.2.contains(p) {
                            Err("Missing parent entry: "@ + ids.1.unwrap())
                        } else {
                            Ok(
                                (
                                    seq as int,
                                    st.1.insert(ids.0),
                                    if ids.2 {
                                        st.2.insert(ids.0)
                                    } else {
                                        st.2
                                    },
                                ),
                            )
                        },
                    }
                }
            },
        }
    }
}

pub open spec fn validate_spec<M, U>(
    writes: Seq<CommittedWrite<M, U>>,
    first_seq: u64,
    entry_ids: Set<Seq<char>>,
    usage_ids: Set<Seq<char>>,
) -> Result<(), Seq<char>> {
    match validate_upto(writes, first_seq, entry_ids, usage_ids, writes.len() as int) {
        Ok(_) => Ok(()),
        Err(e) => Err(e),
    }
}

fn message_with(prefix: &str, tail: &str) -> (r: String)
    ensures
        r@ == prefix@ + tail@,
{
    let mut v: Vec<char> = Vec::new();
    push_str(&mut v, prefix);
    push_str(&mut v, tail);
    string_of(&v)
}

pub(crate) proof fn lemma_validate_err_stays<M, U>(
    writes: Seq<CommittedWrite<M, U>>,
    first_seq: u64,
    entry_ids: Set<Seq<char>>,
    usage_ids: Set<Seq<char>>,
    i: int,
    k: int,
)
    requires
        0 <= i <= k,
        validate_upto(writes, first_seq, entry_ids, usage_ids, i) is Err,
    ensures
        validate_upto(writes, first_seq, entry_ids, usage_ids, k) == validate_upto(
            writes,
            first_seq,
            entry_ids,
            usage_ids,
            i,
        ),
    decreases k - i,
{
    if i < k {
        lemma_validate_err_stays(writes, first_seq, entry_ids, usage_ids, i, k - 1);
    }
}

/// Check a transaction against committed state: seqs increase from
/// `first_seq`, entry and usage ids are new, and parents exist (committed
/// or earlier in the transaction). Reports the first violation.
pub fn validate_committed_writes<M, U, S: CommitValidationState>(
    writes: &[CommittedWrite<M, U>],
    first_seq: u64,
    state: &S,
) -> (r: Result<(), String>)
    requires
        first_seq >= 1,
    ensures
        match r {
            Ok(()) => validate_spec(writes@, first_seq, state.entry_ids(), state.usage_ids()) is Ok,
            Err(e) => validate_spec(writes@, first_seq, state.entry_ids(), state.usage_ids()) == Err::<(), Seq<char>>(
                e@,
            ),
        },
{
    let ghost eids = state.entry_ids();
    let ghost uids = state.usage_ids();
    let mut previous_seq: u64 = first_seq - 1;
    let mut transaction_ids: Vec<String> = Vec::new();
    let mut transaction_entry_ids: Vec<String> = Vec::new();
    let mut i: usize = 0;
    assert(crate::types::strs(transaction_ids@).to_set() =~= Set::<Seq<char>>::empty());
    assert(crate::types::strs(transaction_entry_ids@).to_set() =~= Set::<Seq<char>>::empty());
    while i < writes.len()
        invariant
            i <= writes@.len(),
            eids == state.entry_ids(),
            uids == state.usage_ids(),
            validate_upto(writes@, first_seq, eids, uids, i as int) == Ok::<
                (int, Set<Seq<char>>, Set<Seq<char>>),
                Seq<char>,
            >(
                (
                    previous_seq as int,
                    crate::types::strs(transaction_ids@).to_set(),
                    crate::types::strs(transaction_entry_ids@).to_set(),
                ),
            ),
        decreases writes.len() - i,
    {
        let write = &writes[i];
        let seq = write.seq();
        if seq <= previous_seq {
            let mut m: Vec<char> = Vec::new();
            push_str(&mut m, "Non-monotonic storage sequence: ");
            push_all(&mut m, &decimal(seq));
            proof {
                lemma_validate_err_stays(writes@, first_seq, eids, uids, i as int + 1, writes@.len() as int);
            }
            return Err(string_of(&m));
        }
        previous_seq = seq;
        let (id, parent_id, is_entry) = match write {
            CommittedWrite::Entry { entry } => (&entry.id, &entry.parent_id, true),
            CommittedWrite::Usage { row } => (&row.id, &None, false),
            _ => {
                i += 1;
                continue;
            },
        };
        let ghost t0 = crate::types::strs(transaction_ids@);
        let ghost e0 = crate::types::strs(transaction_entry_ids@);
        if state.has_entry_or_usage_id(id.as_str()) || crate::transform::contains_string(&transaction_ids, id) {
            proof {
                lemma_validate_err_stays(writes@, first_seq, eids, uids, i as int + 1, writes@.len() as int);
            }
            return Err(message_with("Duplicate entry or usage id: ", id.as_str()));
        }
        match parent_id {
            Some(parent) => {
                if !state.has_entry_id(parent.as_str()) && !crate::transform::contains_string(
                    &transaction_entry_ids,
                    parent,
                ) {
                    proof {
                        lemma_validate_err_stays(writes@, first_seq, eids, uids, i as int + 1, writes@.len() as int);
                    }
                    return Err(message_with("Missing parent entry: ", parent.as_str()));
                }
            },
            None => {},
        }
        transaction_ids.push(id.clone());
        proof {
            crate::transform::lemma_push_to_set_pub(t0, id@);
            assert(crate::types::strs(transaction_ids@) =~= t0.push(id@));
        }
        if is_entry {
            transaction_entry_ids.push(id.clone());
            proof {
                crate::transform::lemma_push_to_set_pub(e0, id@);
                assert(crate::types::strs(transaction_entry_ids@) =~= e0.push(id@));
            }
        }
        i += 1;
    }
    Ok(())
}

} // verus!
