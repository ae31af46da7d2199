use zwork_sidecar::commit::{EntryBody, ListWrite, NewEntry, UsageRowNoSeq, ValueWrite, Write};
use zwork_sidecar::session_types::{BranchScan, EntryScan, SessionError, StorageBranchScan, UsageScan};
use zwork_sidecar::storage::{InMemoryStorageState, UsageTotals};
use zwork_sidecar::values::{Addr, ListReadOptions};

#[derive(Clone, Debug, PartialEq)]
struct Tokens(u64);

impl UsageTotals for Tokens {
    fn zero() -> Self {
        Tokens(0)
    }

    fn add(&self, other: &Self) -> Self {
        Tokens(self.0 + other.0)
    }
}

type State = InMemoryStorageState<String, Tokens>;

fn user_entry(id: &str, parent: Option<String>) -> Write<String, Tokens> {
    Write::Entry(NewEntry {
        id: id.into(),
        parent_id: parent,
        body: EntryBody::Message { message: "hi".to_string(), terminate: None },
    })
}

fn custom_entry(id: &str, parent: Option<String>, custom_type: &str) -> Write<String, Tokens> {
    Write::Entry(NewEntry {
        id: id.into(),
        parent_id: parent,
        body: EntryBody::Custom { custom_type: custom_type.into(), data: None },
    })
}

fn usage(id: &str, tokens: u64) -> Write<String, Tokens> {
    Write::Usage(UsageRowNoSeq { id: id.into(), usage: Tokens(tokens), entry_id: None, adjustment: false, details: None })
}

fn set(ns: &str, key: &str, v: i64) -> Write<String, Tokens> {
    Write::Value(ValueWrite::Assign { namespace: ns.into(), key: key.into(), value: serde_json::Value::from(v) })
}

fn append(ns: &str, key: &str, v: i64) -> Write<String, Tokens> {
    Write::List(ListWrite::Append { namespace: ns.into(), key: key.into(), value: serde_json::Value::from(v) })
}

fn addr(ns: &str, key: &str) -> Addr {
    Addr { namespace: ns.into(), key: key.into() }
}

fn commit(state: &mut State, writes: Vec<Write<String, Tokens>>) -> Vec<u64> {
    let prepared = state.prepare_commit(writes, 1_000).unwrap();
    let seqs = prepared.seqs.clone();
    state.apply_validated(prepared.writes);
    seqs
}

fn ids(entries: &[&zwork_sidecar::commit::Entry<String, Tokens>]) -> Vec<String> {
    entries.iter().map(|e| e.id.clone()).collect()
}

#[test]
fn commit_assigns_monotonic_seqs_and_rejects_duplicates() {
    let mut state = State::new();
    let prepared = state.prepare_commit(vec![user_entry("a", None), user_entry("b", Some("a".into()))], 1_000).unwrap();
    assert_eq!(prepared.seqs, vec![1, 2]);
    state.apply_validated(prepared.writes);

    // Duplicate id rejected.
    let err = state.prepare_commit(vec![user_entry("a", None)], 2_000).unwrap_err();
    assert!(err.message().contains("Duplicate entry or usage id"));

    // Missing parent rejected.
    let err = state.prepare_commit(vec![user_entry("z", Some("missing".into()))], 3_000).unwrap_err();
    assert!(err.message().contains("Missing parent entry"));
}

#[test]
fn branch_scan_walks_ancestry_with_stops() {
    let mut state = State::new();
    let prepared = state
        .prepare_commit(vec![user_entry("a", None), user_entry("b", Some("a".into())), user_entry("c", Some("b".into()))], 1)
        .unwrap();
    state.apply_validated(prepared.writes);

    let all = state.scan_branch(&StorageBranchScan { start: "c".into(), query: BranchScan::default() }).unwrap();
    assert_eq!(ids(&all), vec!["c", "b", "a"]);

    let stopped = state
        .scan_branch(&StorageBranchScan {
            start: "c".into(),
            query: BranchScan { stop_at_id: Some("a".into()), ..Default::default() },
        })
        .unwrap();
    assert_eq!(ids(&stopped), vec!["c", "b", "a"]);

    let newest = state
        .scan_branch(&StorageBranchScan { start: "c".into(), query: BranchScan { limit: Some(1), ..Default::default() } })
        .unwrap();
    assert_eq!(ids(&newest), vec!["c"]);
}

#[test]
fn branch_scan_stops_orders_and_filters() {
    let mut state = State::new();
    commit(
        &mut state,
        vec![
            user_entry("a", None),
            custom_entry("b", Some("a".into()), "note"),
            user_entry("c", Some("b".into())),
            user_entry("x", Some("a".into())),
        ],
    );
    let scan = |query: BranchScan| state.scan_branch(&StorageBranchScan { start: "c".into(), query }).unwrap();
    assert_eq!(ids(&scan(BranchScan { stop_at_id: Some("b".into()), ..Default::default() })), vec!["c", "b"]);
    assert_eq!(ids(&scan(BranchScan { stop_at_type: Some("custom"), ..Default::default() })), vec!["c", "b"]);
    assert_eq!(ids(&scan(BranchScan { oldest_first: true, ..Default::default() })), vec!["a", "b", "c"]);
    assert_eq!(ids(&scan(BranchScan { entry_type: Some("message"), ..Default::default() })), vec!["c", "a"]);
    assert_eq!(ids(&scan(BranchScan { custom_type: Some("note".into()), ..Default::default() })), vec!["b"]);
    // Newest first keeps seqs below the cursor; oldest first keeps those above.
    assert_eq!(ids(&scan(BranchScan { cursor: Some(3), ..Default::default() })), vec!["b", "a"]);
    assert_eq!(ids(&scan(BranchScan { cursor: Some(1), oldest_first: true, ..Default::default() })), vec!["b", "c"]);

    let err = state.scan_branch(&StorageBranchScan { start: "nope".into(), query: BranchScan::default() }).unwrap_err();
    assert_eq!(err, SessionError::Storage("Unknown branch start: nope".into()));

    let structure = state.scan_branch_structure(&StorageBranchScan { start: "b".into(), query: BranchScan::default() }).unwrap();
    assert_eq!(structure.len(), 2);
    assert_eq!(structure[0].id, "b");
    assert_eq!(structure[0].entry_type, "custom");
    assert_eq!(structure[0].custom_type.as_deref(), Some("note"));
    assert_eq!(structure[0].parent_id.as_deref(), Some("a"));
    assert_eq!(structure[0].seq, 2);
    assert_eq!(structure[0].timestamp, 1_000);
    assert_eq!(structure[1].entry_type, "message");
}

#[test]
fn value_reads_give_back_the_last_write() {
    let mut state = State::new();
    assert_eq!(commit(&mut state, vec![set("ns", "k", 1), set("ns", "k", 2), set("other", "k", 3)]), vec![1, 2, 3]);
    let got = state.get_value(&addr("ns", "k")).unwrap();
    assert_eq!(got.value, serde_json::Value::from(2));
    assert_eq!(got.seq, 2);
    assert_eq!(got.address.namespace, "ns");
    assert_eq!(state.get_value(&addr("other", "k")).unwrap().value, serde_json::Value::from(3));
    assert!(state.get_value(&addr("ns", "missing")).is_none());

    commit(&mut state, vec![Write::Value(ValueWrite::Delete { namespace: "ns".into(), key: "k".into() })]);
    assert!(state.get_value(&addr("ns", "k")).is_none());
    assert_eq!(state.get_value(&addr("other", "k")).unwrap().seq, 3);
}

#[test]
fn value_scan_is_by_namespace_and_key_prefix_in_key_order() {
    let mut state = State::new();
    commit(&mut state, vec![set("ns", "b/2", 2), set("ns", "a/1", 1), set("ns", "b/1", 3), set("nsx", "b/0", 4)]);
    let found = state.scan_values(&addr("ns", "b/"));
    let keys: Vec<&str> = found.iter().map(|c| c.address.key.as_str()).collect();
    assert_eq!(keys, vec!["b/1", "b/2"]);
    assert_eq!(state.scan_values(&addr("ns", "")).len(), 3);
}

#[test]
fn lists_read_in_append_order_with_cursor_direction_and_limit() {
    let mut state = State::new();
    commit(&mut state, vec![append("ns", "l", 10), append("ns", "other", 0), append("ns", "l", 20), append("ns", "l", 30)]);
    fn seqs(state: &State, options: ListReadOptions) -> Vec<u64> {
        state.read_list(&addr("ns", "l"), options).iter().map(|e| e.seq).collect()
    }
    assert_eq!(seqs(&state, ListReadOptions::default()), vec![1, 3, 4]);
    assert_eq!(seqs(&state, ListReadOptions { desc: true, ..Default::default() }), vec![4, 3, 1]);
    assert_eq!(seqs(&state, ListReadOptions { cursor: Some(1), ..Default::default() }), vec![3, 4]);
    assert_eq!(seqs(&state, ListReadOptions { cursor: Some(4), desc: true, ..Default::default() }), vec![3, 1]);
    assert_eq!(seqs(&state, ListReadOptions { limit: Some(2), ..Default::default() }), vec![1, 3]);
    assert_eq!(seqs(&state, ListReadOptions { limit: Some(0), ..Default::default() }), vec![1]);
    let values: Vec<serde_json::Value> =
        state.read_list(&addr("ns", "l"), ListReadOptions::default()).iter().map(|e| e.value.clone()).collect();
    assert_eq!(values, vec![serde_json::Value::from(10), serde_json::Value::from(20), serde_json::Value::from(30)]);

    commit(&mut state, vec![Write::List(ListWrite::Delete { namespace: "ns".into(), key: "l".into() }), append("ns", "l", 40)]);
    assert_eq!(seqs(&state, ListReadOptions::default()), vec![6]);
    assert_eq!(state.read_list(&addr("ns", "other"), ListReadOptions::default()).len(), 1);
}

#[test]
fn entry_and_usage_scans() {
    let mut state = State::new();
    commit(
        &mut state,
        vec![
            user_entry("a", None),
            usage("u1", 5),
            custom_entry("b", Some("a".into()), "note"),
            usage("u2", 7),
            user_entry("c", Some("b".into())),
        ],
    );
    let scan = |q: EntryScan| -> Vec<String> { ids(&state.scan_entries(&q)) };
    assert_eq!(scan(EntryScan::default()), vec!["a", "b", "c"]);
    assert_eq!(scan(EntryScan { desc: true, ..Default::default() }), vec!["c", "b", "a"]);
    assert_eq!(scan(EntryScan { entry_type: Some("message"), ..Default::default() }), vec!["a", "c"]);
    assert_eq!(scan(EntryScan { custom_type: Some("note".into()), ..Default::default() }), vec!["b"]);
    assert_eq!(scan(EntryScan { from_seq: Some(2), to_seq: Some(4), ..Default::default() }), vec!["b"]);
    assert_eq!(scan(EntryScan { desc: true, limit: Some(2), ..Default::default() }), vec!["c", "b"]);

    let rows = |q: UsageScan| -> Vec<u64> { state.scan_usage(&q).iter().map(|r| r.seq).collect() };
    assert_eq!(rows(UsageScan::default()), vec![2, 4]);
    assert_eq!(rows(UsageScan { desc: true, ..Default::default() }), vec![4, 2]);
    assert_eq!(rows(UsageScan { from_seq: Some(3), ..Default::default() }), vec![4]);
    assert_eq!(rows(UsageScan { limit: Some(1), ..Default::default() }), vec![2]);

    let found = state.get_entries(&["c".to_string(), "zz".to_string(), "a".to_string()]);
    assert_eq!(found.len(), 3);
    assert_eq!(found[0].unwrap().id, "c");
    assert!(found[1].is_none());
    assert_eq!(found[2].unwrap().seq, 1);

    let stats = state.get_stats();
    assert_eq!(stats.message_count, 2);
    assert_eq!(stats.usage, Tokens(12));
    assert_eq!(state.get_next_seq(), 6);

    // A usage id cannot be reused as an entry id.
    let err = state.prepare_commit(vec![user_entry("u1", None)], 2).unwrap_err();
    assert_eq!(err, SessionError::Storage("Duplicate entry or usage id: u1".into()));
}

#[test]
fn next_seq_only_moves_forward() {
    let mut state = State::new();
    state.advance_next_seq(10);
    assert_eq!(state.get_next_seq(), 10);
    state.advance_next_seq(3);
    assert_eq!(state.get_next_seq(), 10);
    assert_eq!(commit(&mut state, vec![user_entry("a", None), set("n", "k", 1)]), vec![10, 11]);
    assert_eq!(state.get_next_seq(), 12);
}

fn fresh_lane_state() -> serde_json::Value {
    let mut m = serde_json::Map::new();
    m.insert("currentOperationId".into(), serde_json::Value::Null);
    m.insert("lastOperationId".into(), serde_json::Value::Null);
    m.insert("inbox".into(), serde_json::Value::Array(Vec::new()));
    serde_json::Value::Object(m)
}

fn set_json(ns: &str, key: &str, v: serde_json::Value) -> Write<String, Tokens> {
    Write::Value(ValueWrite::Assign { namespace: ns.into(), key: key.into(), value: v })
}

#[test]
fn tree_fork_copies_entries_and_live_state() {
    let mut state = State::new();
    commit(
        &mut state,
        vec![
            user_entry("a", None),
            user_entry("b", Some("a".into())),
            set("app", "k", 1),
            set("pi.op.x", "k", 2),
            set("pi.lane.state", "main", 3),
            append("app", "l", 4),
            usage("u", 5),
        ],
    );
    let fork = state.create_fork(&zwork_sidecar::session_types::ForkOptions::Tree { id: None }, &fresh_lane_state()).unwrap();
    assert_eq!(ids(&fork.scan_entries(&EntryScan::default())), vec!["a", "b"]);
    assert_eq!(fork.get_value(&addr("app", "k")).unwrap().value, serde_json::Value::from(1));
    assert!(fork.get_value(&addr("pi.op.x", "k")).is_none());
    assert_eq!(fork.get_value(&addr("pi.lane.state", "main")).unwrap().value, fresh_lane_state());
    assert_eq!(fork.get_value(&addr("pi.lane.state", "main")).unwrap().seq, 5);
    let list: Vec<u64> = fork.read_list(&addr("app", "l"), ListReadOptions::default()).iter().map(|e| e.seq).collect();
    assert_eq!(list, vec![6]);
    assert!(fork.scan_usage(&UsageScan::default()).is_empty());
    assert_eq!(fork.get_next_seq(), state.get_next_seq());
    assert_eq!(fork.get_stats().message_count, 2);
    assert_eq!(fork.get_stats().usage, Tokens(0));
}

#[test]
fn branch_fork_copies_ancestry_and_moves_tip() {
    let mut state = State::new();
    commit(
        &mut state,
        vec![
            user_entry("a", None),
            user_entry("b", Some("a".into())),
            user_entry("c", Some("b".into())),
            user_entry("x", Some("a".into())),
            set_json("pi.branch.tip", "main", serde_json::Value::String("c".into())),
            set("pi.lane.config", "main", 1),
            set("pi.lane.state", "main", 2),
            set("pi.lane.config", "side", 1),
            set("app", "k", 3),
            set("pi.entry.label", "b", 4),
            set("pi.entry.label", "x", 5),
            set("pi.session.name", "", 6),
        ],
    );
    let branch = |entry: Option<&str>, before: bool| zwork_sidecar::session_types::ForkOptions::Branch {
        branch: "main".into(),
        entry_id: entry.map(String::from),
        before,
        id: None,
    };
    let fork = state.create_fork(&branch(Some("b"), false), &fresh_lane_state()).unwrap();
    assert_eq!(ids(&fork.scan_entries(&EntryScan::default())), vec!["a", "b"]);
    assert_eq!(fork.get_value(&addr("pi.branch.tip", "main")).unwrap().value, serde_json::Value::String("b".into()));
    assert_eq!(fork.get_value(&addr("pi.lane.state", "main")).unwrap().value, fresh_lane_state());
    assert!(fork.get_value(&addr("pi.lane.config", "main")).is_some());
    assert!(fork.get_value(&addr("pi.lane.config", "side")).is_none());
    assert!(fork.get_value(&addr("app", "k")).is_none());
    assert!(fork.get_value(&addr("pi.entry.label", "b")).is_some());
    assert!(fork.get_value(&addr("pi.entry.label", "x")).is_none());
    assert!(fork.get_value(&addr("pi.session.name", "")).is_some());

    let before = state.create_fork(&branch(Some("b"), true), &fresh_lane_state()).unwrap();
    assert_eq!(ids(&before.scan_entries(&EntryScan::default())), vec!["a"]);
    assert_eq!(before.get_value(&addr("pi.branch.tip", "main")).unwrap().value, serde_json::Value::String("a".into()));

    let at_tip = state.create_fork(&branch(None, false), &fresh_lane_state()).unwrap();
    assert_eq!(ids(&at_tip.scan_entries(&EntryScan::default())), vec!["a", "b", "c"]);

    let err = state
        .create_fork(
            &zwork_sidecar::session_types::ForkOptions::Branch {
                branch: "side".into(),
                entry_id: None,
                before: false,
                id: None,
            },
            &fresh_lane_state(),
        )
        .err()
        .unwrap();
    assert_eq!(err, SessionError::Storage("Source branch \"side\" is not a configured AgentLane".into()));

    let err = state.create_fork(&branch(Some("zzz"), false), &fresh_lane_state()).err().unwrap();
    assert!(err.message().contains("not on source branch"));
}

#[test]
fn fork_refuses_unknown_reserved_namespace() {
    let mut state = State::new();
    commit(&mut state, vec![set("pi.weird", "k", 1)]);
    let err = state
        .create_fork(&zwork_sidecar::session_types::ForkOptions::Tree { id: None }, &fresh_lane_state())
        .err()
        .unwrap();
    assert_eq!(err, SessionError::Storage("Unknown reserved fork namespace: pi.weird".into()));
}
