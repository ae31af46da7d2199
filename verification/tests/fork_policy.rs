use zwork_sidecar::commit::CommittedWrite;
use zwork_sidecar::fork_policy::{project_fork_current_state_write, select_branch_fork, ForkCurrentStatePlan};
use zwork_sidecar::session_types::SessionError;

fn chain() -> Vec<(String, Option<String>)> {
    vec![
        ("a".into(), None),
        ("b".into(), Some("a".into())),
        ("c".into(), Some("b".into())),
    ]
}

#[test]
fn selects_ancestry_at_entry() {
    let chain = chain();
    let (_, tip, selected) = select_branch_fork("main", Some("b"), false, Some("c".into()), &chain).unwrap();
    assert_eq!(tip.as_deref(), Some("b"));
    assert_eq!(selected, vec!["b", "a"]);
}

#[test]
fn position_before_stops_at_parent() {
    let chain = chain();
    let (_, tip, selected) = select_branch_fork("main", Some("b"), true, Some("c".into()), &chain).unwrap();
    assert_eq!(tip.as_deref(), Some("a"));
    assert_eq!(selected, vec!["a"]);
}

#[test]
fn rejects_entry_off_branch() {
    let chain = chain();
    let err = select_branch_fork("main", Some("zzz"), false, Some("c".into()), &chain).unwrap_err();
    assert!(err.contains("not on source branch"));
    assert_eq!(err, "Fork entry Some(\"zzz\") is not on source branch \"main\"");
}

#[test]
fn empty_branch_missing_parent_and_default_entry() {
    let chain = chain();
    let (name, tip, selected) = select_branch_fork("dev", None, false, None, &chain).unwrap();
    assert_eq!((name.as_str(), tip, selected.len()), ("dev", None, 0));
    let (_, tip, selected) = select_branch_fork("main", None, false, Some("c".into()), &chain).unwrap();
    assert_eq!(tip.as_deref(), Some("c"));
    assert_eq!(selected, vec!["c", "b", "a"]);
    let (_, tip, selected) = select_branch_fork("main", Some("a"), true, Some("c".into()), &chain).unwrap();
    assert_eq!(tip, None);
    assert!(selected.is_empty());
    let broken = vec![("c".to_string(), Some("gone".to_string()))];
    let err = select_branch_fork("main", None, false, Some("c".into()), &broken).unwrap_err();
    assert_eq!(err, "Corrupt source branch: missing parent gone");
}

fn value_set(ns: &str, key: &str) -> CommittedWrite<(), ()> {
    CommittedWrite::ValueSet { seq: 7, namespace: ns.into(), key: key.into(), value: serde_json::Value::from(1) }
}

fn kept(r: Result<Option<CommittedWrite<(), ()>>, SessionError>) -> Option<serde_json::Value> {
    match r.unwrap() {
        Some(CommittedWrite::ValueSet { value, seq, .. }) => {
            assert_eq!(seq, 7);
            Some(value)
        },
        Some(CommittedWrite::ListAppend { value, .. }) => Some(value),
        Some(_) => panic!("unexpected write"),
        None => None,
    }
}

#[test]
fn projection_routes_reserved_namespaces() {
    let fresh = serde_json::Value::String("fresh".into());
    let tree = ForkCurrentStatePlan::Tree;
    let branch = ForkCurrentStatePlan::Branch { branch: "main".into(), destination_tip: Some("b".into()) };
    let empty = ForkCurrentStatePlan::Branch { branch: "main".into(), destination_tip: None };
    let copied = vec!["b".to_string()];
    let one = Some(serde_json::Value::from(1));
    let project = |w: CommittedWrite<(), ()>, plan: &ForkCurrentStatePlan| {
        project_fork_current_state_write(w, plan, Some(copied.as_slice()), fresh.clone())
    };
    assert_eq!(kept(project(value_set("pi.session.name", ""), &branch)), one);
    assert_eq!(kept(project(value_set("pi.entry.label", "b"), &branch)), one);
    assert_eq!(kept(project(value_set("pi.entry.label", "x"), &branch)), None);
    assert_eq!(kept(project_fork_current_state_write(value_set("pi.entry.label", "x"), &tree, None, fresh.clone())), one);
    assert_eq!(kept(project(value_set("pi.branch.tip", "main"), &branch)), Some(serde_json::Value::String("b".into())));
    assert_eq!(kept(project(value_set("pi.branch.tip", "main"), &empty)), Some(serde_json::Value::Null));
    assert_eq!(kept(project(value_set("pi.branch.tip", "side"), &branch)), None);
    assert_eq!(kept(project(value_set("pi.branch.tip", "side"), &tree)), one);
    assert_eq!(kept(project(value_set("pi.lane.config", "main"), &branch)), one);
    assert_eq!(kept(project(value_set("pi.lane.config", "side"), &branch)), None);
    assert_eq!(kept(project(value_set("pi.lane.state", "main"), &branch)), Some(fresh.clone()));
    assert_eq!(kept(project(value_set("pi.lane.state", "side"), &tree)), Some(fresh.clone()));
    assert_eq!(kept(project(value_set("pi.result", "x"), &tree)), None);
    assert_eq!(kept(project(value_set("pi.op.1", "x"), &tree)), None);
    assert_eq!(kept(project(value_set("pi.pending.1", "x"), &tree)), None);
    assert_eq!(kept(project(value_set("app", "x"), &tree)), one);
    assert_eq!(kept(project(value_set("app", "x"), &branch)), None);
    assert_eq!(
        project(value_set("pi.other", "x"), &tree).err(),
        Some(SessionError::Storage("Unknown reserved fork namespace: pi.other".into()))
    );
    assert_eq!(
        project(value_set("pi", "x"), &tree).err(),
        Some(SessionError::Storage("Unknown reserved fork namespace: pi".into()))
    );
    let append = CommittedWrite::<(), ()>::ListAppend {
        seq: 3,
        namespace: "pi.lane.state".into(),
        key: "main".into(),
        value: serde_json::Value::from(2),
    };
    assert_eq!(kept(project(append, &branch)), Some(serde_json::Value::from(2)));
    let delete = CommittedWrite::<(), ()>::ValueDelete { seq: 3, namespace: "app".into(), key: "x".into() };
    assert_eq!(kept(project(delete, &tree)), None);
}
