use zwork_sidecar::commit::{Entry, EntryBody};
use zwork_sidecar::session_context::build_context_entries;

fn msg(id: &str) -> Entry<String, u64> {
    Entry { id: id.into(), parent_id: None, seq: 0, timestamp: 0, body: EntryBody::Message { message: id.into(), terminate: None } }
}

fn compaction(id: &str) -> Entry<String, u64> {
    Entry {
        id: id.into(),
        parent_id: None,
        seq: 0,
        timestamp: 0,
        body: EntryBody::Compaction {
            summary: "s".into(),
            retained_tail: vec![],
            tokens_before: 0,
            details: None,
            usage: None,
            from_hook: false,
        },
    }
}

fn ids(v: &[Entry<String, u64>]) -> Vec<&str> {
    v.iter().map(|e| e.id.as_str()).collect()
}

#[test]
fn newest_compaction_starts_the_context() {
    let path = vec![msg("a"), compaction("c1"), msg("b"), compaction("c2"), msg("d")];
    assert_eq!(ids(&build_context_entries(path)), ["c2", "d"]);
    let plain = vec![msg("a"), msg("b")];
    assert_eq!(ids(&build_context_entries(plain)), ["a", "b"]);
    assert!(build_context_entries(Vec::<Entry<String, u64>>::new()).is_empty());
}
