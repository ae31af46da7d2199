use zwork_sidecar::memory::{
    parse_entries, plan_append, plan_remove, plan_replace, render_entries, snapshot_blocks,
    MemoryOutcome, MemoryTarget,
};
use zwork_sidecar::output_accumulator::sanitize_shell_output;
use zwork_sidecar::paths::{is_safe_id, memory_md_path, settings_path, user_md_path};

fn s(x: &str) -> String {
    x.to_string()
}

#[test]
fn entries_are_split_on_section_lines() {
    assert_eq!(parse_entries("one\n§\n  two  \n§\n\n§\nthree"), vec![s("one"), s("two"), s("three")]);
    assert!(parse_entries("").is_empty());
}

#[test]
fn append_dedupes_and_enforces_budget() {
    let entries = vec![s("likes tea")];
    match plan_append(MemoryTarget::User, &entries, "  likes tea ").unwrap() {
        MemoryOutcome::Unchanged(m) => assert_eq!(m, "Already recorded in USER.md."),
        MemoryOutcome::Write(_) => panic!("duplicate written"),
    }
    match plan_append(MemoryTarget::User, &entries, "prefers dark mode").unwrap() {
        MemoryOutcome::Write(w) => {
            assert_eq!(w.serialized, "likes tea\n§\nprefers dark mode");
            assert_eq!(w.message, "Saved to USER.md.");
            assert_eq!(w.entries.len(), 2);
        }
        MemoryOutcome::Unchanged(_) => panic!("nothing written"),
    }
    assert_eq!(plan_append(MemoryTarget::Memory, &entries, "   ").unwrap_err(), "Memory content is empty.");
    let big = vec!["x".repeat(1371)];
    assert_eq!(
        plan_append(MemoryTarget::User, &big, "y").unwrap_err(),
        "USER.md is near its size limit (1375 chars). Remove older entries before adding new ones."
    );
}

#[test]
fn replace_and_remove_by_substring() {
    let entries = vec![s("alpha one"), s("beta two"), s("alpha three")];
    let w = plan_replace(MemoryTarget::Memory, &entries, "alpha", "gamma").unwrap();
    assert_eq!(w.entries, vec![s("gamma"), s("beta two"), s("alpha three")]);
    assert_eq!(w.message, "Updated MEMORY.md.");
    assert_eq!(
        plan_replace(MemoryTarget::Memory, &entries, "zeta", "x").unwrap_err(),
        "No entry in MEMORY.md contains 'zeta'."
    );
    let w = plan_remove(MemoryTarget::Memory, &entries, "alpha").unwrap();
    assert_eq!(w.entries, vec![s("beta two")]);
    assert_eq!(w.serialized, "beta two");
    assert!(plan_remove(MemoryTarget::Memory, &entries, "zeta").is_err());
}

#[test]
fn rendering_and_snapshot() {
    assert_eq!(render_entries(MemoryTarget::User, &[]), "USER.md is empty.");
    assert_eq!(render_entries(MemoryTarget::User, &[s("a"), s("b")]), "USER.md entries:\n\n- a\n- b");
    let (u, m) = snapshot_blocks(&[], &[], Some("# Notes\n\n- old fact\nsecond\n"));
    assert_eq!(u, "No user profile recorded yet.");
    assert_eq!(m, "General observations and facts (from MEMORY.md):\n\n- - old fact\n- second");
    let (_, m) = snapshot_blocks(&[], &[], None);
    assert_eq!(m, "No general memories recorded yet.");
    assert_eq!(MemoryTarget::parse("USER").unwrap(), MemoryTarget::User);
    assert_eq!(MemoryTarget::parse("x").unwrap_err(), "unknown memory target: x");
    assert_eq!(MemoryTarget::Memory.char_limit(), 2200);
}

#[test]
fn paths_under_home() {
    assert_eq!(settings_path("/h/.zwork"), "/h/.zwork/settings.json");
    assert_eq!(user_md_path("/h/.zwork/"), "/h/.zwork/memories/USER.md");
    assert_eq!(memory_md_path("z"), "z/memories/MEMORY.md");
    assert!(is_safe_id("abc-12_X"));
    assert!(!is_safe_id("a/b"));
    assert!(!is_safe_id(""));
}

#[test]
fn sanitize_strips_controls_keeps_tab() {
    assert_eq!(sanitize_shell_output("ok\u{0}\u{7}\u{1f}bo\u{9}lt\u{fff9}o\n"), "okbo\tlto\n");
}
