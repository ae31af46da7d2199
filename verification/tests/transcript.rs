use zwork_sidecar::messages::{Message, SystemMessage, Tool};
use zwork_sidecar::transcript::{
    collapse_system_messages, create_initial_system_message, get_current_system_message, get_current_system_prompt,
    get_current_tools, get_declared_tools, get_tool_state_changes, declarations_equal, get_initial_system_message, get_system_message_text,
    has_non_additive_tool_changes, has_tool_history, normalize_context, render_system_message_update,
    resolve_transcript_tools, tool, without_initial_system_message, TranscriptContext,
};
use zwork_sidecar::types::ToolReference;

type Msg = Message<()>;

fn schema() -> serde_json::Value {
    let mut m = serde_json::Map::new();
    m.insert("type".into(), serde_json::Value::String("object".into()));
    m.insert("properties".into(), serde_json::Value::Object(serde_json::Map::new()));
    serde_json::Value::Object(m)
}

fn t(name: &str) -> Tool {
    tool(name, "d", schema())
}

fn system(content: &str, sections: Vec<(&str, Option<&str>)>, added: Option<Vec<Tool>>, removed: Option<Vec<&str>>, ts: i64) -> Msg {
    Message::System(SystemMessage {
        content: content.into(),
        sections: if sections.is_empty() {
            None
        } else {
            Some(sections.into_iter().map(|(k, v)| (k.to_string(), v.map(|s| s.to_string()))).collect())
        },
        tools_added: added,
        tools_removed: removed.map(|r| r.into_iter().map(|n| ToolReference { name: n.into() }).collect()),
        timestamp: ts,
    })
}

fn replay_transcript() -> Vec<Msg> {
    vec![
        system("base", vec![("a", Some("A1"))], Some(vec![t("x"), t("y")]), None, 1),
        Message::user_text("hi"),
        system("", vec![("a", Some("A2")), ("b", Some("B"))], Some(vec![t("z")]), Some(vec!["x"]), 2),
    ]
}

#[test]
fn replays_tools_and_sections() {
    let msgs = replay_transcript();
    let tools = get_current_tools(&msgs);
    assert_eq!(tools.iter().map(|t| t.name.as_str()).collect::<Vec<_>>(), vec!["y", "z"]);
    let prompt = get_current_system_prompt(&msgs);
    assert_eq!(prompt, "base\n\nA2\n\nB");
    let collapsed = collapse_system_messages(TranscriptContext { messages: replay_transcript() });
    assert_eq!(collapsed.messages.len(), 2);
    assert!(has_non_additive_tool_changes(&msgs));
    let rt = resolve_transcript_tools(&msgs, true);
    assert!(!rt.anchors_additions);
    assert_eq!(rt.request_tools.len(), 2);
}

#[test]
fn render_update() {
    let m = SystemMessage {
        content: String::new(),
        sections: Some(vec![("s".to_string(), None)]),
        tools_added: None,
        tools_removed: None,
        timestamp: 0,
    };
    assert_eq!(render_system_message_update(&m), "Removed system prompt section \"s\".");
}

#[test]
fn render_update_with_content_and_sections() {
    let m = SystemMessage {
        content: "head".into(),
        sections: Some(vec![("a".to_string(), Some("new".to_string())), ("b".to_string(), None)]),
        tools_added: None,
        tools_removed: None,
        timestamp: 0,
    };
    assert_eq!(
        render_system_message_update(&m),
        "head\n\nUpdated system prompt section \"a\":\n\nnew\n\nRemoved system prompt section \"b\"."
    );
    assert_eq!(get_system_message_text(&m), "head\n\nnew");
}

#[test]
fn current_system_message_replays_in_order() {
    let msgs = replay_transcript();
    let m = get_current_system_message(&msgs).unwrap();
    assert_eq!(m.content, "base");
    assert_eq!(m.timestamp, 1);
    assert_eq!(
        m.sections.unwrap(),
        vec![("a".to_string(), Some("A2".to_string())), ("b".to_string(), Some("B".to_string()))]
    );
    assert_eq!(m.tools_added.unwrap().iter().map(|t| t.name.as_str()).collect::<Vec<_>>(), vec!["y", "z"]);
    let removal = vec![system("", vec![("a", Some("A"))], None, None, 5), system("", vec![("a", None)], None, None, 6)];
    let m = get_current_system_message(&removal).unwrap();
    assert!(m.sections.is_none());
    assert_eq!(m.timestamp, 5);
    let none: Vec<Msg> = vec![Message::user_text("x")];
    assert!(get_current_system_message(&none).is_none());
}

#[test]
fn declared_tools_keep_removed_ones() {
    let msgs = replay_transcript();
    let d = get_declared_tools(&msgs);
    assert_eq!(d.iter().map(|t| t.name.as_str()).collect::<Vec<_>>(), vec!["x", "y", "z"]);
}

#[test]
fn redeclaration_moves_nothing_but_removal_reorders() {
    let msgs = vec![
        system("", vec![], Some(vec![t("a"), t("b")]), None, 0),
        system("", vec![], Some(vec![tool("a", "changed", schema())]), None, 0),
    ];
    let tools = get_current_tools(&msgs);
    assert_eq!(tools.iter().map(|t| (t.name.as_str(), t.description.as_str())).collect::<Vec<_>>(), vec![("a", "changed"), ("b", "d")]);
    assert!(has_non_additive_tool_changes(&msgs));
    let additive = vec![system("", vec![], Some(vec![t("a")]), None, 0), system("", vec![], Some(vec![t("b")]), None, 0)];
    assert!(!has_non_additive_tool_changes(&additive));
    let rt = resolve_transcript_tools(&additive, true);
    assert!(rt.anchors_additions);
    assert_eq!(rt.request_tools.len(), 1);
}

#[test]
fn initial_system_message_and_context() {
    assert!(create_initial_system_message(None, None).is_none());
    assert!(create_initial_system_message(Some(""), Some(&[])).is_none());
    let tools = vec![t("x")];
    let m = create_initial_system_message(Some("p"), Some(&tools)).unwrap();
    assert_eq!(m.content, "p");
    assert_eq!(m.tools_added.unwrap().len(), 1);
    let ctx = normalize_context::<()>(Some("p"), None, vec![Message::user_text("u")]);
    assert_eq!(ctx.messages.len(), 2);
    assert!(get_initial_system_message(&ctx.messages).is_some());
    assert_eq!(without_initial_system_message(&ctx.messages).len(), 1);
    assert!(!has_tool_history(&ctx.messages));
}

#[test]
fn state_changes_diff() {
    let prev = vec![t("a"), t("b")];
    let mut b2 = t("b");
    b2.description = "changed".into();
    let cur = vec![b2, t("c")];
    let d = get_tool_state_changes(&prev, &cur);
    assert_eq!(d.tools_added.iter().map(|t| t.name.as_str()).collect::<Vec<_>>(), vec!["b", "c"]);
    assert_eq!(d.tools_removed.iter().map(|t| t.name.as_str()).collect::<Vec<_>>(), vec!["a", "b"]);
}

#[test]
fn identical_declarations_are_equal() {
    assert!(declarations_equal(&t("a"), &t("a")));
    assert!(!declarations_equal(&t("a"), &tool("a", "other", schema())));
    let same = get_tool_state_changes(&[t("a")], &[t("a")]);
    assert!(same.tools_added.is_empty() && same.tools_removed.is_empty());
}
