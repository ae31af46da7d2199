use zwork_sidecar::messages::{
    AssistantContent, AssistantMessage, Message, ModelIdentity, SystemMessage, ToolCall, ToolResultMessage,
};
use zwork_sidecar::transform::{
    downgrade_unsupported_images, repair_tool_results, transform_messages, transform_messages_at,
    MISSING_TOOL_RESULT_TEXT, NON_VISION_TOOL_IMAGE_PLACEHOLDER, NON_VISION_USER_IMAGE_PLACEHOLDER,
};
use zwork_sidecar::types::{
    Api, ImageContent, InputType, StopReason, TextContent, ThinkingContent, UserContent, UserMessageContent,
};

type Msg = Message<()>;

fn model() -> ModelIdentity {
    ModelIdentity { id: "m".into(), api: Api::OpenAICompletions, provider: "p".into(), input: vec![InputType::Text] }
}

fn assistant(model: &ModelIdentity, content: Vec<AssistantContent>, stop: StopReason) -> Msg {
    Message::Assistant(AssistantMessage {
        content,
        api: model.api,
        provider: model.provider.clone(),
        model: model.id.clone(),
        response_model: None,
        response_id: None,
        usage: (),
        stop_reason: stop,
        error_message: None,
        raw_stop_reason: None,
        end_turn: None,
        timestamp: 0,
    })
}

fn tc(id: &str) -> AssistantContent {
    AssistantContent::ToolCall(ToolCall {
        id: id.into(),
        name: "read".into(),
        arguments: serde_json::Value::Object(serde_json::Map::new()),
        thought_signature: None,
        namespace: None,
    })
}

fn tool_result(id: &str, content: Vec<UserContent>) -> Msg {
    Message::ToolResult(ToolResultMessage {
        tool_call_id: id.into(),
        tool_name: "read".into(),
        content,
        details: None,
        usage: None,
        is_error: false,
        timestamp: 0,
    })
}

fn image() -> UserContent {
    UserContent::Image(ImageContent { data: "AAA".into(), mime_type: "image/png".into() })
}

fn system(text: &str) -> Msg {
    Message::System(SystemMessage {
        content: text.into(),
        sections: None,
        tools_added: None,
        tools_removed: None,
        timestamp: 0,
    })
}

type NoNormalizer = fn(&str) -> String;

#[test]
fn synthesizes_orphan_results_and_drops_errored() {
    let m = model();
    let msgs = vec![
        Message::user_text("a"),
        assistant(&m, vec![tc("1"), tc("2")], StopReason::ToolUse),
        tool_result("1", vec![UserContent::text("ok")]),
        Message::user_text("b"),
        assistant(&m, vec![], StopReason::Error),
    ];
    let out = transform_messages::<(), NoNormalizer>(msgs, &m, None);
    assert_eq!(out.len(), 5);
    match &out[3] {
        Message::ToolResult(t) => {
            assert_eq!(t.tool_call_id, "2");
            assert!(t.is_error);
        }
        _ => panic!("expected synthetic result"),
    }
    assert!(matches!(out[4], Message::User(_)));
}

#[test]
fn cross_model_thinking_becomes_text_and_ids_normalize() {
    let m = model();
    let mut other = m.clone();
    other.id = "other".into();
    let msgs = vec![
        assistant(
            &other,
            vec![
                AssistantContent::Thinking(ThinkingContent {
                    thinking: "hmm".into(),
                    thinking_signature: Some("sig".into()),
                    redacted: None,
                }),
                tc("call|item"),
            ],
            StopReason::ToolUse,
        ),
        tool_result("call|item", vec![]),
    ];
    let norm = |id: &str| id.replace('|', "_");
    let out = transform_messages(msgs, &m, Some(&norm));
    let a = out[0].as_assistant().unwrap();
    assert!(matches!(a.content[0], AssistantContent::Text(_)));
    assert_eq!(a.content[1].as_tool_call().unwrap().id, "call_item");
    match &out[1] {
        Message::ToolResult(t) => assert_eq!(t.tool_call_id, "call_item"),
        _ => panic!(),
    }
}

#[test]
fn downgrades_images_for_text_models() {
    let m = model();
    let msgs: Vec<Msg> = vec![Message::user_blocks(vec![UserContent::text("see"), image()])];
    let out = transform_messages::<(), NoNormalizer>(msgs, &m, None);
    match &out[0] {
        Message::User(u) => match &u.content {
            UserMessageContent::Blocks(b) => {
                assert_eq!(b.len(), 2);
                assert!(matches!(&b[1], UserContent::Text(t) if t.text == NON_VISION_USER_IMAGE_PLACEHOLDER));
            }
            _ => panic!(),
        },
        _ => panic!(),
    }
}

#[test]
fn consecutive_images_share_one_placeholder() {
    let m = model();
    let msgs: Vec<Msg> = vec![
        Message::user_blocks(vec![image(), image(), UserContent::text("x"), image()]),
        tool_result("t", vec![image(), UserContent::text(NON_VISION_TOOL_IMAGE_PLACEHOLDER), image()]),
    ];
    let out = downgrade_unsupported_images(msgs, &m);
    match &out[0] {
        Message::User(u) => match &u.content {
            UserMessageContent::Blocks(b) => {
                let texts: Vec<&str> = b
                    .iter()
                    .map(|c| match c {
                        UserContent::Text(t) => t.text.as_str(),
                        UserContent::Image(_) => "<image>",
                    })
                    .collect();
                assert_eq!(
                    texts,
                    vec![NON_VISION_USER_IMAGE_PLACEHOLDER, "x", NON_VISION_USER_IMAGE_PLACEHOLDER]
                );
            }
            _ => panic!(),
        },
        _ => panic!(),
    }
    match &out[1] {
        Message::ToolResult(t) => {
            assert_eq!(t.content.len(), 2);
            assert_eq!(t.text(), format!("{}\n{}", NON_VISION_TOOL_IMAGE_PLACEHOLDER, NON_VISION_TOOL_IMAGE_PLACEHOLDER));
        }
        _ => panic!(),
    }
}

#[test]
fn vision_models_keep_images() {
    let mut m = model();
    m.input.push(InputType::Image);
    let msgs: Vec<Msg> = vec![Message::user_blocks(vec![image()])];
    let out = downgrade_unsupported_images(msgs, &m);
    match &out[0] {
        Message::User(u) => assert!(matches!(&u.content, UserMessageContent::Blocks(b) if matches!(b[0], UserContent::Image(_)))),
        _ => panic!(),
    }
}

#[test]
fn same_model_keeps_signed_thinking_and_drops_empty() {
    let m = model();
    let msgs = vec![assistant(
        &m,
        vec![
            AssistantContent::Thinking(ThinkingContent { thinking: "  ".into(), thinking_signature: None, redacted: None }),
            AssistantContent::Thinking(ThinkingContent {
                thinking: "".into(),
                thinking_signature: Some("s".into()),
                redacted: None,
            }),
            AssistantContent::Text(TextContent { text: "hi".into(), text_signature: Some("t".into()) }),
        ],
        StopReason::Stop,
    )];
    let out = transform_messages_at::<(), NoNormalizer>(msgs, &m, None, 7);
    let a = out[0].as_assistant().unwrap();
    assert_eq!(a.content.len(), 2);
    assert!(matches!(&a.content[0], AssistantContent::Thinking(t) if t.thinking_signature.as_deref() == Some("s")));
    assert!(matches!(&a.content[1], AssistantContent::Text(t) if t.text_signature.as_deref() == Some("t")));
}

#[test]
fn other_model_loses_redacted_thinking_and_signatures() {
    let m = model();
    let mut other = m.clone();
    other.provider = "q".into();
    let msgs = vec![assistant(
        &other,
        vec![
            AssistantContent::Thinking(ThinkingContent {
                thinking: "secret".into(),
                thinking_signature: None,
                redacted: Some(true),
            }),
            AssistantContent::Text(TextContent { text: "hi".into(), text_signature: Some("t".into()) }),
        ],
        StopReason::Stop,
    )];
    let out = transform_messages_at::<(), NoNormalizer>(msgs, &m, None, 7);
    let a = out[0].as_assistant().unwrap();
    assert_eq!(a.content.len(), 1);
    assert!(matches!(&a.content[0], AssistantContent::Text(t) if t.text == "hi" && t.text_signature.is_none()));
}

#[test]
fn system_messages_wait_for_pending_results() {
    let m = model();
    let msgs = vec![
        assistant(&m, vec![tc("1")], StopReason::ToolUse),
        system("note"),
        Message::user_text("next"),
    ];
    let out = repair_tool_results(msgs, 42);
    assert_eq!(out.len(), 4);
    assert_eq!(out[0].role(), "assistant");
    match &out[1] {
        Message::ToolResult(t) => {
            assert_eq!(t.tool_call_id, "1");
            assert_eq!(t.tool_name, "read");
            assert_eq!(t.text(), MISSING_TOOL_RESULT_TEXT);
            assert!(t.is_error);
            assert_eq!(t.timestamp, 42);
        }
        _ => panic!(),
    }
    assert_eq!(out[2].role(), "system");
    assert_eq!(out[3].role(), "user");
}

#[test]
fn answered_calls_get_no_stand_in() {
    let m = model();
    let msgs = vec![
        assistant(&m, vec![tc("1")], StopReason::ToolUse),
        tool_result("1", vec![UserContent::text("ok")]),
        assistant(&m, vec![], StopReason::Aborted),
    ];
    let out = repair_tool_results(msgs, 0);
    assert_eq!(out.len(), 2);
    assert_eq!(out[1].role(), "toolResult");
    assert!(!matches!(&out[1], Message::ToolResult(t) if t.is_error));
}
