use zwork_sidecar::types::{
    clamp_thinking_level, supported_thinking_levels, Api, StopReason, TextContent, ThinkingLevel,
    UserContent, UserMessageContent, ImageContent,
};

#[test]
fn clamp_thinking_level_snaps_to_supported() {
    assert_eq!(clamp_thinking_level(true, None, ThinkingLevel::Xhigh), ThinkingLevel::Xhigh);
    let map = vec!["low".to_string(), "high".to_string()];
    assert_eq!(clamp_thinking_level(true, Some(&map), ThinkingLevel::Medium), ThinkingLevel::High);
    assert_eq!(clamp_thinking_level(true, Some(&map), ThinkingLevel::Max), ThinkingLevel::High);
    assert_eq!(clamp_thinking_level(false, Some(&map), ThinkingLevel::High), ThinkingLevel::Off);
}

#[test]
fn supported_levels_follow_the_map() {
    let map = vec!["max".to_string(), "minimal".to_string(), "bogus".to_string()];
    assert_eq!(
        supported_thinking_levels(true, Some(&map)),
        vec![ThinkingLevel::Off, ThinkingLevel::Minimal, ThinkingLevel::Max]
    );
    assert_eq!(supported_thinking_levels(true, None).len(), 7);
    assert_eq!(supported_thinking_levels(false, None), vec![ThinkingLevel::Off]);
}

#[test]
fn names_round_trip() {
    assert_eq!(StopReason::ToolUse.as_str(), "toolUse");
    assert_eq!(Api::AnthropicMessages.as_str(), "anthropic-messages");
    for l in [ThinkingLevel::Off, ThinkingLevel::Low, ThinkingLevel::Xhigh, ThinkingLevel::Max] {
        assert_eq!(ThinkingLevel::parse(l.as_str()), Some(l));
    }
    assert_eq!(ThinkingLevel::parse("extreme"), None);
}

#[test]
fn user_message_text_joins_text_blocks() {
    let blocks = UserMessageContent::Blocks(vec![
        UserContent::text("one"),
        UserContent::Image(ImageContent { data: "AAAA".into(), mime_type: "image/png".into() }),
        UserContent::Text(TextContent { text: "two".into(), text_signature: Some("s".into()) }),
    ]);
    assert_eq!(blocks.text(), "one\ntwo");
    assert_eq!(UserMessageContent::Text("plain".into()).text(), "plain");
}
