//! Transcript messages: system, user, assistant and tool-result turns.
//!
//! Token accounting (`U`) is carried through untouched, as are JSON tool
//! arguments and result details; everything the transcript logic decides on
//! is a plain value here.

use vstd::prelude::*;
use crate::text::{to_string, join_spec, join, chars_of, string_of, views};
use crate::types::{
    opt_chars, blocks_view, block_texts, UserMessageContent, UserMessageContentView, Api, InputType, StopReason, TextContent, TextView, ThinkingContent,
    ThinkingView, ToolReference, UserContent, UserContentView, UserMessage, UserMessageView,
};

verus! {

/// A JSON value, carried through as is.
#[verifier::external_type_specification]
#[verifier::external_body]
pub struct ExJsonValue(serde_json::Value);

/// Milliseconds since the Unix epoch by the system clock, 0 before the
/// epoch, capped at `i64::MAX`.
pub fn now_ms() -> (r: i64)
    ensures
        r >= 0,
{
    let t = crate::clock::now_ms();
    if t > i64::MAX as u64 {
        i64::MAX
    } else {
        t as i64
    }
}

/// `serde_json::Value::clone` (derived): the copy is the same JSON value.
pub assume_specification[ <serde_json::Value as Clone>::clone ](v: &serde_json::Value) -> (r: serde_json::Value)
    ensures
        r == *v,
;

/// `serde_json::Value::eq` (derived): a value equals itself. Values that
/// differ can still compare equal (a number `0.0` and `-0.0`), so nothing
/// more is stated of the result.
pub assume_specification[ <serde_json::Value as PartialEq>::eq ](a: &serde_json::Value, b: &serde_json::Value) -> (r: bool)
    ensures
        *a == *b ==> r,
;

/// A tool offered to the model.
#[derive(Debug, PartialEq)]
pub struct Tool {
    pub name: String,
    pub description: String,
    /// JSON schema object for the arguments.
    pub parameters: serde_json::Value,
}

#[derive(Debug, PartialEq)]
pub struct SystemMessage {
    pub content: String,
    /// Named sections patched by later system messages (`None` removes),
    /// in ascending key order, one entry per key.
    pub sections: Option<Vec<(String, Option<String>)>>,
    pub tools_added: Option<Vec<Tool>>,
    pub tools_removed: Option<Vec<ToolReference>>,
    pub timestamp: i64,
}

#[derive(Debug, PartialEq)]
pub struct ToolCall {
    pub id: String,
    pub name: String,
    pub arguments: serde_json::Value,
    pub thought_signature: Option<String>,
    pub namespace: Option<String>,
}

/// Assistant output content.
#[derive(Debug, PartialEq)]
pub enum AssistantContent {
    Text(TextContent),
    Thinking(ThinkingContent),
    ToolCall(ToolCall),
}

/// An assistant turn; `U` is its token accounting.
#[derive(Debug, PartialEq)]
pub struct AssistantMessage<U> {
    pub content: Vec<AssistantContent>,
    pub api: Api,
    pub provider: String,
    pub model: String,
    pub response_model: Option<String>,
    pub response_id: Option<String>,
    pub usage: U,
    pub stop_reason: StopReason,
    pub error_message: Option<String>,
    pub raw_stop_reason: Option<String>,
    pub end_turn: Option<bool>,
    pub timestamp: i64,
}

/// The answer to one tool call; `U` is its token accounting.
#[derive(Debug, PartialEq)]
pub struct ToolResultMessage<U> {
    pub tool_call_id: String,
    pub tool_name: String,
    pub content: Vec<UserContent>,
    pub details: Option<serde_json::Value>,
    pub usage: Option<U>,
    pub is_error: bool,
    pub timestamp: i64,
}

#[derive(Debug, PartialEq)]
pub enum Message<U> {
    System(SystemMessage),
    User(UserMessage),
    Assistant(AssistantMessage<U>),
    ToolResult(ToolResultMessage<U>),
}

/// What the transcript logic needs to know of the model it talks to.
#[derive(Debug, Clone, PartialEq)]
pub struct ModelIdentity {
    pub id: String,
    pub api: Api,
    pub provider: String,
    pub input: Vec<InputType>,
}

// ---------------------------------------------------------------------------
// Views
// ---------------------------------------------------------------------------

pub struct ToolCallView {
    pub id: Seq<char>,
    pub name: Seq<char>,
    pub arguments: serde_json::Value,
    pub thought_signature: Option<Seq<char>>,
    pub namespace: Option<Seq<char>>,
}

pub enum AssistantContentView {
    Text(TextView),
    Thinking(ThinkingView),
    ToolCall(ToolCallView),
}

pub struct AssistantMessageView<U> {
    pub content: Seq<AssistantContentView>,
    pub api: Api,
    pub provider: Seq<char>,
    pub model: Seq<char>,
    pub response_model: Option<Seq<char>>,
    pub response_id: Option<Seq<char>>,
    pub usage: U,
    pub stop_reason: StopReason,
    pub error_message: Option<Seq<char>>,
    pub raw_stop_reason: Option<Seq<char>>,
    pub end_turn: Option<bool>,
    pub timestamp: i64,
}

pub struct ToolResultView<U> {
    pub tool_call_id: Seq<char>,
    pub tool_name: Seq<char>,
    pub content: Seq<UserContentView>,
    pub details: Option<serde_json::Value>,
    pub usage: Option<U>,
    pub is_error: bool,
    pub timestamp: i64,
}

pub enum MessageView<U> {
    System(SystemMessage),
    User(UserMessageView),
    Assistant(AssistantMessageView<U>),
    ToolResult(ToolResultView<U>),
}

pub struct ModelView {
    pub id: Seq<char>,
    pub api: Api,
    pub provider: Seq<char>,
    pub input: Seq<InputType>,
}

impl View for ToolCall {
    type V = ToolCallView;

    open spec fn view(&self) -> ToolCallView {
        ToolCallView {
            id: self.id@,
            name: self.name@,
            arguments: self.arguments,
            thought_signature: opt_chars(self.thought_signature),
            namespace: opt_chars(self.namespace),
        }
    }
}

impl View for AssistantContent {
    type V = AssistantContentView;

    open spec fn view(&self) -> AssistantContentView {
        match self {
            AssistantContent::Text(t) => AssistantContentView::Text(t@),
            AssistantContent::Thinking(t) => AssistantContentView::Thinking(t@),
            AssistantContent::ToolCall(t) => AssistantContentView::ToolCall(t@),
        }
    }
}

/// The views of a sequence of assistant content blocks.
pub open spec fn contents_view(b: Seq<AssistantContent>) -> Seq<AssistantContentView> {
    b.map_values(|c: AssistantContent| c@)
}

impl<U> View for AssistantMessage<U> {
    type V = AssistantMessageView<U>;

    open spec fn view(&self) -> AssistantMessageView<U> {
        AssistantMessageView {
            content: contents_view(self.content@),
            api: self.api,
            provider: self.provider@,
            model: self.model@,
            response_model: opt_chars(self.response_model),
            response_id: opt_chars(self.response_id),
            usage: self.usage,
            stop_reason: self.stop_reason,
            error_message: opt_chars(self.error_message),
            raw_stop_reason: opt_chars(self.raw_stop_reason),
            end_turn: self.end_turn,
            timestamp: self.timestamp,
        }
    }
}

impl<U> View for ToolResultMessage<U> {
    type V = ToolResultView<U>;

    open spec fn view(&self) -> ToolResultView<U> {
        ToolResultView {
            tool_call_id: self.tool_call_id@,
            tool_name: self.tool_name@,
            content: blocks_view(self.content@),
            details: self.details,
            usage: self.usage,
            is_error: self.is_error,
            timestamp: self.timestamp,
        }
    }
}

impl<U> View for Message<U> {
    type V = MessageView<U>;

    open spec fn view(&self) -> MessageView<U> {
        match self {
            Message::System(s) => MessageView::System(*s),
            Message::User(u) => MessageView::User(u@),
            Message::Assistant(a) => MessageView::Assistant(a@),
            Message::ToolResult(t) => MessageView::ToolResult(t@),
        }
    }
}

/// The views of a sequence of messages.
pub open spec fn messages_view<U>(m: Seq<Message<U>>) -> Seq<MessageView<U>> {
    m.map_values(|x: Message<U>| x@)
}

impl View for ModelIdentity {
    type V = ModelView;

    open spec fn view(&self) -> ModelView {
        ModelView { id: self.id@, api: self.api, provider: self.provider@, input: self.input@ }
    }
}

impl ModelView {
    pub open spec fn supports_images(self) -> bool {
        self.input.contains(InputType::Image)
    }
}

impl ModelIdentity {
    /// Whether the model accepts image input.
    pub fn supports_images(&self) -> (r: bool)
        ensures
            r == self@.supports_images(),
    {
        let mut i: usize = 0;
        while i < self.input.len()
            invariant
                i <= self.input@.len(),
                forall|j: int| 0 <= j < i ==> self.input@[j] != InputType::Image,
            decreases self.input.len() - i,
        {
            if matches!(self.input[i], InputType::Image) {
                assert(self.input@[i as int] == InputType::Image);
                return true;
            }
            i += 1;
        }
        false
    }
}

// ---------------------------------------------------------------------------
// Accessors and constructors
// ---------------------------------------------------------------------------

impl AssistantContent {
    pub fn as_text(&self) -> (r: Option<&TextContent>)
        ensures
            r == (match self {
                AssistantContent::Text(t) => Some(t),
                _ => None,
            }),
    {
        match self {
            AssistantContent::Text(t) => Some(t),
            _ => None,
        }
    }

    pub fn as_thinking(&self) -> (r: Option<&ThinkingContent>)
        ensures
            r == (match self {
                AssistantContent::Thinking(t) => Some(t),
                _ => None,
            }),
    {
        match self {
            AssistantContent::Thinking(t) => Some(t),
            _ => None,
        }
    }

    pub fn as_tool_call(&self) -> (r: Option<&ToolCall>)
        ensures
            r == (match self {
                AssistantContent::ToolCall(t) => Some(t),
                _ => None,
            }),
    {
        match self {
            AssistantContent::ToolCall(t) => Some(t),
            _ => None,
        }
    }
}

impl<U> Message<U> {
    pub open spec fn role_spec(self) -> Seq<char> {
        match self {
            Message::System(_) => "system"@,
            Message::User(_) => "user"@,
            Message::Assistant(_) => "assistant"@,
            Message::ToolResult(_) => "toolResult"@,
        }
    }

    /// The wire name of the message's role.
    pub fn role(&self) -> (r: &'static str)
        ensures
            r@ == self.role_spec(),
    {
        match self {
            Message::System(_) => "system",
            Message::User(_) => "user",
            Message::Assistant(_) => "assistant",
            Message::ToolResult(_) => "toolResult",
        }
    }

    /// A user message with plain text, stamped with the current time.
    pub fn user_text(text: &str) -> (r: Message<U>)
        ensures
            r matches Message::User(u) && u.content@ == UserMessageContentView::Text(text@),
    {
        Message::User(UserMessage { content: UserMessageContent::Text(to_string(text)), timestamp: now_ms() })
    }

    /// A user message with content blocks, stamped with the current time.
    pub fn user_blocks(blocks: Vec<UserContent>) -> (r: Message<U>)
        ensures
            r matches Message::User(u) && u.content == UserMessageContent::Blocks(blocks),
    {
        Message::User(UserMessage { content: UserMessageContent::Blocks(blocks), timestamp: now_ms() })
    }

    pub fn as_user(&self) -> (r: Option<&UserMessage>)
        ensures
            r == (match self {
                Message::User(m) => Some(m),
                _ => None,
            }),
    {
        match self {
            Message::User(m) => Some(m),
            _ => None,
        }
    }

    pub fn as_assistant(&self) -> (r: Option<&AssistantMessage<U>>)
        ensures
            r == (match self {
                Message::Assistant(m) => Some(m),
                _ => None,
            }),
    {
        match self {
            Message::Assistant(m) => Some(m),
            _ => None,
        }
    }

    pub fn as_system(&self) -> (r: Option<&SystemMessage>)
        ensures
            r == (match self {
                Message::System(m) => Some(m),
                _ => None,
            }),
    {
        match self {
            Message::System(m) => Some(m),
            _ => None,
        }
    }

    pub open spec fn timestamp_spec(self) -> i64 {
        match self {
            Message::System(m) => m.timestamp,
            Message::User(m) => m.timestamp,
            Message::Assistant(m) => m.timestamp,
            Message::ToolResult(m) => m.timestamp,
        }
    }

    pub fn timestamp(&self) -> (r: i64)
        ensures
            r == self.timestamp_spec(),
    {
        match self {
            Message::System(m) => m.timestamp,
            Message::User(m) => m.timestamp,
            Message::Assistant(m) => m.timestamp,
            Message::ToolResult(m) => m.timestamp,
        }
    }
}

/// The texts of the first `k` text blocks of an assistant turn.
pub open spec fn assistant_texts(c: Seq<AssistantContentView>, k: int) -> Seq<Seq<char>>
    decreases k,
{
    if k <= 0 {
        Seq::empty()
    } else {
        match c[k - 1] {
            AssistantContentView::Text(t) => assistant_texts(c, k - 1).push(t.text),
            _ => assistant_texts(c, k - 1),
        }
    }
}

/// The tool calls among the first `k` blocks.
pub open spec fn tool_calls_in(c: Seq<AssistantContent>, k: int) -> Seq<ToolCall>
    decreases k,
{
    if k <= 0 {
        Seq::empty()
    } else {
        match c[k - 1] {
            AssistantContent::ToolCall(t) => tool_calls_in(c, k - 1).push(t),
            _ => tool_calls_in(c, k - 1),
        }
    }
}

impl<U> AssistantMessage<U> {
    /// The tool calls of the turn, in order.
    pub fn tool_calls(&self) -> (r: Vec<&ToolCall>)
        ensures
            r@.len() == tool_calls_in(self.content@, self.content@.len() as int).len(),
            forall|i: int| 0 <= i < r@.len() ==> *r@[i] == tool_calls_in(self.content@, self.content@.len() as int)[i],
    {
        let mut r: Vec<&ToolCall> = Vec::new();
        let mut i: usize = 0;
        while i < self.content.len()
            invariant
                i <= self.content@.len(),
                r@.len() == tool_calls_in(self.content@, i as int).len(),
                forall|k: int| 0 <= k < r@.len() ==> *r@[k] == tool_calls_in(self.content@, i as int)[k],
            decreases self.content.len() - i,
        {
            match &self.content[i] {
                AssistantContent::ToolCall(t) => {
                    r.push(t);
                },
                _ => {},
            }
            i += 1;
        }
        r
    }

    /// The text blocks of the turn, concatenated.
    pub fn text(&self) -> (r: String)
        ensures
            r@ == join_spec(assistant_texts(self@.content, self@.content.len() as int), Seq::empty()),
    {
        let ghost cv = self@.content;
        let mut parts: Vec<Vec<char>> = Vec::new();
        let mut i: usize = 0;
        assert(views(parts@) =~= Seq::<Seq<char>>::empty());
        while i < self.content.len()
            invariant
                i <= self.content@.len(),
                cv == self@.content,
                views(parts@) == assistant_texts(cv, i as int),
            decreases self.content.len() - i,
        {
            assert(cv[i as int] == self.content@[i as int]@);
            match &self.content[i] {
                AssistantContent::Text(t) => {
                    let c = chars_of(t.text.as_str());
                    let ghost before = views(parts@);
                    parts.push(c);
                    assert(views(parts@) =~= before.push(c@));
                },
                _ => {},
            }
            i += 1;
        }
        let none: [char; 0] = [];
        assert(none@ =~= Seq::<char>::empty());
        string_of(&join(&parts, &none))
    }
}

impl<U> ToolResultMessage<U> {
    /// The text blocks of the result, joined by newlines.
    pub fn text(&self) -> (r: String)
        ensures
            r@ == join_spec(block_texts(self.content@, self.content@.len() as int), seq!['\n']),
    {
        let mut parts: Vec<Vec<char>> = Vec::new();
        let mut i: usize = 0;
        assert(views(parts@) =~= Seq::<Seq<char>>::empty());
        while i < self.content.len()
            invariant
                i <= self.content@.len(),
                views(parts@) == block_texts(self.content@, i as int),
            decreases self.content.len() - i,
        {
            match &self.content[i] {
                UserContent::Text(t) => {
                    let c = chars_of(t.text.as_str());
                    let ghost before = views(parts@);
                    parts.push(c);
                    assert(views(parts@) =~= before.push(c@));
                },
                UserContent::Image(_) => {},
            }
            i += 1;
        }
        let nl = ['\n'];
        assert(nl@ == seq!['\n']);
        string_of(&join(&parts, &nl))
    }
}

} // verus!
