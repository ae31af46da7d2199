//! Core model and message vocabulary: wire protocols, thinking levels,
//! stop reasons and user content.

use vstd::prelude::*;
use crate::text::{chars_of, eq_chars, join, join_spec, string_of, to_string, views};

verus! {

/// Wire protocol a model speaks.
#[derive(Debug, Clone, Copy, PartialEq, Eq, Structural, Hash)]
pub enum Api {
    OpenAICompletions,
    AnthropicMessages,
}

impl Api {
    pub open spec fn name(self) -> Seq<char> {
        match self {
            Api::OpenAICompletions => "openai-completions"@,
            Api::AnthropicMessages => "anthropic-messages"@,
        }
    }

    pub fn as_str(&self) -> (r: &'static str)
        ensures
            r@ == self.name(),
    {
        match self {
            Api::OpenAICompletions => "openai-completions",
            Api::AnthropicMessages => "anthropic-messages",
        }
    }
}

#[derive(Debug, Clone, Copy, PartialEq, Eq, Structural, Hash)]
pub enum InputType {
    Text,
    Image,
}

#[derive(Debug, Clone, Copy, PartialEq, Eq, Structural, PartialOrd, Ord, Hash)]
pub enum ThinkingLevel {
    Off,
    Minimal,
    Low,
    Medium,
    High,
    Xhigh,
    Max,
}

/// Every thinking level, lowest first.
pub open spec fn all_levels() -> Seq<ThinkingLevel> {
    seq![
        ThinkingLevel::Off,
        ThinkingLevel::Minimal,
        ThinkingLevel::Low,
        ThinkingLevel::Medium,
        ThinkingLevel::High,
        ThinkingLevel::Xhigh,
        ThinkingLevel::Max,
    ]
}

impl ThinkingLevel {
    pub open spec fn name(self) -> Seq<char> {
        match self {
            ThinkingLevel::Off => "off"@,
            ThinkingLevel::Minimal => "minimal"@,
            ThinkingLevel::Low => "low"@,
            ThinkingLevel::Medium => "medium"@,
            ThinkingLevel::High => "high"@,
            ThinkingLevel::Xhigh => "xhigh"@,
            ThinkingLevel::Max => "max"@,
        }
    }

    /// Position in `all_levels()`.
    pub open spec fn index(self) -> int {
        match self {
            ThinkingLevel::Off => 0,
            ThinkingLevel::Minimal => 1,
            ThinkingLevel::Low => 2,
            ThinkingLevel::Medium => 3,
            ThinkingLevel::High => 4,
            ThinkingLevel::Xhigh => 5,
            ThinkingLevel::Max => 6,
        }
    }

    pub fn as_str(&self) -> (r: &'static str)
        ensures
            r@ == self.name(),
    {
        match self {
            ThinkingLevel::Off => "off",
            ThinkingLevel::Minimal => "minimal",
            ThinkingLevel::Low => "low",
            ThinkingLevel::Medium => "medium",
            ThinkingLevel::High => "high",
            ThinkingLevel::Xhigh => "xhigh",
            ThinkingLevel::Max => "max",
        }
    }

    /// The level named `s`, if any.
    pub fn parse(s: &str) -> (r: Option<ThinkingLevel>)
        ensures
            match r {
                Some(l) => l.name() == s@,
                None => forall|i: int| 0 <= i < 7 ==> all_levels()[i].name() != s@,
            },
    {
        let levels = level_list();
        let sc = chars_of(s);
        let mut i: usize = 0;
        while i < levels.len()
            invariant
                levels@ == all_levels(),
                sc@ == s@,
                i <= 7,
                forall|j: int| 0 <= j < i ==> all_levels()[j].name() != s@,
            decreases levels.len() - i,
        {
            let l = levels[i];
            if eq_chars(&chars_of(l.as_str()), &sc) {
                return Some(l);
            }
            i += 1;
        }
        None
    }
}

fn level_list() -> (r: Vec<ThinkingLevel>)
    ensures
        r@ == all_levels(),
{
    let v = vec![
        ThinkingLevel::Off,
        ThinkingLevel::Minimal,
        ThinkingLevel::Low,
        ThinkingLevel::Medium,
        ThinkingLevel::High,
        ThinkingLevel::Xhigh,
        ThinkingLevel::Max,
    ];
    assert(v@ =~= all_levels());
    v
}

/// The levels a model supports: only `off` for a non-reasoning model;
/// every level, or `off` plus the levels named in its level map.
pub open spec fn supported_spec(reasoning: bool, map_keys: Option<Seq<Seq<char>>>) -> Seq<ThinkingLevel> {
    if !reasoning {
        seq![ThinkingLevel::Off]
    } else {
        match map_keys {
            None => all_levels(),
            Some(keys) => seq![ThinkingLevel::Off] + mapped_levels(keys, 6),
        }
    }
}

/// The levels at positions `1..=k` named in `keys`, lowest first.
pub open spec fn mapped_levels(keys: Seq<Seq<char>>, k: int) -> Seq<ThinkingLevel>
    decreases k,
{
    if k <= 0 {
        Seq::empty()
    } else {
        let prev = mapped_levels(keys, k - 1);
        if keys.contains(all_levels()[k].name()) {
            prev.push(all_levels()[k])
        } else {
            prev
        }
    }
}

/// The first level at or above position `i` that `avail` contains.
pub open spec fn level_up(avail: Seq<ThinkingLevel>, i: int) -> Option<ThinkingLevel>
    decreases 7 - i,
{
    if i < 0 || i >= 7 {
        None
    } else if avail.contains(all_levels()[i]) {
        Some(all_levels()[i])
    } else {
        level_up(avail, i + 1)
    }
}

/// The highest level below position `i` that `avail` contains.
pub open spec fn level_down(avail: Seq<ThinkingLevel>, i: int) -> Option<ThinkingLevel>
    decreases i,
{
    if i <= 0 {
        None
    } else if avail.contains(all_levels()[i - 1]) {
        Some(all_levels()[i - 1])
    } else {
        level_down(avail, i - 1)
    }
}

/// `level` snapped to a supported one: itself, else the nearest above,
/// else the nearest below.
pub open spec fn clamp_spec(avail: Seq<ThinkingLevel>, level: ThinkingLevel) -> ThinkingLevel {
    if avail.contains(level) {
        level
    } else {
        match level_up(avail, level.index()) {
            Some(l) => l,
            None => match level_down(avail, level.index()) {
                Some(l) => l,
                None => if avail.len() > 0 {
                    avail[0]
                } else {
                    ThinkingLevel::Off
                },
            },
        }
    }
}

pub open spec fn strs(v: Seq<String>) -> Seq<Seq<char>> {
    v.map_values(|s: String| s@)
}

fn contains_str(v: &[String], t: &str) -> (r: bool)
    ensures
        r == strs(v@).contains(t@),
{
    let tc = chars_of(t);
    let mut i: usize = 0;
    while i < v.len()
        invariant
            i <= v@.len(),
            tc@ == t@,
            forall|j: int| 0 <= j < i ==> #[trigger] strs(v@)[j] != t@,
        decreases v.len() - i,
    {
        if eq_chars(&chars_of(v[i].as_str()), &tc) {
            assert(strs(v@)[i as int] == t@);
            return true;
        }
        i += 1;
    }
    false
}

fn contains_level(v: &Vec<ThinkingLevel>, l: ThinkingLevel) -> (r: bool)
    ensures
        r == v@.contains(l),
{
    let mut i: usize = 0;
    while i < v.len()
        invariant
            i <= v@.len(),
            forall|j: int| 0 <= j < i ==> v@[j] != l,
        decreases v.len() - i,
    {
        if v[i] == l {
            return true;
        }
        i += 1;
    }
    false
}

/// The thinking levels of a model: `reasoning` says whether it reasons,
/// `map_keys` holds the level names of its level map, if it has one.
pub fn supported_thinking_levels(reasoning: bool, map_keys: Option<&[String]>) -> (r: Vec<ThinkingLevel>)
    ensures
        r@ == supported_spec(reasoning, match map_keys {
            Some(k) => Some(strs(k@)),
            None => None,
        }),
{
    if !reasoning {
        let v = vec![ThinkingLevel::Off];
        assert(v@ =~= seq![ThinkingLevel::Off]);
        return v;
    }
    let all = level_list();
    match map_keys {
        None => all,
        Some(keys) => {
            let ghost kv = strs(keys@);
            let mut out = vec![ThinkingLevel::Off];
            let mut i: usize = 1;
            assert(out@ =~= seq![ThinkingLevel::Off] + mapped_levels(kv, 0));
            while i < all.len()
                invariant
                    1 <= i <= 7,
                    all@ == all_levels(),
                    kv == strs(keys@),
                    out@ == seq![ThinkingLevel::Off] + mapped_levels(kv, i - 1),
                decreases all.len() - i,
            {
                let l = all[i];
                let ghost before = out@;
                if contains_str(keys, l.as_str()) {
                    out.push(l);
                    assert(out@ =~= before.push(l));
                }
                i += 1;
            }
            out
        },
    }
}

/// Snap `level` to the nearest level the model supports, trying upwards
/// first, then downwards.
pub fn clamp_thinking_level(reasoning: bool, map_keys: Option<&[String]>, level: ThinkingLevel) -> (r: ThinkingLevel)
    ensures
        r == clamp_spec(supported_spec(reasoning, match map_keys {
            Some(k) => Some(strs(k@)),
            None => None,
        }), level),
{
    let available = supported_thinking_levels(reasoning, map_keys);
    if contains_level(&available, level) {
        return level;
    }
    let all = level_list();
    let idx: usize = match level {
        ThinkingLevel::Off => 0,
        ThinkingLevel::Minimal => 1,
        ThinkingLevel::Low => 2,
        ThinkingLevel::Medium => 3,
        ThinkingLevel::High => 4,
        ThinkingLevel::Xhigh => 5,
        ThinkingLevel::Max => 6,
    };
    let mut i = idx;
    while i < 7
        invariant
            idx <= i <= 7,
            idx == level.index(),
            !available@.contains(level),
            available@ == supported_spec(reasoning, match map_keys {
                Some(k) => Some(strs(k@)),
                None => None,
            }),
            all@ == all_levels(),
            level_up(available@, idx as int) == level_up(available@, i as int),
        decreases 7 - i,
    {
        if contains_level(&available, all[i]) {
            return all[i];
        }
        i += 1;
    }
    let mut j = idx;
    while j > 0
        invariant
            j <= idx,
            idx == level.index(),
            !available@.contains(level),
            available@ == supported_spec(reasoning, match map_keys {
                Some(k) => Some(strs(k@)),
                None => None,
            }),
            all@ == all_levels(),
            level_up(available@, idx as int) is None,
            level_down(available@, idx as int) == level_down(available@, j as int),
        decreases j,
    {
        if contains_level(&available, all[j - 1]) {
            return all[j - 1];
        }
        j -= 1;
    }
    if available.len() > 0 {
        available[0]
    } else {
        ThinkingLevel::Off
    }
}

/// Every supported level set contains `off`, so clamping always yields a
/// level the model supports.
pub proof fn lemma_clamp_is_supported(reasoning: bool, map_keys: Option<Seq<Seq<char>>>, level: ThinkingLevel)
    ensures
        supported_spec(reasoning, map_keys).contains(clamp_spec(supported_spec(reasoning, map_keys), level)),
{
    let avail = supported_spec(reasoning, map_keys);
    assert(avail[0] == ThinkingLevel::Off);
    assert(avail.contains(ThinkingLevel::Off));
    if !avail.contains(level) {
        lemma_level_up_in(avail, level.index());
        lemma_level_down_in(avail, level.index());
        if level_up(avail, level.index()) is None {
            lemma_level_down_finds_off(avail, level.index());
        }
    }
}

proof fn lemma_level_up_in(avail: Seq<ThinkingLevel>, i: int)
    ensures
        level_up(avail, i) matches Some(l) ==> avail.contains(l),
    decreases 7 - i,
{
    if 0 <= i < 7 && !avail.contains(all_levels()[i]) {
        lemma_level_up_in(avail, i + 1);
    }
}

proof fn lemma_level_down_in(avail: Seq<ThinkingLevel>, i: int)
    ensures
        level_down(avail, i) matches Some(l) ==> avail.contains(l),
    decreases i,
{
    if i > 0 && !avail.contains(all_levels()[i - 1]) {
        lemma_level_down_in(avail, i - 1);
    }
}

proof fn lemma_level_down_finds_off(avail: Seq<ThinkingLevel>, i: int)
    requires
        avail.contains(ThinkingLevel::Off),
        i >= 1,
    ensures
        level_down(avail, i) is Some,
    decreases i,
{
    if i > 1 && !avail.contains(all_levels()[i - 1]) {
        lemma_level_down_finds_off(avail, i - 1);
    }
}

#[derive(Debug, Clone, Copy, PartialEq, Eq, Structural)]
pub enum MaxTokensField {
    MaxTokens,
    MaxCompletionTokens,
}

#[derive(Debug, Clone, Copy, PartialEq, Eq, Structural)]
pub enum ThinkingFormat {
    Openai,
    Openrouter,
    Deepseek,
    Together,
    Baseten,
    Zai,
    Qwen,
    ChatTemplate,
    QwenChatTemplate,
    StringThinking,
    AntLing,
}

#[derive(Debug, Clone, Copy, PartialEq, Eq, Structural)]
pub enum CacheControlFormat {
    Anthropic,
}

// ---------------------------------------------------------------------------
// Content
// ---------------------------------------------------------------------------

#[derive(Debug, Clone, PartialEq)]
pub struct TextContent {
    pub text: String,
    pub text_signature: Option<String>,
}

#[derive(Debug, Clone, PartialEq)]
pub struct ThinkingContent {
    pub thinking: String,
    pub thinking_signature: Option<String>,
    pub redacted: Option<bool>,
}

#[derive(Debug, Clone, PartialEq)]
pub struct ImageContent {
    /// Base64 payload.
    pub data: String,
    pub mime_type: String,
}

/// User-visible input content: text or image.
#[derive(Debug, Clone, PartialEq)]
pub enum UserContent {
    Text(TextContent),
    Image(ImageContent),
}

impl UserContent {
    /// A text block without signature.
    pub fn text(s: &str) -> (r: UserContent)
        ensures
            r matches UserContent::Text(t) && t.text@ == s@ && t.text_signature is None,
    {
        UserContent::Text(TextContent { text: to_string(s), text_signature: None })
    }
}

/// A user message's content: plain text or content blocks.
#[derive(Debug, Clone, PartialEq)]
pub enum UserMessageContent {
    Text(String),
    Blocks(Vec<UserContent>),
}

/// The texts of the first `k` blocks that are text blocks.
pub open spec fn block_texts(b: Seq<UserContent>, k: int) -> Seq<Seq<char>>
    decreases k,
{
    if k <= 0 {
        Seq::empty()
    } else {
        let prev = block_texts(b, k - 1);
        match b[k - 1] {
            UserContent::Text(t) => prev.push(t.text@),
            UserContent::Image(_) => prev,
        }
    }
}

impl UserMessageContent {
    pub open spec fn text_spec(self) -> Seq<char> {
        match self {
            UserMessageContent::Text(s) => s@,
            UserMessageContent::Blocks(b) => join_spec(block_texts(b@, b@.len() as int), seq!['\n']),
        }
    }

    /// The text: the plain text, or the text blocks joined by newlines.
    pub fn text(&self) -> (r: String)
        ensures
            r@ == self.text_spec(),
    {
        match self {
            UserMessageContent::Text(s) => to_string(s.as_str()),
            UserMessageContent::Blocks(b) => {
                let mut parts: Vec<Vec<char>> = Vec::new();
                let mut i: usize = 0;
                assert(views(parts@) =~= Seq::<Seq<char>>::empty());
                while i < b.len()
                    invariant
                        i <= b@.len(),
                        views(parts@) == block_texts(b@, i as int),
                    decreases b.len() - i,
                {
                    match &b[i] {
                        UserContent::Text(t) => {
                            let c = chars_of(t.text.as_str());
                            let ghost before = views(parts@);
                            parts.push(c);
                            assert(views(parts@) =~= before.push(c@));
                        },
                        UserContent::Image(_) => {},
                    }
                    i += 1;
                }
                let nl = ['\n'];
                assert(nl@ == seq!['\n']);
                string_of(&join(&parts, &nl))
            },
        }
    }
}

#[derive(Debug, Clone, PartialEq)]
pub struct UserMessage {
    pub content: UserMessageContent,
    pub timestamp: i64,
}

// ---------------------------------------------------------------------------
// Views: the same content with every string taken as its characters
// ---------------------------------------------------------------------------

/// The characters of an optional string.
pub open spec fn opt_chars(o: Option<String>) -> Option<Seq<char>> {
    match o {
        Some(s) => Some(s@),
        None => None,
    }
}

pub struct TextView {
    pub text: Seq<char>,
    pub signature: Option<Seq<char>>,
}

pub struct ThinkingView {
    pub thinking: Seq<char>,
    pub signature: Option<Seq<char>>,
    pub redacted: Option<bool>,
}

pub struct ImageView {
    pub data: Seq<char>,
    pub mime_type: Seq<char>,
}

pub enum UserContentView {
    Text(TextView),
    Image(ImageView),
}

pub enum UserMessageContentView {
    Text(Seq<char>),
    Blocks(Seq<UserContentView>),
}

pub struct UserMessageView {
    pub content: UserMessageContentView,
    pub timestamp: i64,
}

impl View for TextContent {
    type V = TextView;

    open spec fn view(&self) -> TextView {
        TextView { text: self.text@, signature: opt_chars(self.text_signature) }
    }
}

impl View for ThinkingContent {
    type V = ThinkingView;

    open spec fn view(&self) -> ThinkingView {
        ThinkingView {
            thinking: self.thinking@,
            signature: opt_chars(self.thinking_signature),
            redacted: self.redacted,
        }
    }
}

impl View for ImageContent {
    type V = ImageView;

    open spec fn view(&self) -> ImageView {
        ImageView { data: self.data@, mime_type: self.mime_type@ }
    }
}

impl View for UserContent {
    type V = UserContentView;

    open spec fn view(&self) -> UserContentView {
        match self {
            UserContent::Text(t) => UserContentView::Text(t@),
            UserContent::Image(i) => UserContentView::Image(i@),
        }
    }
}

/// The views of a sequence of content blocks.
pub open spec fn blocks_view(b: Seq<UserContent>) -> Seq<UserContentView> {
    b.map_values(|c: UserContent| c@)
}

impl View for UserMessageContent {
    type V = UserMessageContentView;

    open spec fn view(&self) -> UserMessageContentView {
        match self {
            UserMessageContent::Text(s) => UserMessageContentView::Text(s@),
            UserMessageContent::Blocks(b) => UserMessageContentView::Blocks(blocks_view(b@)),
        }
    }
}

impl View for UserMessage {
    type V = UserMessageView;

    open spec fn view(&self) -> UserMessageView {
        UserMessageView { content: self.content@, timestamp: self.timestamp }
    }
}

fn copy_opt_string(o: &Option<String>) -> (r: Option<String>)
    ensures
        opt_chars(r) == opt_chars(*o),
{
    match o {
        Some(s) => Some(s.clone()),
        None => None,
    }
}

impl TextContent {
    /// A copy with the same text and signature.
    pub fn copy(&self) -> (r: TextContent)
        ensures
            r@ == self@,
    {
        TextContent { text: self.text.clone(), text_signature: copy_opt_string(&self.text_signature) }
    }
}

impl UserContent {
    /// A copy with the same content.
    pub fn copy(&self) -> (r: UserContent)
        ensures
            r@ == self@,
    {
        match self {
            UserContent::Text(t) => UserContent::Text(t.copy()),
            UserContent::Image(i) => UserContent::Image(
                ImageContent { data: i.data.clone(), mime_type: i.mime_type.clone() },
            ),
        }
    }
}

/// Why an assistant turn ended.
#[derive(Debug, Clone, Copy, PartialEq, Eq, Structural, Hash)]
pub enum StopReason {
    Pending,
    Stop,
    Length,
    ToolUse,
    Error,
    Aborted,
    Deferred,
}

impl StopReason {
    pub open spec fn name(self) -> Seq<char> {
        match self {
            StopReason::Pending => "pending"@,
            StopReason::Stop => "stop"@,
            StopReason::Length => "length"@,
            StopReason::ToolUse => "toolUse"@,
            StopReason::Error => "error"@,
            StopReason::Aborted => "aborted"@,
            StopReason::Deferred => "deferred"@,
        }
    }

    pub fn as_str(&self) -> (r: &'static str)
        ensures
            r@ == self.name(),
    {
        match self {
            StopReason::Pending => "pending",
            StopReason::Stop => "stop",
            StopReason::Length => "length",
            StopReason::ToolUse => "toolUse",
            StopReason::Error => "error",
            StopReason::Aborted => "aborted",
            StopReason::Deferred => "deferred",
        }
    }
}

#[derive(Debug, Clone, PartialEq)]
pub struct ToolReference {
    pub name: String,
}

} // verus!
