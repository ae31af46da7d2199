//! Cross-model message normalization: downgrade images for models without
//! vision, strip or convert thinking blocks when the transcript came from a
//! different model, normalize tool-call ids, drop errored or aborted
//! assistant turns, and synthesize results for tool calls left without an
//! answer, so that a provider never sees a call without its result.

use vstd::prelude::*;
use crate::messages::{
    now_ms, contents_view, messages_view, AssistantContent, AssistantContentView, AssistantMessage,
    AssistantMessageView, Message, MessageView, ModelIdentity, ModelView, ToolCall, ToolCallView,
    ToolResultMessage, ToolResultView,
};
use crate::text::{to_string, trim_spec, trim_str};
use crate::types::{
    strs, blocks_view, opt_chars, StopReason, TextContent, TextView, ThinkingView, UserContent,
    UserContentView, UserMessage, UserMessageContent, UserMessageContentView, UserMessageView,
};

verus! {

pub const NON_VISION_USER_IMAGE_PLACEHOLDER: &'static str = "(image omitted: model does not support images)";

pub const NON_VISION_TOOL_IMAGE_PLACEHOLDER: &'static str = "(tool image omitted: model does not support images)";

pub const MISSING_TOOL_RESULT_TEXT: &'static str = "No result provided";

// ---------------------------------------------------------------------------
// Image downgrade
// ---------------------------------------------------------------------------

/// A text block without signature.
pub open spec fn text_block(text: Seq<char>) -> UserContentView {
    UserContentView::Text(TextView { text, signature: None })
}

/// The first `k` blocks with images replaced by the placeholder, and whether
/// the last block kept is the placeholder. Consecutive images, and an image
/// right after a placeholder text, leave a single placeholder.
pub open spec fn replace_images_upto(c: Seq<UserContentView>, ph: Seq<char>, k: int) -> (
    Seq<UserContentView>,
    bool,
)
    decreases k,
{
    if k <= 0 {
        (Seq::empty(), false)
    } else {
        let prev = replace_images_upto(c, ph, k - 1);
        match c[k - 1] {
            UserContentView::Image(_) => (
                if prev.1 {
                    prev.0
                } else {
                    prev.0.push(text_block(ph))
                },
                true,
            ),
            UserContentView::Text(t) => (prev.0.push(c[k - 1]), t.text == ph),
        }
    }
}

pub open spec fn replace_images_spec(c: Seq<UserContentView>, ph: Seq<char>) -> Seq<UserContentView> {
    replace_images_upto(c, ph, c.len() as int).0
}

/// One message as a model without vision receives it.
pub open spec fn downgrade_message<U>(m: MessageView<U>) -> MessageView<U> {
    match m {
        MessageView::User(u) => match u.content {
            UserMessageContentView::Blocks(b) => MessageView::User(
                UserMessageView {
                    content: UserMessageContentView::Blocks(
                        replace_images_spec(b, NON_VISION_USER_IMAGE_PLACEHOLDER@),
                    ),
                    timestamp: u.timestamp,
                },
            ),
            UserMessageContentView::Text(_) => m,
        },
        MessageView::ToolResult(t) => MessageView::ToolResult(
            ToolResultView {
                tool_call_id: t.tool_call_id,
                tool_name: t.tool_name,
                content: replace_images_spec(t.content, NON_VISION_TOOL_IMAGE_PLACEHOLDER@),
                details: t.details,
                usage: t.usage,
                is_error: t.is_error,
                timestamp: t.timestamp,
            },
        ),
        _ => m,
    }
}

pub open spec fn downgrade_spec<U>(ms: Seq<MessageView<U>>, supports_images: bool) -> Seq<
    MessageView<U>,
> {
    if supports_images {
        ms
    } else {
        ms.map_values(|m: MessageView<U>| downgrade_message(m))
    }
}

fn replace_images_with_placeholder(content: &Vec<UserContent>, placeholder: &str) -> (out: Vec<
    UserContent,
>)
    ensures
        blocks_view(out@) == replace_images_spec(blocks_view(content@), placeholder@),
{
    let ghost c = blocks_view(content@);
    let ph = to_string(placeholder);
    let mut out: Vec<UserContent> = Vec::new();
    let mut prev_was_placeholder = false;
    let mut i: usize = 0;
    while i < content.len()
        invariant
            i <= content@.len(),
            c == blocks_view(content@),
            ph@ == placeholder@,
            blocks_view(out@) == replace_images_upto(c, placeholder@, i as int).0,
            prev_was_placeholder == replace_images_upto(c, placeholder@, i as int).1,
        decreases content.len() - i,
    {
        let ghost before = blocks_view(out@);
        match &content[i] {
            UserContent::Image(_) => {
                if !prev_was_placeholder {
                    let b = UserContent::text(placeholder);
                    out.push(b);
                    assert(blocks_view(out@) =~= before.push(text_block(placeholder@)));
                }
                prev_was_placeholder = true;
            },
            UserContent::Text(t) => {
                prev_was_placeholder = t.text == ph;
                let b = content[i].copy();
                out.push(b);
                assert(blocks_view(out@) =~= before.push(c[i as int]));
            },
        }
        i += 1;
    }
    out
}

fn downgrade_one<U>(m: Message<U>) -> (r: Message<U>)
    ensures
        r@ == downgrade_message(m@),
{
    match m {
        Message::User(u) => {
            match &u.content {
                UserMessageContent::Blocks(blocks) => {
                    let b = replace_images_with_placeholder(blocks, NON_VISION_USER_IMAGE_PLACEHOLDER);
                    Message::User(
                        UserMessage { content: UserMessageContent::Blocks(b), timestamp: u.timestamp },
                    )
                },
                UserMessageContent::Text(_) => Message::User(u),
            }
        },
        Message::ToolResult(t) => {
            let content = replace_images_with_placeholder(&t.content, NON_VISION_TOOL_IMAGE_PLACEHOLDER);
            Message::ToolResult(
                ToolResultMessage {
                    tool_call_id: t.tool_call_id,
                    tool_name: t.tool_name,
                    content,
                    details: t.details,
                    usage: t.usage,
                    is_error: t.is_error,
                    timestamp: t.timestamp,
                },
            )
        },
        other => other,
    }
}

/// Replace image blocks by a placeholder text when the model has no vision.
pub fn downgrade_unsupported_images<U>(messages: Vec<Message<U>>, model: &ModelIdentity) -> (out: Vec<
    Message<U>,
>)
    ensures
        messages_view(out@) == downgrade_spec(messages_view(messages@), model@.supports_images()),
{
    if model.supports_images() {
        return messages;
    }
    let ghost ms = messages_view(messages@);
    let mut out: Vec<Message<U>> = Vec::new();
    for m in it: messages
        invariant
            it.seq() == messages@,
            ms == messages_view(messages@),
            messages_view(out@) == ms.take(it.index() as int).map_values(
                |x: MessageView<U>| downgrade_message(x),
            ),
    {
        let ghost before = messages_view(out@);
        assert(m == messages@[it.index() as int]);
        assert(ms[it.index() as int] == m@);
        let d = downgrade_one(m);
        out.push(d);
        assert(messages_view(out@) =~= before.push(d@));
        assert(messages_view(out@) =~= ms.take(it.index() as int + 1).map_values(
            |x: MessageView<U>| downgrade_message(x),
        ));
    }
    assert(ms.take(ms.len() as int) =~= ms);
    out
}

// ---------------------------------------------------------------------------
// Thinking blocks and tool-call ids
// ---------------------------------------------------------------------------

/// Whether an assistant turn was produced by `model` itself.
pub open spec fn same_model<U>(a: AssistantMessageView<U>, model: ModelView) -> bool {
    a.provider == model.provider && a.api == model.api && a.model == model.id
}

/// A thinking block as the target model receives it: redacted thinking and
/// signed thinking stay only for the same model, empty thinking goes, and
/// another model gets the thinking as plain text.
pub open spec fn convert_thinking(th: ThinkingView, same: bool) -> Option<AssistantContentView> {
    if th.redacted == Some(true) {
        if same {
            Some(AssistantContentView::Thinking(th))
        } else {
            None
        }
    } else if same && th.signature is Some {
        Some(AssistantContentView::Thinking(th))
    } else if trim_spec(th.thinking).len() == 0 {
        None
    } else if same {
        Some(AssistantContentView::Thinking(th))
    } else {
        Some(AssistantContentView::Text(TextView { text: th.thinking, signature: None }))
    }
}

/// Text blocks lose their signature when the model changes.
pub open spec fn convert_text(t: TextView, same: bool) -> AssistantContentView {
    if same {
        AssistantContentView::Text(t)
    } else {
        AssistantContentView::Text(TextView { text: t.text, signature: None })
    }
}

/// Tool-call ids renamed so far, and how many normalizer answers were used.
pub struct Renames {
    pub map: Map<Seq<char>, Seq<char>>,
    pub used: nat,
}

/// The first `j` blocks of an assistant turn converted for the target
/// model. A tool call from another model loses its thought signature and,
/// with a normalizer, takes the next answer as its id; a changed id is
/// remembered so that its result can follow.
pub open spec fn convert_blocks_upto(
    bs: Seq<AssistantContentView>,
    same: bool,
    answers: Option<Seq<Seq<char>>>,
    start: Renames,
    j: int,
) -> (Seq<AssistantContentView>, Renames)
    decreases j,
{
    if j <= 0 {
        (Seq::empty(), start)
    } else {
        let prev = convert_blocks_upto(bs, same, answers, start, j - 1);
        match bs[j - 1] {
            AssistantContentView::Thinking(th) => match convert_thinking(th, same) {
                Some(b) => (prev.0.push(b), prev.1),
                None => prev,
            },
            AssistantContentView::Text(t) => (prev.0.push(convert_text(t, same)), prev.1),
            AssistantContentView::ToolCall(tc) => if same {
                (prev.0.push(bs[j - 1]), prev.1)
            } else {
                match answers {
                    None => (
                        prev.0.push(
                            AssistantContentView::ToolCall(
                                ToolCallView {
                                    id: tc.id,
                                    name: tc.name,
                                    arguments: tc.arguments,
                                    thought_signature: None,
                                    namespace: tc.namespace,
                                },
                            ),
                        ),
                        prev.1,
                    ),
                    Some(a) => {
                        let n = a[prev.1.used as int];
                        (
                            prev.0.push(
                                AssistantContentView::ToolCall(
                                    ToolCallView {
                                        id: n,
                                        name: tc.name,
                                        arguments: tc.arguments,
                                        thought_signature: None,
                                        namespace: tc.namespace,
                                    },
                                ),
                            ),
                            Renames {
                                map: if n != tc.id {
                                    prev.1.map.insert(tc.id, n)
                                } else {
                                    prev.1.map
                                },
                                used: prev.1.used + 1,
                            },
                        )
                    },
                }
            },
        }
    }
}

/// The first `i` messages after thinking conversion and id normalization:
/// a tool result follows the rename of its call.
pub open spec fn first_pass_upto<U>(
    ms: Seq<MessageView<U>>,
    model: ModelView,
    answers: Option<Seq<Seq<char>>>,
    i: int,
) -> (Seq<MessageView<U>>, Renames)
    decreases i,
{
    if i <= 0 {
        (Seq::empty(), Renames { map: Map::empty(), used: 0 })
    } else {
        let prev = first_pass_upto(ms, model, answers, i - 1);
        match ms[i - 1] {
            MessageView::ToolResult(t) => (
                prev.0.push(
                    MessageView::ToolResult(
                        ToolResultView {
                            tool_call_id: if prev.1.map.dom().contains(t.tool_call_id) {
                                prev.1.map[t.tool_call_id]
                            } else {
                                t.tool_call_id
                            },
                            tool_name: t.tool_name,
                            content: t.content,
                            details: t.details,
                            usage: t.usage,
                            is_error: t.is_error,
                            timestamp: t.timestamp,
                        },
                    ),
                ),
                prev.1,
            ),
            MessageView::Assistant(a) => {
                let r = convert_blocks_upto(
                    a.content,
                    same_model(a, model),
                    answers,
                    prev.1,
                    a.content.len() as int,
                );
                (prev.0.push(MessageView::Assistant(with_content(a, r.0))), r.1)
            },
            _ => (prev.0.push(ms[i - 1]), prev.1),
        }
    }
}

pub open spec fn with_content<U>(a: AssistantMessageView<U>, c: Seq<AssistantContentView>) -> AssistantMessageView<U> {
    AssistantMessageView {
        content: c,
        api: a.api,
        provider: a.provider,
        model: a.model,
        response_model: a.response_model,
        response_id: a.response_id,
        usage: a.usage,
        stop_reason: a.stop_reason,
        error_message: a.error_message,
        raw_stop_reason: a.raw_stop_reason,
        end_turn: a.end_turn,
        timestamp: a.timestamp,
    }
}

pub open spec fn first_pass_spec<U>(
    ms: Seq<MessageView<U>>,
    model: ModelView,
    answers: Option<Seq<Seq<char>>>,
) -> Seq<MessageView<U>> {
    first_pass_upto(ms, model, answers, ms.len() as int).0
}

/// The ids of the tool calls among the first `j` blocks.
pub open spec fn call_ids(bs: Seq<AssistantContentView>, j: int) -> Seq<Seq<char>>
    decreases j,
{
    if j <= 0 {
        Seq::empty()
    } else {
        match bs[j - 1] {
            AssistantContentView::ToolCall(tc) => call_ids(bs, j - 1).push(tc.id),
            _ => call_ids(bs, j - 1),
        }
    }
}

/// The ids handed to the normalizer, in order: those of the tool calls in
/// the first `i` messages that another model produced.
pub open spec fn foreign_call_ids<U>(ms: Seq<MessageView<U>>, model: ModelView, i: int) -> Seq<
    Seq<char>,
>
    decreases i,
{
    if i <= 0 {
        Seq::empty()
    } else {
        match ms[i - 1] {
            MessageView::Assistant(a) => if same_model(a, model) {
                foreign_call_ids(ms, model, i - 1)
            } else {
                foreign_call_ids(ms, model, i - 1) + call_ids(a.content, a.content.len() as int)
            },
            _ => foreign_call_ids(ms, model, i - 1),
        }
    }
}

/// `r` is what the normalizer `f` may answer for `id`.
pub open spec fn answered<F: Fn(&str) -> String>(f: F, id: Seq<char>, r: Seq<char>) -> bool {
    exists|s: &str, out: String| s@ == id && out@ == r && #[trigger] call_ensures(f, (s,), out)
}

/// `answers` are the normalizer's answers for `ids`, one each, in order.
pub open spec fn answers_for<F: Fn(&str) -> String>(f: F, ids: Seq<Seq<char>>, answers: Seq<Seq<char>>) -> bool {
    &&& answers.len() == ids.len()
    &&& forall|k: int| 0 <= k < ids.len() ==> #[trigger] answered(f, ids[k], answers[k])
}

pub open spec fn answer_views(answers: Option<&Vec<String>>) -> Option<Seq<Seq<char>>> {
    match answers {
        Some(a) => Some(strs(a@)),
        None => None,
    }
}

/// The renames recorded in an append-only list: the last entry for a key wins.
pub open spec fn last_rename(v: Seq<(String, String)>, k: Seq<char>) -> Option<Seq<char>>
    decreases v.len(),
{
    if v.len() == 0 {
        None
    } else if v.last().0@ == k {
        Some(v.last().1@)
    } else {
        last_rename(v.drop_last(), k)
    }
}

pub open spec fn renames_map(v: Seq<(String, String)>) -> Map<Seq<char>, Seq<char>> {
    Map::new(|k: Seq<char>| last_rename(v, k) is Some, |k: Seq<char>| last_rename(v, k).unwrap())
}

proof fn lemma_renames_push(v: Seq<(String, String)>, a: String, b: String)
    ensures
        renames_map(v.push((a, b))) == renames_map(v).insert(a@, b@),
{
    let w = v.push((a, b));
    assert(w.drop_last() =~= v);
    assert forall|k: Seq<char>| #[trigger] last_rename(w, k) == if k == a@ { Some(b@) } else { last_rename(v, k) } by {
    }
    assert(renames_map(w) =~= renames_map(v).insert(a@, b@));
}

fn lookup_rename(renames: &Vec<(String, String)>, id: &String) -> (r: Option<String>)
    ensures
        r matches Some(n) ==> renames_map(renames@).dom().contains(id@) && renames_map(renames@)[id@] == n@,
        r is None ==> !renames_map(renames@).dom().contains(id@),
{
    let mut i = renames.len();
    assert(renames@.take(i as int) =~= renames@);
    while i > 0
        invariant
            i <= renames@.len(),
            last_rename(renames@, id@) == last_rename(renames@.take(i as int), id@),
        decreases i,
    {
        let ghost t = renames@.take(i as int);
        assert(t.drop_last() =~= renames@.take(i - 1));
        if renames[i - 1].0 == *id {
            return Some(renames[i - 1].1.clone());
        }
        i -= 1;
    }
    None
}

fn convert_blocks(
    content: Vec<AssistantContent>,
    same: bool,
    answers: Option<&Vec<String>>,
    renames: &mut Vec<(String, String)>,
    used: &mut usize,
) -> (out: Vec<AssistantContent>)
    requires
        !same ==> (answers matches Some(a) ==> *old(used) + call_ids(
            contents_view(content@),
            content@.len() as int,
        ).len() <= a@.len()),
    ensures
        ({
            let r = convert_blocks_upto(
                contents_view(content@),
                same,
                answer_views(answers),
                Renames { map: renames_map(old(renames)@), used: *old(used) as nat },
                content@.len() as int,
            );
            &&& contents_view(out@) == r.0
            &&& renames_map(final(renames)@) == r.1.map
            &&& *final(used) == r.1.used
        }),
        *final(used) == *old(used) + if answers is Some && !same {
            call_ids(contents_view(content@), content@.len() as int).len()
        } else {
            0
        },
{
    let ghost cv = contents_view(content@);
    let ghost av = answer_views(answers);
    let ghost start = Renames { map: renames_map(renames@), used: *used as nat };
    let ghost used0 = *used;
    let mut out: Vec<AssistantContent> = Vec::new();
    for b in it: content
        invariant
            it.seq() == content@,
            cv == contents_view(content@),
            av == answer_views(answers),
            !same ==> (answers matches Some(a) ==> used0 + call_ids(cv, cv.len() as int).len() <= a@.len()),
            ({
                let r = convert_blocks_upto(cv, same, av, start, it.index() as int);
                &&& contents_view(out@) == r.0
                &&& renames_map(renames@) == r.1.map
                &&& *used == r.1.used
            }),
            *used == used0 + if answers is Some && !same {
                call_ids(cv, it.index() as int).len()
            } else {
                0
            },
    {
        let ghost i = it.index() as int;
        let ghost before = contents_view(out@);
        assert(b == content@[i]);
        assert(cv[i] == b@);
        proof {
            lemma_call_ids_mono(cv, i + 1, cv.len() as int);
        }
        match b {
            AssistantContent::Thinking(th) => {
                let redacted = match th.redacted {
                    Some(x) => x,
                    None => false,
                };
                if redacted {
                    if same {
                        out.push(AssistantContent::Thinking(th));
                        assert(contents_view(out@) =~= before.push(cv[i]));
                    }
                } else if same && th.thinking_signature.is_some() {
                    out.push(AssistantContent::Thinking(th));
                    assert(contents_view(out@) =~= before.push(cv[i]));
                } else {
                    let trimmed = trim_str(th.thinking.as_str());
                    if trimmed.len() == 0 {
                    } else if same {
                        out.push(AssistantContent::Thinking(th));
                        assert(contents_view(out@) =~= before.push(cv[i]));
                    } else {
                        out.push(AssistantContent::Text(TextContent { text: th.thinking, text_signature: None }));
                        assert(contents_view(out@) =~= before.push(
                            AssistantContentView::Text(TextView { text: cv[i]->Thinking_0.thinking, signature: None }),
                        ));
                    }
                }
            },
            AssistantContent::Text(t) => {
                if same {
                    out.push(AssistantContent::Text(t));
                } else {
                    out.push(AssistantContent::Text(TextContent { text: t.text, text_signature: None }));
                }
                assert(contents_view(out@) =~= before.push(convert_text(cv[i]->Text_0, same)));
            },
            AssistantContent::ToolCall(tc) => {
                assert(call_ids(cv, i + 1) == call_ids(cv, i).push(tc@.id));
                let mut tc = tc;
                if !same {
                    tc.thought_signature = None;
                    match answers {
                        Some(a) => {
                            let alen = a.len();
                            let u = *used;
                            assert(u + 1 <= alen);
                            let n = a[u].clone();
                            if n != tc.id {
                                let old_id = tc.id.clone();
                                proof {
                                    lemma_renames_push(renames@, old_id, n);
                                }
                                renames.push((old_id, n.clone()));
                                tc.id = n;
                            }
                            *used = u + 1;
                        },
                        None => {},
                    }
                }
                let ghost tcv = AssistantContentView::ToolCall(tc@);
                out.push(AssistantContent::ToolCall(tc));
                assert(contents_view(out@) =~= before.push(tcv));
            },
        }
    }
    out
}

proof fn lemma_call_ids_mono(bs: Seq<AssistantContentView>, j: int, k: int)
    requires
        0 <= j <= k,
    ensures
        call_ids(bs, j).len() <= call_ids(bs, k).len(),
    decreases k - j,
{
    if j < k {
        lemma_call_ids_mono(bs, j, k - 1);
    }
}

proof fn lemma_foreign_mono<U>(ms: Seq<MessageView<U>>, model: ModelView, i: int, k: int)
    requires
        0 <= i <= k,
    ensures
        foreign_call_ids(ms, model, i).len() <= foreign_call_ids(ms, model, k).len(),
    decreases k - i,
{
    if i < k {
        lemma_foreign_mono(ms, model, i, k - 1);
    }
}

fn is_same_model<U>(a: &AssistantMessage<U>, model: &ModelIdentity) -> (r: bool)
    ensures
        r == same_model(a@, model@),
{
    a.provider == model.provider && a.api == model.api && a.model == model.id
}

/// Thinking conversion and tool-call id normalization, with the
/// normalizer's answers given in the order the calls occur.
fn convert_for_model<U>(messages: Vec<Message<U>>, model: &ModelIdentity, answers: Option<&Vec<String>>) -> (out: Vec<
    Message<U>,
>)
    requires
        answers matches Some(a) ==> a@.len() == foreign_call_ids(
            messages_view(messages@),
            model@,
            messages@.len() as int,
        ).len(),
    ensures
        messages_view(out@) == first_pass_spec(messages_view(messages@), model@, answer_views(answers)),
{
    let ghost ms = messages_view(messages@);
    let ghost mv = model@;
    let ghost av = answer_views(answers);
    let mut out: Vec<Message<U>> = Vec::new();
    let mut renames: Vec<(String, String)> = Vec::new();
    let mut used: usize = 0;
    assert(renames_map(renames@) =~= Map::<Seq<char>, Seq<char>>::empty());
    for m in it: messages
        invariant
            it.seq() == messages@,
            ms == messages_view(messages@),
            mv == model@,
            av == answer_views(answers),
            answers matches Some(a) ==> a@.len() == foreign_call_ids(ms, mv, ms.len() as int).len(),
            ({
                let r = first_pass_upto(ms, mv, av, it.index() as int);
                &&& messages_view(out@) == r.0
                &&& renames_map(renames@) == r.1.map
                &&& used == r.1.used
            }),
            used == if answers is Some {
                foreign_call_ids(ms, mv, it.index() as int).len()
            } else {
                0
            },
    {
        let ghost i = it.index() as int;
        let ghost before = messages_view(out@);
        assert(m == messages@[i]);
        assert(ms[i] == m@);
        proof {
            lemma_foreign_mono(ms, mv, i + 1, ms.len() as int);
        }
        match m {
            Message::ToolResult(t) => {
                let mut t = t;
                match lookup_rename(&renames, &t.tool_call_id) {
                    Some(n) => {
                        t.tool_call_id = n;
                    },
                    None => {},
                }
                let ghost tv = MessageView::ToolResult(t@);
                out.push(Message::ToolResult(t));
                assert(messages_view(out@) =~= before.push(tv));
            },
            Message::Assistant(a) => {
                let same = is_same_model(&a, model);
                let ghost av0 = a@;
                let AssistantMessage {
                    content,
                    api,
                    provider,
                    model: model_name,
                    response_model,
                    response_id,
                    usage,
                    stop_reason,
                    error_message,
                    raw_stop_reason,
                    end_turn,
                    timestamp,
                } = a;
                let c = convert_blocks(content, same, answers, &mut renames, &mut used);
                let na = AssistantMessage {
                    content: c,
                    api,
                    provider,
                    model: model_name,
                    response_model,
                    response_id,
                    usage,
                    stop_reason,
                    error_message,
                    raw_stop_reason,
                    end_turn,
                    timestamp,
                };
                let ghost nv = MessageView::Assistant(na@);
                out.push(Message::Assistant(na));
                assert(messages_view(out@) =~= before.push(nv));
            },
            other => {
                out.push(other);
                assert(messages_view(out@) =~= before.push(ms[i]));
            },
        }
    }
    out
}

/// Ask the normalizer for a new id for each tool call another model made.
fn ask_normalizer<U, F: Fn(&str) -> String>(messages: &Vec<Message<U>>, model: &ModelIdentity, f: &F) -> (answers: Vec<
    String,
>)
    requires
        forall|s: &str| #[trigger] f.requires((s,)),
    ensures
        answers_for(*f, foreign_call_ids(messages_view(messages@), model@, messages@.len() as int), strs(answers@)),
{
    let ghost ms = messages_view(messages@);
    let ghost mv = model@;
    let mut answers: Vec<String> = Vec::new();
    let mut i: usize = 0;
    while i < messages.len()
        invariant
            i <= messages@.len(),
            ms == messages_view(messages@),
            mv == model@,
            forall|s: &str| #[trigger] f.requires((s,)),
            answers_for(*f, foreign_call_ids(ms, mv, i as int), strs(answers@)),
        decreases messages.len() - i,
    {
        assert(ms[i as int] == messages@[i as int]@);
        match &messages[i] {
            Message::Assistant(a) => {
                if !is_same_model(a, model) {
                    let ghost cv = contents_view(a.content@);
                    let ghost base = foreign_call_ids(ms, mv, i as int);
                    let mut j: usize = 0;
                    assert(base + call_ids(cv, 0) =~= base);
                    while j < a.content.len()
                        invariant
                            j <= a.content@.len(),
                            cv == contents_view(a.content@),
                            forall|s: &str| #[trigger] f.requires((s,)),
                            answers_for(*f, base + call_ids(cv, j as int), strs(answers@)),
                        decreases a.content.len() - j,
                    {
                        assert(cv[j as int] == a.content@[j as int]@);
                        match &a.content[j] {
                            AssistantContent::ToolCall(tc) => {
                                let ghost ids = base + call_ids(cv, j as int);
                                let ghost old_answers = strs(answers@);
                                let s = tc.id.as_str();
                                let n = f(s);
                                assert(call_ensures(*f, (s,), n));
                                assert(answered(*f, tc.id@, n@));
                                answers.push(n);
                                assert(strs(answers@) =~= old_answers.push(n@));
                                assert(base + call_ids(cv, j + 1) =~= ids.push(tc.id@));
                                assert forall|k: int| 0 <= k < ids.len() + 1 implies #[trigger] answered(
                                    *f,
                                    ids.push(tc.id@)[k],
                                    strs(answers@)[k],
                                ) by {
                                    if k < ids.len() {
                                        assert(answered(*f, ids[k], old_answers[k]));
                                    }
                                }
                            },
                            _ => {
                                assert(call_ids(cv, j + 1) == call_ids(cv, j as int));
                            },
                        }
                        j += 1;
                    }
                    assert(cv.len() == a.content@.len());
                }
            },
            _ => {},
        }
        i += 1;
    }
    answers
}

// ---------------------------------------------------------------------------
// Orphaned tool calls and failed turns
// ---------------------------------------------------------------------------

/// State of the second pass: the messages emitted, the calls of the last
/// assistant turn still waiting for results, the ids answered since, and
/// the system messages held back while calls are pending.
#[verifier::ext_equal]
pub struct RepairState<U> {
    pub result: Seq<MessageView<U>>,
    pub pending: Seq<(Seq<char>, Seq<char>)>,
    pub answered: Set<Seq<char>>,
    pub held: Seq<MessageView<U>>,
}

/// The error result stood in for a call that got no answer.
pub open spec fn missing_result<U>(id: Seq<char>, name: Seq<char>, now: i64) -> MessageView<U> {
    MessageView::ToolResult(
        ToolResultView {
            tool_call_id: id,
            tool_name: name,
            content: seq![text_block(MISSING_TOOL_RESULT_TEXT@)],
            details: None,
            usage: None,
            is_error: true,
            timestamp: now,
        },
    )
}

/// Stand-in results for the first `k` pending calls that were not answered.
pub open spec fn missing_results_upto<U>(
    pending: Seq<(Seq<char>, Seq<char>)>,
    answered: Set<Seq<char>>,
    now: i64,
    k: int,
) -> Seq<MessageView<U>>
    decreases k,
{
    if k <= 0 {
        Seq::empty()
    } else {
        let prev = missing_results_upto(pending, answered, now, k - 1);
        if answered.contains(pending[k - 1].0) {
            prev
        } else {
            prev.push(missing_result(pending[k - 1].0, pending[k - 1].1, now))
        }
    }
}

/// Answer the pending calls that got no result, then release the held
/// system messages.
pub open spec fn close_pending<U>(st: RepairState<U>, now: i64) -> RepairState<U> {
    if st.pending.len() > 0 {
        RepairState {
            result: st.result + missing_results_upto(st.pending, st.answered, now, st.pending.len() as int)
                + st.held,
            pending: Seq::empty(),
            answered: Set::empty(),
            held: Seq::empty(),
        }
    } else {
        RepairState { result: st.result + st.held, pending: st.pending, answered: st.answered, held: Seq::empty() }
    }
}

/// `(id, name)` of the tool calls among the first `j` blocks.
pub open spec fn tool_calls_upto(bs: Seq<AssistantContentView>, j: int) -> Seq<(Seq<char>, Seq<char>)>
    decreases j,
{
    if j <= 0 {
        Seq::empty()
    } else {
        match bs[j - 1] {
            AssistantContentView::ToolCall(tc) => tool_calls_upto(bs, j - 1).push((tc.id, tc.name)),
            _ => tool_calls_upto(bs, j - 1),
        }
    }
}

pub open spec fn failed_turn(r: StopReason) -> bool {
    r == StopReason::Error || r == StopReason::Aborted
}

pub open spec fn repair_step<U>(st: RepairState<U>, m: MessageView<U>, now: i64) -> RepairState<U> {
    match m {
        MessageView::Assistant(a) => {
            let c = close_pending(st, now);
            if failed_turn(a.stop_reason) {
                c
            } else {
                let calls = tool_calls_upto(a.content, a.content.len() as int);
                if calls.len() > 0 {
                    RepairState { result: c.result.push(m), pending: calls, answered: Set::empty(), held: c.held }
                } else {
                    RepairState { result: c.result.push(m), pending: c.pending, answered: c.answered, held: c.held }
                }
            }
        },
        MessageView::ToolResult(t) => RepairState {
            result: st.result.push(m),
            pending: st.pending,
            answered: st.answered.insert(t.tool_call_id),
            held: st.held,
        },
        MessageView::System(_) => if st.pending.len() > 0 {
            RepairState { result: st.result, pending: st.pending, answered: st.answered, held: st.held.push(m) }
        } else {
            RepairState { result: st.result.push(m), pending: st.pending, answered: st.answered, held: st.held }
        },
        MessageView::User(_) => {
            let c = close_pending(st, now);
            RepairState { result: c.result.push(m), pending: c.pending, answered: c.answered, held: c.held }
        },
    }
}

pub open spec fn repair_upto<U>(ms: Seq<MessageView<U>>, now: i64, i: int) -> RepairState<U>
    decreases i,
{
    if i <= 0 {
        RepairState { result: Seq::empty(), pending: Seq::empty(), answered: Set::empty(), held: Seq::empty() }
    } else {
        repair_step(repair_upto(ms, now, i - 1), ms[i - 1], now)
    }
}

/// The transcript with failed assistant turns dropped, every tool call of a
/// kept turn answered (by an error result stamped `now` where none came
/// before the next assistant or user turn), and system messages that
/// arrived while calls were open moved after their results.
pub open spec fn repair_spec<U>(ms: Seq<MessageView<U>>, now: i64) -> Seq<MessageView<U>> {
    close_pending(repair_upto(ms, now, ms.len() as int), now).result
}

pub open spec fn pairs_view(p: Seq<(String, String)>) -> Seq<(Seq<char>, Seq<char>)> {
    p.map_values(|x: (String, String)| (x.0@, x.1@))
}

pub open spec fn state_view<U>(
    result: Seq<Message<U>>,
    pending: Seq<(String, String)>,
    answered: Seq<String>,
    held: Seq<Message<U>>,
) -> RepairState<U> {
    RepairState {
        result: messages_view(result),
        pending: pairs_view(pending),
        answered: strs(answered).to_set(),
        held: messages_view(held),
    }
}

proof fn lemma_push_to_set<A>(s: Seq<A>, x: A)
    ensures
        s.push(x).to_set() == s.to_set().insert(x),
{
    let t = s.push(x);
    assert forall|y: A| #[trigger] t.to_set().contains(y) == s.to_set().insert(x).contains(y) by {
        if t.contains(y) {
            let k = choose|k: int| 0 <= k < t.len() && t[k] == y;
            if k < s.len() {
                assert(s[k] == y);
            }
        }
        if s.contains(y) {
            let k = choose|k: int| 0 <= k < s.len() && s[k] == y;
            assert(t[k] == y);
        }
        if y == x {
            assert(t[s.len() as int] == y);
        }
    }
    assert(t.to_set() =~= s.to_set().insert(x));
}

pub proof fn lemma_push_to_set_pub<A>(s: Seq<A>, x: A)
    ensures
        s.push(x).to_set() == s.to_set().insert(x),
{
    lemma_push_to_set(s, x);
}

pub(crate) fn contains_string(v: &Vec<String>, s: &String) -> (r: bool)
    ensures
        r == strs(v@).contains(s@),
{
    let mut i: usize = 0;
    while i < v.len()
        invariant
            i <= v@.len(),
            forall|j: int| 0 <= j < i ==> strs(v@)[j] != s@,
        decreases v.len() - i,
    {
        if v[i] == *s {
            assert(strs(v@)[i as int] == s@);
            return true;
        }
        i += 1;
    }
    false
}

fn missing_result_message<U>(id: &String, name: &String, now: i64) -> (r: Message<U>)
    ensures
        r@ == missing_result::<U>(id@, name@, now),
{
    let mut content: Vec<UserContent> = Vec::new();
    content.push(UserContent::text(MISSING_TOOL_RESULT_TEXT));
    let r = Message::ToolResult(
        ToolResultMessage {
            tool_call_id: id.clone(),
            tool_name: name.clone(),
            content,
            details: None,
            usage: None,
            is_error: true,
            timestamp: now,
        },
    );
    assert(blocks_view(content@) =~= seq![text_block(MISSING_TOOL_RESULT_TEXT@)]);
    r
}

fn close_pending_exec<U>(
    result: &mut Vec<Message<U>>,
    pending: &mut Vec<(String, String)>,
    answered: &mut Vec<String>,
    held: &mut Vec<Message<U>>,
    now: i64,
)
    ensures
        state_view(final(result)@, final(pending)@, final(answered)@, final(held)@) == close_pending(
            state_view(old(result)@, old(pending)@, old(answered)@, old(held)@),
            now,
        ),
{
    let ghost st = state_view(result@, pending@, answered@, held@);
    if pending.len() > 0 {
        let mut k: usize = 0;
        while k < pending.len()
            invariant
                k <= pending@.len(),
                pending@.len() > 0,
                st.pending == pairs_view(pending@),
                st.answered == strs(answered@).to_set(),
                messages_view(result@) == st.result + missing_results_upto(st.pending, st.answered, now, k as int),
            decreases pending.len() - k,
        {
            let ghost before = messages_view(result@);
            assert(st.pending[k as int] == (pending@[k as int].0@, pending@[k as int].1@));
            if !contains_string(answered, &pending[k].0) {
                assert(!st.answered.contains(pending@[k as int].0@));
                let msg = missing_result_message(&pending[k].0, &pending[k].1, now);
                result.push(msg);
                assert(messages_view(result@) =~= before.push(
                    missing_result::<U>(pending@[k as int].0@, pending@[k as int].1@, now),
                ));
            } else {
                assert(st.answered.contains(pending@[k as int].0@));
            }
            k += 1;
        }
        pending.clear();
        answered.clear();
        let ghost mid = messages_view(result@);
        result.append(held);
        assert(messages_view(result@) =~= mid + st.held);
        assert(pairs_view(pending@) =~= Seq::<(Seq<char>, Seq<char>)>::empty());
        assert(strs(answered@).to_set() =~= Set::<Seq<char>>::empty());
        assert(messages_view(held@) =~= Seq::<MessageView<U>>::empty());
    } else {
        let ghost mid = messages_view(result@);
        result.append(held);
        assert(messages_view(result@) =~= mid + st.held);
        assert(messages_view(held@) =~= Seq::<MessageView<U>>::empty());
    }
}

fn tool_calls_of(content: &Vec<AssistantContent>) -> (calls: Vec<(String, String)>)
    ensures
        pairs_view(calls@) == tool_calls_upto(contents_view(content@), content@.len() as int),
{
    let ghost cv = contents_view(content@);
    let mut calls: Vec<(String, String)> = Vec::new();
    let mut j: usize = 0;
    while j < content.len()
        invariant
            j <= content@.len(),
            cv == contents_view(content@),
            pairs_view(calls@) == tool_calls_upto(cv, j as int),
        decreases content.len() - j,
    {
        assert(cv[j as int] == content@[j as int]@);
        match &content[j] {
            AssistantContent::ToolCall(tc) => {
                let ghost before = pairs_view(calls@);
                calls.push((tc.id.clone(), tc.name.clone()));
                assert(pairs_view(calls@) =~= before.push((tc.id@, tc.name@)));
            },
            _ => {},
        }
        j += 1;
    }
    calls
}

/// Drop failed assistant turns and answer orphaned tool calls; stand-in
/// results carry the timestamp `now`.
pub fn repair_tool_results<U>(messages: Vec<Message<U>>, now: i64) -> (out: Vec<Message<U>>)
    ensures
        messages_view(out@) == repair_spec(messages_view(messages@), now),
{
    let ghost ms = messages_view(messages@);
    let mut result: Vec<Message<U>> = Vec::new();
    let mut pending: Vec<(String, String)> = Vec::new();
    let mut answered: Vec<String> = Vec::new();
    let mut held: Vec<Message<U>> = Vec::new();
    assert(state_view(result@, pending@, answered@, held@) =~= repair_upto(ms, now, 0)) by {
        assert(strs(answered@).to_set() =~= Set::<Seq<char>>::empty());
        assert(messages_view(result@) =~= Seq::<MessageView<U>>::empty());
        assert(messages_view(held@) =~= Seq::<MessageView<U>>::empty());
        assert(pairs_view(pending@) =~= Seq::<(Seq<char>, Seq<char>)>::empty());
    }
    for m in it: messages
        invariant
            it.seq() == messages@,
            ms == messages_view(messages@),
            state_view(result@, pending@, answered@, held@) == repair_upto(ms, now, it.index() as int),
    {
        let ghost i = it.index() as int;
        let ghost st = state_view(result@, pending@, answered@, held@);
        assert(m == messages@[i]);
        assert(ms[i] == m@);
        let ghost mv = m@;
        match m {
            Message::Assistant(a) => {
                close_pending_exec(&mut result, &mut pending, &mut answered, &mut held, now);
                let failed = match a.stop_reason {
                    StopReason::Error => true,
                    StopReason::Aborted => true,
                    _ => false,
                };
                if !failed {
                    let calls = tool_calls_of(&a.content);
                    if calls.len() > 0 {
                        pending = calls;
                        answered.clear();
                    }
                    let ghost before = messages_view(result@);
                    result.push(Message::Assistant(a));
                    assert(messages_view(result@) =~= before.push(mv));
                    assert(strs(answered@).to_set() =~= Set::<Seq<char>>::empty()
                        || calls@.len() == 0);
                }
                assert(state_view(result@, pending@, answered@, held@) =~= repair_step(st, mv, now));
            },
            Message::ToolResult(t) => {
                let ghost before = messages_view(result@);
                let ghost ans0 = strs(answered@);
                answered.push(t.tool_call_id.clone());
                assert(strs(answered@) =~= ans0.push(t.tool_call_id@));
                result.push(Message::ToolResult(t));
                assert(messages_view(result@) =~= before.push(mv));
                proof {
                    lemma_push_to_set(ans0, mv->ToolResult_0.tool_call_id);
                }
                assert(state_view(result@, pending@, answered@, held@) =~= repair_step(st, mv, now));
            },
            Message::System(sys) => {
                if pending.len() > 0 {
                    let ghost before = messages_view(held@);
                    held.push(Message::System(sys));
                    assert(messages_view(held@) =~= before.push(mv));
                } else {
                    let ghost before = messages_view(result@);
                    result.push(Message::System(sys));
                    assert(messages_view(result@) =~= before.push(mv));
                }
                assert(state_view(result@, pending@, answered@, held@) =~= repair_step(st, mv, now));
            },
            Message::User(u) => {
                close_pending_exec(&mut result, &mut pending, &mut answered, &mut held, now);
                let ghost before = messages_view(result@);
                result.push(Message::User(u));
                assert(messages_view(result@) =~= before.push(mv));
                assert(state_view(result@, pending@, answered@, held@) =~= repair_step(st, mv, now));
            },
        }
    }
    close_pending_exec(&mut result, &mut pending, &mut answered, &mut held, now);
    result
}

// ---------------------------------------------------------------------------
// The whole normalization
// ---------------------------------------------------------------------------

/// A transcript as `model` receives it, given the normalizer's answers (in
/// the order of [`foreign_call_ids`]) and the time stamped on stand-in results.
pub open spec fn transform_spec<U>(
    ms: Seq<MessageView<U>>,
    model: ModelView,
    answers: Option<Seq<Seq<char>>>,
    now: i64,
) -> Seq<MessageView<U>> {
    repair_spec(first_pass_spec(downgrade_spec(ms, model.supports_images()), model, answers), now)
}

/// The ids the normalizer is asked about: those of the tool calls that
/// another model produced.
pub open spec fn normalized_ids<U>(ms: Seq<MessageView<U>>, model: ModelView) -> Seq<Seq<char>> {
    foreign_call_ids(downgrade_spec(ms, model.supports_images()), model, ms.len() as int)
}

/// What `transform_messages_at` returns: with a normalizer, the transform
/// under some answers it may give for the ids, one call per id in order.
pub open spec fn transformed_by<U, F: Fn(&str) -> String>(
    ms: Seq<MessageView<U>>,
    model: ModelView,
    normalize: Option<&F>,
    now: i64,
    out: Seq<MessageView<U>>,
) -> bool {
    match normalize {
        None => out == transform_spec(ms, model, None, now),
        Some(f) => exists|answers: Seq<Seq<char>>|
            answers_for(*f, normalized_ids(ms, model), answers) && out == #[trigger] transform_spec(
                ms,
                model,
                Some(answers),
                now,
            ),
    }
}

/// Normalize a transcript for `model`, stamping stand-in tool results with
/// `now`. `normalize_tool_call_id` is asked only about tool calls that a
/// different model or provider produced.
pub fn transform_messages_at<U, F: Fn(&str) -> String>(
    messages: Vec<Message<U>>,
    model: &ModelIdentity,
    normalize_tool_call_id: Option<&F>,
    now: i64,
) -> (out: Vec<Message<U>>)
    requires
        normalize_tool_call_id matches Some(f) ==> forall|s: &str| #[trigger] f.requires((s,)),
    ensures
        transformed_by(messages_view(messages@), model@, normalize_tool_call_id, now, messages_view(out@)),
{
    let ghost ms = messages_view(messages@);
    let image_aware = downgrade_unsupported_images(messages, model);
    assert(image_aware@.len() == ms.len()) by {
        assert(messages_view(image_aware@).len() == image_aware@.len());
    }
    match normalize_tool_call_id {
        Some(f) => {
            let answers = ask_normalizer(&image_aware, model, f);
            let transformed = convert_for_model(image_aware, model, Some(&answers));
            let out = repair_tool_results(transformed, now);
            assert(messages_view(out@) == transform_spec(ms, model@, Some(strs(answers@)), now));
            out
        },
        None => {
            let transformed = convert_for_model(image_aware, model, None);
            repair_tool_results(transformed, now)
        },
    }
}

/// Normalize a transcript for `model` (see `transform_messages_at`); stand-in
/// tool results carry the time of the call.
pub fn transform_messages<U, F: Fn(&str) -> String>(
    messages: Vec<Message<U>>,
    model: &ModelIdentity,
    normalize_tool_call_id: Option<&F>,
) -> (out: Vec<Message<U>>)
    requires
        normalize_tool_call_id matches Some(f) ==> forall|s: &str| #[trigger] f.requires((s,)),
    ensures
        exists|now: i64|
            transformed_by(messages_view(messages@), model@, normalize_tool_call_id, now, #[trigger] messages_view(out@)),
{
    let now = now_ms();
    let out = transform_messages_at(messages, model, normalize_tool_call_id, now);
    assert(transformed_by(messages_view(messages@), model@, normalize_tool_call_id, now, messages_view(out@)));
    out
}

/// A thinking block that is neither redacted nor signed and whose text is
/// blank.
pub open spec fn blank_unsigned_thinking(b: AssistantContentView) -> bool {
    b matches AssistantContentView::Thinking(th) && th.redacted != Some(true) && th.signature is None && trim_spec(
        th.thinking,
    ).len() == 0
}

/// Within a turn that the target model itself produced, converting the
/// blocks keeps every block unchanged and in order, except that blank
/// thinking without a signature or redaction is dropped; no tool-call id
/// is renamed and no normalizer answer is used.
pub proof fn lemma_same_model_keeps_blocks(
    bs: Seq<AssistantContentView>,
    answers: Option<Seq<Seq<char>>>,
    start: Renames,
    j: int,
)
    requires
        0 <= j <= bs.len(),
    ensures
        convert_blocks_upto(bs, true, answers, start, j).0 == bs.take(j).filter(
            |b: AssistantContentView| !blank_unsigned_thinking(b),
        ),
        convert_blocks_upto(bs, true, answers, start, j).1 == start,
    decreases j,
{
    let keep = |b: AssistantContentView| !blank_unsigned_thinking(b);
    reveal(Seq::filter);
    if j == 0 {
        assert(bs.take(0).filter(keep) =~= Seq::<AssistantContentView>::empty());
    } else {
        lemma_same_model_keeps_blocks(bs, answers, start, j - 1);
        assert(bs.take(j).drop_last() =~= bs.take(j - 1));
        assert(bs.take(j).last() == bs[j - 1]);
        assert(bs.take(j).filter(keep) == if keep(bs[j - 1]) {
            bs.take(j - 1).filter(keep).push(bs[j - 1])
        } else {
            bs.take(j - 1).filter(keep)
        });
    }
}

/// A block that another model does not receive: redacted thinking, or
/// thinking whose text is blank.
pub open spec fn dropped_for_other_model(b: AssistantContentView) -> bool {
    b matches AssistantContentView::Thinking(th) && (th.redacted == Some(true) || trim_spec(th.thinking).len() == 0)
}

/// A block as another model receives it: thinking as plain text, text and
/// tool calls without their signatures.
pub open spec fn for_other_model(b: AssistantContentView) -> AssistantContentView {
    match b {
        AssistantContentView::Thinking(th) => AssistantContentView::Text(TextView { text: th.thinking, signature: None }),
        AssistantContentView::Text(t) => AssistantContentView::Text(TextView { text: t.text, signature: None }),
        AssistantContentView::ToolCall(tc) => AssistantContentView::ToolCall(
            ToolCallView {
                id: tc.id,
                name: tc.name,
                arguments: tc.arguments,
                thought_signature: None,
                namespace: tc.namespace,
            },
        ),
    }
}

/// Within a turn of another model, without an id normalizer, converting
/// the blocks drops redacted and blank thinking and passes every other
/// block on in order: thinking as plain text, text and tool calls
/// (with their ids) without signatures.
pub proof fn lemma_other_model_blocks(bs: Seq<AssistantContentView>, start: Renames, j: int)
    requires
        0 <= j <= bs.len(),
    ensures
        convert_blocks_upto(bs, false, None, start, j).0 == bs.take(j).filter(
            |b: AssistantContentView| !dropped_for_other_model(b),
        ).map_values(|b: AssistantContentView| for_other_model(b)),
        convert_blocks_upto(bs, false, None, start, j).1 == start,
    decreases j,
{
    let keep = |b: AssistantContentView| !dropped_for_other_model(b);
    let f = |b: AssistantContentView| for_other_model(b);
    reveal(Seq::filter);
    if j == 0 {
        assert(bs.take(0).filter(keep) =~= Seq::<AssistantContentView>::empty());
        assert(bs.take(0).filter(keep).map_values(f) =~= Seq::<AssistantContentView>::empty());
    } else {
        lemma_other_model_blocks(bs, start, j - 1);
        assert(bs.take(j).drop_last() =~= bs.take(j - 1));
        assert(bs.take(j).last() == bs[j - 1]);
        let prev = bs.take(j - 1).filter(keep);
        assert(bs.take(j).filter(keep) == if keep(bs[j - 1]) {
            prev.push(bs[j - 1])
        } else {
            prev
        });
        assert(prev.push(bs[j - 1]).map_values(f) =~= prev.map_values(f).push(f(bs[j - 1])));
    }
}

} // verus!
