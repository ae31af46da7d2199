//! Transcript replay: the system prompt and tool declarations live inside
//! system messages; these helpers replay them into the current state, or
//! fold them for APIs that take no system message mid-conversation.

use vstd::prelude::*;
use crate::assoc::{insert_str, opt_pairs, opt_view, remove_str, sorted_insert, sorted_remove, str_pairs};
use crate::messages::{messages_view, AssistantContent, Message, MessageView, SystemMessage, Tool};
use crate::text::{chars_of, join, join_spec, push_all, push_str, string_of, to_string, views};
use crate::types::ToolReference;

verus! {

// ---------------------------------------------------------------------------
// Views
// ---------------------------------------------------------------------------

pub struct ToolView {
    pub name: Seq<char>,
    pub description: Seq<char>,
    pub parameters: serde_json::Value,
}

impl View for Tool {
    type V = ToolView;

    open spec fn view(&self) -> ToolView {
        ToolView { name: self.name@, description: self.description@, parameters: self.parameters }
    }
}

pub open spec fn tools_view(ts: Seq<Tool>) -> Seq<ToolView> {
    ts.map_values(|t: Tool| t@)
}

pub open spec fn refs_view(rs: Seq<ToolReference>) -> Seq<Seq<char>> {
    rs.map_values(|r: ToolReference| r.name@)
}

pub struct SystemView {
    pub content: Seq<char>,
    pub sections: Option<Seq<(Seq<char>, Option<Seq<char>>)>>,
    pub tools_added: Option<Seq<ToolView>>,
    pub tools_removed: Option<Seq<Seq<char>>>,
    pub timestamp: i64,
}

impl View for SystemMessage {
    type V = SystemView;

    open spec fn view(&self) -> SystemView {
        SystemView {
            content: self.content@,
            sections: match self.sections {
                Some(s) => Some(opt_pairs(s@)),
                None => None,
            },
            tools_added: match self.tools_added {
                Some(t) => Some(tools_view(t@)),
                None => None,
            },
            tools_removed: match self.tools_removed {
                Some(r) => Some(refs_view(r@)),
                None => None,
            },
            timestamp: self.timestamp,
        }
    }
}

impl Tool {
    /// A copy with the same name, description and schema.
    pub fn copy(&self) -> (r: Tool)
        ensures
            r@ == self@,
    {
        Tool { name: self.name.clone(), description: self.description.clone(), parameters: self.parameters.clone() }
    }
}

fn copy_tools(ts: &[Tool]) -> (r: Vec<Tool>)
    ensures
        tools_view(r@) == tools_view(ts@),
{
    let mut out: Vec<Tool> = Vec::new();
    let mut i: usize = 0;
    while i < ts.len()
        invariant
            i <= ts@.len(),
            tools_view(out@) == tools_view(ts@).take(i as int),
        decreases ts.len() - i,
    {
        let ghost before = tools_view(out@);
        out.push(ts[i].copy());
        assert(tools_view(out@) =~= before.push(ts@[i as int]@));
        assert(tools_view(ts@).take(i + 1) =~= tools_view(ts@).take(i as int).push(ts@[i as int]@));
        i += 1;
    }
    assert(tools_view(ts@).take(ts@.len() as int) =~= tools_view(ts@));
    out
}

/// A transcript whose system prompt and tools live in system messages.
pub struct TranscriptContext<U> {
    pub messages: Vec<Message<U>>,
}

// ---------------------------------------------------------------------------
// The leading system message
// ---------------------------------------------------------------------------

pub open spec fn initial_system_spec(prompt: Option<Seq<char>>, tools: Option<Seq<ToolView>>) -> Option<SystemView> {
    let has_prompt = prompt matches Some(p) && p.len() > 0;
    let has_tools = tools matches Some(t) && t.len() > 0;
    if !has_prompt && !has_tools {
        None
    } else {
        Some(
            SystemView {
                content: match prompt {
                    Some(p) => p,
                    None => Seq::empty(),
                },
                sections: None,
                tools_added: if has_tools {
                    tools
                } else {
                    None
                },
                tools_removed: None,
                timestamp: 0,
            },
        )
    }
}

pub open spec fn opt_str(o: Option<&str>) -> Option<Seq<char>> {
    match o {
        Some(s) => Some(s@),
        None => None,
    }
}

pub open spec fn opt_tools(o: Option<&[Tool]>) -> Option<Seq<ToolView>> {
    match o {
        Some(t) => Some(tools_view(t@)),
        None => None,
    }
}

pub open spec fn opt_system(o: Option<SystemMessage>) -> Option<SystemView> {
    match o {
        Some(m) => Some(m@),
        None => None,
    }
}

/// The leading system message for a prompt and tool set; none when both
/// are empty, so that an empty transcript stays empty.
pub fn create_initial_system_message(system_prompt: Option<&str>, tools: Option<&[Tool]>) -> (r: Option<
    SystemMessage,
>)
    ensures
        opt_system(r) == initial_system_spec(opt_str(system_prompt), opt_tools(tools)),
{
    let has_prompt = match system_prompt {
        Some(s) => s.unicode_len() > 0,
        None => false,
    };
    let has_tools = match tools {
        Some(t) => t.len() > 0,
        None => false,
    };
    if !has_prompt && !has_tools {
        return None;
    }
    let content = match system_prompt {
        Some(s) => to_string(s),
        None => String::new(),
    };
    let tools_added = if has_tools {
        match tools {
            Some(t) => Some(copy_tools(t)),
            None => None,
        }
    } else {
        None
    };
    let m = SystemMessage { content, sections: None, tools_added, tools_removed: None, timestamp: 0 };
    Some(m)
}

/// A prompt and tools folded into a leading system message ahead of
/// `messages`.
pub fn normalize_context<U>(system_prompt: Option<&str>, tools: Option<&[Tool]>, messages: Vec<Message<U>>) -> (r:
    TranscriptContext<U>)
    ensures
        match initial_system_spec(opt_str(system_prompt), opt_tools(tools)) {
            Some(v) => {
                &&& r.messages@.len() == messages@.len() + 1
                &&& r.messages@[0] matches Message::System(s) && s@ == v
                &&& messages_view(r.messages@).skip(1) == messages_view(messages@)
            },
            None => messages_view(r.messages@) == messages_view(messages@),
        },
{
    let mut out: Vec<Message<U>> = Vec::new();
    match create_initial_system_message(system_prompt, tools) {
        Some(initial) => {
            out.push(Message::System(initial));
        },
        None => {},
    }
    let ghost head = messages_view(out@);
    let ghost h = out@;
    let mut rest = messages;
    let ghost rv = messages_view(rest@);
    out.append(&mut rest);
    assert(messages_view(out@) =~= head + rv);
    assert(messages_view(out@).skip(head.len() as int) =~= rv);
    assert(out@.len() > 0 ==> out@[0] == h[0] || head.len() == 0);
    TranscriptContext { messages: out }
}

/// The leading system message, if the transcript starts with one.
pub fn get_initial_system_message<U>(messages: &[Message<U>]) -> (r: Option<&SystemMessage>)
    ensures
        r == (if messages@.len() > 0 && messages@[0] is System {
            Some(&messages@[0]->System_0)
        } else {
            None
        }),
{
    if messages.len() > 0 {
        match &messages[0] {
            Message::System(s) => Some(s),
            _ => None,
        }
    } else {
        None
    }
}

/// The transcript without its leading system message, for APIs that carry
/// the prompt outside the message list.
pub fn without_initial_system_message<U>(messages: &[Message<U>]) -> (r: &[Message<U>])
    ensures
        r@ == (if messages@.len() > 0 && messages@[0] is System {
            messages@.skip(1)
        } else {
            messages@
        }),
{
    if get_initial_system_message(messages).is_some() {
        let r = vstd::slice::slice_subrange(messages, 1, messages.len());
        assert(r@ =~= messages@.skip(1));
        r
    } else {
        messages
    }
}

// ---------------------------------------------------------------------------
// Tool state
// ---------------------------------------------------------------------------

/// The first of the first `k` tools named `name`.
pub open spec fn tool_index(ts: Seq<ToolView>, name: Seq<char>, k: int) -> Option<int>
    decreases k,
{
    if k <= 0 {
        None
    } else {
        match tool_index(ts, name, k - 1) {
            Some(i) => Some(i),
            None => if ts[k - 1].name == name {
                Some(k - 1)
            } else {
                None
            },
        }
    }
}

/// `ts` without the tools named `name`.
pub open spec fn drop_tool(ts: Seq<ToolView>, name: Seq<char>) -> Seq<ToolView>
    decreases ts.len(),
{
    if ts.len() == 0 {
        ts
    } else if ts.last().name == name {
        drop_tool(ts.drop_last(), name)
    } else {
        drop_tool(ts.drop_last(), name).push(ts.last())
    }
}

/// Declaring `t`: a tool of that name keeps its place and takes the new
/// definition; a new name goes last.
pub open spec fn put_tool(ts: Seq<ToolView>, t: ToolView) -> Seq<ToolView> {
    match tool_index(ts, t.name, ts.len() as int) {
        Some(i) => ts.update(i, t),
        None => ts.push(t),
    }
}

pub open spec fn drop_tools_upto(ts: Seq<ToolView>, names: Seq<Seq<char>>, k: int) -> Seq<ToolView>
    decreases k,
{
    if k <= 0 {
        ts
    } else {
        drop_tool(drop_tools_upto(ts, names, k - 1), names[k - 1])
    }
}

pub open spec fn put_tools_upto(ts: Seq<ToolView>, adds: Seq<ToolView>, k: int) -> Seq<ToolView>
    decreases k,
{
    if k <= 0 {
        ts
    } else {
        put_tool(put_tools_upto(ts, adds, k - 1), adds[k - 1])
    }
}

/// A system message's tool delta: removals first, then additions.
pub open spec fn tools_step(ts: Seq<ToolView>, s: SystemView, with_removals: bool) -> Seq<ToolView> {
    let kept = match s.tools_removed {
        Some(r) => if with_removals {
            drop_tools_upto(ts, r, r.len() as int)
        } else {
            ts
        },
        None => ts,
    };
    match s.tools_added {
        Some(a) => put_tools_upto(kept, a, a.len() as int),
        None => kept,
    }
}

/// The tools after the deltas of the first `i` messages; without removals,
/// every tool ever declared (its last definition, in first-declaration order).
pub open spec fn tools_upto<U>(ms: Seq<Message<U>>, with_removals: bool, i: int) -> Seq<ToolView>
    decreases i,
{
    if i <= 0 {
        Seq::empty()
    } else {
        match ms[i - 1] {
            Message::System(s) => tools_step(tools_upto(ms, with_removals, i - 1), s@, with_removals),
            _ => tools_upto(ms, with_removals, i - 1),
        }
    }
}

fn drop_tool_exec(ts: &mut Vec<Tool>, name: &String)
    ensures
        tools_view(final(ts)@) == drop_tool(tools_view(old(ts)@), name@),
{
    let ghost s = tools_view(ts@);
    let mut out: Vec<Tool> = Vec::new();
    let mut i: usize = 0;
    assert(tools_view(out@) =~= drop_tool(s.take(0), name@));
    while i < ts.len()
        invariant
            i <= ts@.len(),
            s == tools_view(ts@),
            tools_view(out@) == drop_tool(s.take(i as int), name@),
        decreases ts.len() - i,
    {
        let ghost t = s.take(i as int + 1);
        assert(t.drop_last() =~= s.take(i as int));
        assert(t.last() == s[i as int]);
        if ts[i].name != *name {
            let ghost before = tools_view(out@);
            out.push(ts[i].copy());
            assert(tools_view(out@) =~= before.push(s[i as int]));
        }
        i += 1;
    }
    assert(s.take(s.len() as int) =~= s);
    *ts = out;
}

fn put_tool_exec(ts: &mut Vec<Tool>, t: &Tool)
    ensures
        tools_view(final(ts)@) == put_tool(tools_view(old(ts)@), t@),
{
    let ghost s = tools_view(ts@);
    let mut k: usize = 0;
    let mut found: Option<usize> = None;
    while k < ts.len()
        invariant
            k <= ts@.len(),
            s == tools_view(ts@),
            found matches Some(w) ==> w < k && tool_index(s, t@.name, k as int) == Some(w as int),
            found is None ==> tool_index(s, t@.name, k as int) is None,
        decreases ts.len() - k,
    {
        if found.is_none() && ts[k].name == t.name {
            found = Some(k);
        }
        k += 1;
    }
    match found {
        Some(w) => {
            ts.set(w, t.copy());
            assert(tools_view(ts@) =~= s.update(w as int, t@));
        },
        None => {
            ts.push(t.copy());
            assert(tools_view(ts@) =~= s.push(t@));
        },
    }
}

fn tools_replay<U>(messages: &[Message<U>], with_removals: bool) -> (r: Vec<Tool>)
    ensures
        tools_view(r@) == tools_upto(messages@, with_removals, messages@.len() as int),
{
    let mut ts: Vec<Tool> = Vec::new();
    let mut i: usize = 0;
    assert(tools_view(ts@) =~= Seq::<ToolView>::empty());
    while i < messages.len()
        invariant
            i <= messages@.len(),
            tools_view(ts@) == tools_upto(messages@, with_removals, i as int),
        decreases messages.len() - i,
    {
        match &messages[i] {
            Message::System(sm) => {
                let ghost sv = sm@;
                let ghost start = tools_view(ts@);
                if with_removals {
                    match &sm.tools_removed {
                        Some(rs) => {
                            let mut k: usize = 0;
                            while k < rs.len()
                                invariant
                                    k <= rs@.len(),
                                    tools_view(ts@) == drop_tools_upto(start, refs_view(rs@), k as int),
                                decreases rs.len() - k,
                            {
                                drop_tool_exec(&mut ts, &rs[k].name);
                                k += 1;
                            }
                        },
                        None => {},
                    }
                }
                let ghost kept = tools_view(ts@);
                match &sm.tools_added {
                    Some(adds) => {
                        let mut k: usize = 0;
                        while k < adds.len()
                            invariant
                                k <= adds@.len(),
                                tools_view(ts@) == put_tools_upto(kept, tools_view(adds@), k as int),
                            decreases adds.len() - k,
                        {
                            put_tool_exec(&mut ts, &adds[k]);
                            k += 1;
                        }
                    },
                    None => {},
                }
                assert(tools_view(ts@) == tools_step(start, sv, with_removals));
            },
            _ => {},
        }
        i += 1;
    }
    ts
}

/// The tools available after applying every transcript delta in order.
pub fn get_current_tools<U>(messages: &[Message<U>]) -> (r: Vec<Tool>)
    ensures
        tools_view(r@) == tools_upto(messages@, true, messages@.len() as int),
{
    tools_replay(messages, true)
}

/// Every tool the transcript ever declared, with its last definition, in
/// first-declaration order.
pub fn get_declared_tools<U>(messages: &[Message<U>]) -> (r: Vec<Tool>)
    ensures
        tools_view(r@) == tools_upto(messages@, false, messages@.len() as int),
{
    tools_replay(messages, false)
}

// ---------------------------------------------------------------------------
// The current system message
// ---------------------------------------------------------------------------

/// Section patches applied in order: `None` removes a section, `Some`
/// sets it.
pub open spec fn patch_sections(
    st: Seq<(Seq<char>, Seq<char>)>,
    patches: Seq<(Seq<char>, Option<Seq<char>>)>,
    k: int,
) -> Seq<(Seq<char>, Seq<char>)>
    decreases k,
{
    if k <= 0 {
        st
    } else {
        let prev = patch_sections(st, patches, k - 1);
        match patches[k - 1].1 {
            None => sorted_remove(prev, patches[k - 1].0),
            Some(v) => sorted_insert(prev, patches[k - 1].0, v),
        }
    }
}

/// Replaying system messages: the non-empty contents, the sections, and
/// the first system message's timestamp.
pub struct SystemReplay {
    pub parts: Seq<Seq<char>>,
    pub sections: Seq<(Seq<char>, Seq<char>)>,
    pub timestamp: Option<i64>,
}

pub open spec fn system_replay_upto<U>(ms: Seq<Message<U>>, i: int) -> SystemReplay
    decreases i,
{
    if i <= 0 {
        SystemReplay { parts: Seq::empty(), sections: Seq::empty(), timestamp: None }
    } else {
        let prev = system_replay_upto(ms, i - 1);
        match ms[i - 1] {
            Message::System(s) => SystemReplay {
                parts: if s@.content.len() > 0 {
                    prev.parts.push(s@.content)
                } else {
                    prev.parts
                },
                sections: match s@.sections {
                    Some(p) => patch_sections(prev.sections, p, p.len() as int),
                    None => prev.sections,
                },
                timestamp: match prev.timestamp {
                    Some(t) => Some(t),
                    None => Some(s.timestamp),
                },
            },
            _ => prev,
        }
    }
}

pub open spec fn paragraph_sep() -> Seq<char> {
    seq!['\n', '\n']
}

/// One leading system message holding the current prompt and tools, or
/// none when the transcript has no system message and no tool.
pub open spec fn current_system_spec<U>(ms: Seq<Message<U>>) -> Option<SystemView> {
    let r = system_replay_upto(ms, ms.len() as int);
    let tools = tools_upto(ms, true, ms.len() as int);
    if r.timestamp is None && tools.len() == 0 {
        None
    } else {
        Some(
            SystemView {
                content: join_spec(r.parts, paragraph_sep()),
                sections: if r.sections.len() == 0 {
                    None
                } else {
                    Some(r.sections.map_values(|p: (Seq<char>, Seq<char>)| (p.0, Some(p.1))))
                },
                tools_added: if tools.len() == 0 {
                    None
                } else {
                    Some(tools)
                },
                tools_removed: None,
                timestamp: match r.timestamp {
                    Some(t) => t,
                    None => 0,
                },
            },
        )
    }
}

fn copy_opt(o: &Option<String>) -> (r: Option<String>)
    ensures
        opt_view(r) == opt_view(*o),
{
    match o {
        Some(s) => Some(s.clone()),
        None => None,
    }
}

/// Replay every system message into one leading system message holding the
/// current prompt and tools.
pub fn get_current_system_message<U>(messages: &[Message<U>]) -> (r: Option<SystemMessage>)
    ensures
        opt_system(r) == current_system_spec(messages@),
{
    let mut parts: Vec<Vec<char>> = Vec::new();
    let mut sections: Vec<(String, String)> = Vec::new();
    let mut timestamp: Option<i64> = None;
    let mut i: usize = 0;
    assert(views(parts@) =~= Seq::<Seq<char>>::empty());
    assert(str_pairs(sections@) =~= Seq::<(Seq<char>, Seq<char>)>::empty());
    while i < messages.len()
        invariant
            i <= messages@.len(),
            ({
                let r = system_replay_upto(messages@, i as int);
                &&& views(parts@) == r.parts
                &&& str_pairs(sections@) == r.sections
                &&& timestamp == r.timestamp
            }),
        decreases messages.len() - i,
    {
        match &messages[i] {
            Message::System(sm) => {
                if timestamp.is_none() {
                    timestamp = Some(sm.timestamp);
                }
                let c = chars_of(sm.content.as_str());
                if c.len() > 0 {
                    let ghost before = views(parts@);
                    parts.push(c);
                    assert(views(parts@) =~= before.push(sm@.content));
                }
                match &sm.sections {
                    Some(patches) => {
                        let ghost start = str_pairs(sections@);
                        let mut k: usize = 0;
                        while k < patches.len()
                            invariant
                                k <= patches@.len(),
                                str_pairs(sections@) == patch_sections(start, opt_pairs(patches@), k as int),
                            decreases patches.len() - k,
                        {
                            let (name, value) = &patches[k];
                            match value {
                                None => {
                                    remove_str(&mut sections, name.as_str());
                                },
                                Some(v) => {
                                    insert_str(&mut sections, name.clone(), v.clone());
                                },
                            }
                            k += 1;
                        }
                    },
                    None => {},
                }
            },
            _ => {},
        }
        i += 1;
    }
    let tools = get_current_tools(messages);
    if timestamp.is_none() && tools.len() == 0 {
        return None;
    }
    let sep = ['\n', '\n'];
    assert(sep@ == paragraph_sep());
    let content = string_of(&join(&parts, &sep));
    let secs = if sections.len() == 0 {
        None
    } else {
        let mut out: Vec<(String, Option<String>)> = Vec::new();
        let ghost sp = str_pairs(sections@);
        let mut k: usize = 0;
        while k < sections.len()
            invariant
                k <= sections@.len(),
                sp == str_pairs(sections@),
                opt_pairs(out@) == sp.take(k as int).map_values(|p: (Seq<char>, Seq<char>)| (p.0, Some(p.1))),
            decreases sections.len() - k,
        {
            let ghost before = opt_pairs(out@);
            assert(sp[k as int] == (sections@[k as int].0@, sections@[k as int].1@));
            assert(sp.take(k + 1) =~= sp.take(k as int).push(sp[k as int]));
            out.push((sections[k].0.clone(), Some(sections[k].1.clone())));
            assert(opt_pairs(out@) =~= before.push((sp[k as int].0, Some(sp[k as int].1))));
            assert(opt_pairs(out@) =~= sp.take(k + 1).map_values(|p: (Seq<char>, Seq<char>)| (p.0, Some(p.1))));
            k += 1;
        }
        assert(sp.take(sp.len() as int) =~= sp);
        Some(out)
    };
    let tools_added = if tools.len() == 0 {
        None
    } else {
        Some(tools)
    };
    let ts = match timestamp {
        Some(t) => t,
        None => 0,
    };
    Some(SystemMessage { content, sections: secs, tools_added, tools_removed: None, timestamp: ts })
}

/// The values of the sections that are set, in order, among the first `k`.
pub open spec fn section_values(secs: Seq<(Seq<char>, Option<Seq<char>>)>, k: int) -> Seq<Seq<char>>
    decreases k,
{
    if k <= 0 {
        Seq::empty()
    } else {
        match secs[k - 1].1 {
            Some(v) => section_values(secs, k - 1).push(v),
            None => section_values(secs, k - 1),
        }
    }
}

/// The non-empty parts among the first `k`.
pub open spec fn non_empty_parts(parts: Seq<Seq<char>>, k: int) -> Seq<Seq<char>>
    decreases k,
{
    if k <= 0 {
        Seq::empty()
    } else if parts[k - 1].len() > 0 {
        non_empty_parts(parts, k - 1).push(parts[k - 1])
    } else {
        non_empty_parts(parts, k - 1)
    }
}

/// A system message as a complete prompt: its content, then the values of
/// its sections, the empty ones left out, separated by blank lines.
pub open spec fn system_text_spec(m: SystemView) -> Seq<char> {
    let values = match m.sections {
        Some(s) => section_values(s, s.len() as int),
        None => Seq::empty(),
    };
    let parts = seq![m.content] + values;
    join_spec(non_empty_parts(parts, parts.len() as int), paragraph_sep())
}

/// A system message rendered as a complete prompt.
pub fn get_system_message_text(message: &SystemMessage) -> (r: String)
    ensures
        r@ == system_text_spec(message@),
{
    let mut parts: Vec<Vec<char>> = Vec::new();
    parts.push(chars_of(message.content.as_str()));
    let ghost head = seq![message@.content];
    assert(views(parts@) =~= head);
    match &message.sections {
        Some(secs) => {
            let ghost sv = opt_pairs(secs@);
            let mut k: usize = 0;
            while k < secs.len()
                invariant
                    k <= secs@.len(),
                    sv == opt_pairs(secs@),
                    views(parts@) == head + section_values(sv, k as int),
                decreases secs.len() - k,
            {
                match &secs[k].1 {
                    Some(v) => {
                        let ghost before = views(parts@);
                        parts.push(chars_of(v.as_str()));
                        assert(views(parts@) =~= before.push(v@));
                    },
                    None => {},
                }
                k += 1;
            }
        },
        None => {
            assert(views(parts@) =~= head + Seq::<Seq<char>>::empty());
        },
    }
    let ghost all = views(parts@);
    let mut kept: Vec<Vec<char>> = Vec::new();
    let mut k: usize = 0;
    assert(views(kept@) =~= Seq::<Seq<char>>::empty());
    while k < parts.len()
        invariant
            k <= parts@.len(),
            all == views(parts@),
            views(kept@) == non_empty_parts(all, k as int),
        decreases parts.len() - k,
    {
        if parts[k].len() > 0 {
            let ghost before = views(kept@);
            let c = crate::text::slice_of(&parts[k], 0, parts[k].len());
            assert(c@ =~= all[k as int]);
            kept.push(c);
            assert(views(kept@) =~= before.push(all[k as int]));
        }
        k += 1;
    }
    let sep = ['\n', '\n'];
    assert(sep@ == paragraph_sep());
    string_of(&join(&kept, &sep))
}

/// The current system prompt text after replaying every system message.
pub fn get_current_system_prompt<U>(messages: &[Message<U>]) -> (r: String)
    ensures
        r@ == match current_system_spec(messages@) {
            Some(m) => system_text_spec(m),
            None => Seq::empty(),
        },
{
    match get_current_system_message(messages) {
        Some(m) => get_system_message_text(&m),
        None => String::new(),
    }
}

/// What a later system message says to an API that accepts system
/// messages mid-conversation: its content, then each section change framed
/// by name.
pub open spec fn section_notes(secs: Seq<(Seq<char>, Option<Seq<char>>)>, k: int) -> Seq<Seq<char>>
    decreases k,
{
    if k <= 0 {
        Seq::empty()
    } else {
        section_notes(secs, k - 1).push(
            match secs[k - 1].1 {
                None => "Removed system prompt section \""@ + secs[k - 1].0 + "\"."@,
                Some(v) => "Updated system prompt section \""@ + secs[k - 1].0 + "\":\n\n"@ + v,
            },
        )
    }
}

pub open spec fn update_text_spec(m: SystemView) -> Seq<char> {
    let head: Seq<Seq<char>> = if m.content.len() > 0 {
        seq![m.content]
    } else {
        Seq::empty()
    };
    let notes = match m.sections {
        Some(s) => section_notes(s, s.len() as int),
        None => Seq::empty(),
    };
    join_spec(head + notes, paragraph_sep())
}

/// A later system message rendered for APIs that accept system messages
/// mid-conversation.
pub fn render_system_message_update(message: &SystemMessage) -> (r: String)
    ensures
        r@ == update_text_spec(message@),
{
    let mut parts: Vec<Vec<char>> = Vec::new();
    let c = chars_of(message.content.as_str());
    if c.len() > 0 {
        parts.push(c);
    }
    let ghost head = views(parts@);
    assert(head =~= (if message@.content.len() > 0 {
        seq![message@.content]
    } else {
        Seq::<Seq<char>>::empty()
    }));
    match &message.sections {
        Some(secs) => {
            let ghost sv = opt_pairs(secs@);
            let mut k: usize = 0;
            assert(views(parts@) =~= head + section_notes(sv, 0));
            while k < secs.len()
                invariant
                    k <= secs@.len(),
                    sv == opt_pairs(secs@),
                    views(parts@) == head + section_notes(sv, k as int),
                decreases secs.len() - k,
            {
                let mut note: Vec<char> = Vec::new();
                match &secs[k].1 {
                    None => {
                        push_str(&mut note, "Removed system prompt section \"");
                        push_str(&mut note, secs[k].0.as_str());
                        push_str(&mut note, "\".");
                    },
                    Some(v) => {
                        push_str(&mut note, "Updated system prompt section \"");
                        push_str(&mut note, secs[k].0.as_str());
                        push_str(&mut note, "\":\n\n");
                        push_str(&mut note, v.as_str());
                    },
                }
                let ghost before = views(parts@);
                let ghost nv = note@;
                assert(sv[k as int] == (secs@[k as int].0@, opt_view(secs@[k as int].1)));
                parts.push(note);
                assert(views(parts@) =~= before.push(nv));
                assert(head + section_notes(sv, k + 1) =~= (head + section_notes(sv, k as int)).push(nv));
                k += 1;
            }
        },
        None => {
            assert(views(parts@) =~= head + Seq::<Seq<char>>::empty());
        },
    }
    let sep = ['\n', '\n'];
    assert(sep@ == paragraph_sep());
    string_of(&join(&parts, &sep))
}

// ---------------------------------------------------------------------------
// Folding the transcript
// ---------------------------------------------------------------------------

/// The messages other than system messages, in order.
pub open spec fn non_system<U>(ms: Seq<Message<U>>, k: int) -> Seq<Message<U>>
    decreases k,
{
    if k <= 0 {
        Seq::empty()
    } else if ms[k - 1] is System {
        non_system(ms, k - 1)
    } else {
        non_system(ms, k - 1).push(ms[k - 1])
    }
}

/// The transcript for APIs without mid-conversation system messages: one
/// leading system message with the replayed prompt and tools, then every
/// other message in order.
pub fn collapse_system_messages<U>(context: TranscriptContext<U>) -> (r: TranscriptContext<U>)
    ensures
        match current_system_spec(context.messages@) {
            Some(v) => {
                &&& r.messages@.len() > 0
                &&& r.messages@[0] matches Message::System(s) && s@ == v
                &&& r.messages@.skip(1) == non_system(context.messages@, context.messages@.len() as int)
            },
            None => r.messages@ == non_system(context.messages@, context.messages@.len() as int),
        },
{
    let head = get_current_system_message(context.messages.as_slice());
    let mut out: Vec<Message<U>> = Vec::new();
    match head {
        Some(h) => {
            out.push(Message::System(h));
            assert(out@[0] matches Message::System(s) && s@ == current_system_spec(context.messages@).unwrap());
        },
        None => {},
    }
    let ghost start = out@;
    let ghost ms = context.messages@;
    for m in it: context.messages
        invariant
            it.seq() == ms,
            out@.len() >= start.len(),
            out@.take(start.len() as int) == start,
            out@.skip(start.len() as int) == non_system(ms, it.index() as int),
    {
        let ghost i = it.index() as int;
        assert(m == ms[i]);
        let ghost before = out@;
        match m {
            Message::System(_) => {},
            other => {
                out.push(other);
                assert(out@.skip(start.len() as int) =~= before.skip(start.len() as int).push(ms[i]));
                assert(out@.take(start.len() as int) =~= before.take(start.len() as int));
            },
        }
    }
    assert(start.len() == 0 ==> out@.skip(0) =~= out@);
    assert(start.len() > 0 ==> out@[0] == start[0]);
    TranscriptContext { messages: out }
}

/// Keep later system messages when the model accepts them; else collapse.
pub fn resolve_transcript<U>(context: TranscriptContext<U>, supports_mid_convo_system_messages: bool) -> (r:
    TranscriptContext<U>)
    ensures
        supports_mid_convo_system_messages ==> r.messages@ == context.messages@,
        !supports_mid_convo_system_messages ==> match current_system_spec(context.messages@) {
            Some(v) => {
                &&& r.messages@.len() > 0
                &&& r.messages@[0] matches Message::System(s) && s@ == v
                &&& r.messages@.skip(1) == non_system(context.messages@, context.messages@.len() as int)
            },
            None => r.messages@ == non_system(context.messages@, context.messages@.len() as int),
        },
{
    if supports_mid_convo_system_messages {
        context
    } else {
        collapse_system_messages(context)
    }
}

pub open spec fn has_tool_call(c: Seq<AssistantContent>) -> bool {
    exists|j: int| 0 <= j < c.len() && (#[trigger] c[j]) is ToolCall
}

/// A tool result, or an assistant turn with a tool call.
pub open spec fn is_tool_history<U>(m: Message<U>) -> bool {
    match m {
        Message::ToolResult(_) => true,
        Message::Assistant(a) => has_tool_call(a.content@),
        _ => false,
    }
}

/// Whether the transcript holds any tool call or tool result.
pub fn has_tool_history<U>(messages: &[Message<U>]) -> (r: bool)
    ensures
        r == exists|i: int| 0 <= i < messages@.len() && #[trigger] is_tool_history(messages@[i]),
{
    let mut i: usize = 0;
    while i < messages.len()
        invariant
            i <= messages@.len(),
            forall|j: int| 0 <= j < i ==> !#[trigger] is_tool_history(messages@[j]),
        decreases messages.len() - i,
    {
        let hit = match &messages[i] {
            Message::ToolResult(_) => true,
            Message::Assistant(a) => {
                let mut found = false;
                let mut j: usize = 0;
                while j < a.content.len()
                    invariant
                        j <= a.content@.len(),
                        found == exists|x: int| 0 <= x < j && (#[trigger] a.content@[x]) is ToolCall,
                    decreases a.content.len() - j,
                {
                    if let AssistantContent::ToolCall(_) = &a.content[j] {
                        found = true;
                    }
                    j += 1;
                }
                found
            },
            _ => false,
        };
        if hit {
            assert(is_tool_history(messages@[i as int]));
            return true;
        }
        i += 1;
    }
    false
}

/// Scanning tool additions with the names declared so far: a name declared
/// again is a redeclaration.
pub open spec fn additions_scan(declared: Set<Seq<char>>, adds: Seq<ToolView>, k: int) -> (bool, Set<Seq<char>>)
    decreases k,
{
    if k <= 0 {
        (false, declared)
    } else {
        let prev = additions_scan(declared, adds, k - 1);
        if prev.0 {
            prev
        } else if prev.1.contains(adds[k - 1].name) {
            (true, prev.1)
        } else {
            (false, prev.1.insert(adds[k - 1].name))
        }
    }
}

/// Whether the first `i` messages remove a tool or redeclare a name, with
/// the names declared so far.
pub open spec fn non_additive_upto<U>(ms: Seq<Message<U>>, i: int) -> (bool, Set<Seq<char>>)
    decreases i,
{
    if i <= 0 {
        (false, Set::empty())
    } else {
        let prev = non_additive_upto(ms, i - 1);
        if prev.0 {
            prev
        } else {
            match ms[i - 1] {
                Message::System(s) => if s@.tools_removed matches Some(r) && r.len() > 0 {
                    (true, prev.1)
                } else {
                    match s@.tools_added {
                        Some(a) => additions_scan(prev.1, a, a.len() as int),
                        None => prev,
                    }
                },
                _ => prev,
            }
        }
    }
}

/// Whether the tool history holds a removal or a redeclaration of a name.
pub fn has_non_additive_tool_changes<U>(messages: &[Message<U>]) -> (r: bool)
    ensures
        r == non_additive_upto(messages@, messages@.len() as int).0,
{
    let mut declared: Vec<String> = Vec::new();
    let mut i: usize = 0;
    assert(crate::types::strs(declared@).to_set() =~= Set::<Seq<char>>::empty());
    while i < messages.len()
        invariant
            i <= messages@.len(),
            !non_additive_upto(messages@, i as int).0,
            crate::types::strs(declared@).to_set() == non_additive_upto(messages@, i as int).1,
        decreases messages.len() - i,
    {
        proof {
            lemma_non_additive_stays(messages@, i as int + 1, messages@.len() as int);
        }
        match &messages[i] {
            Message::System(sm) => {
                let removes = match &sm.tools_removed {
                    Some(r) => r.len() > 0,
                    None => false,
                };
                if removes {
                    return true;
                }
                match &sm.tools_added {
                    Some(adds) => {
                        let ghost start = crate::types::strs(declared@).to_set();
                        let ghost av = tools_view(adds@);
                        let mut k: usize = 0;
                        let mut redeclared = false;
                        while k < adds.len()
                            invariant_except_break
                                !additions_scan(start, av, k as int).0,
                                !redeclared,
                            invariant
                                k <= adds@.len(),
                                av == tools_view(adds@),
                                crate::types::strs(declared@).to_set() == additions_scan(start, av, k as int).1,
                            ensures
                                redeclared == additions_scan(start, av, k as int).0,
                                !redeclared ==> k == adds@.len(),
                            decreases adds.len() - k,
                        {
                            let ghost d0 = crate::types::strs(declared@);
                            let name = adds[k].name.clone();
                            assert(av[k as int].name == name@);
                            if crate::transform::contains_string(&declared, &name) {
                                assert(d0.to_set().contains(name@)) by {
                                    let x = choose|x: int| 0 <= x < d0.len() && d0[x] == name@;
                                    assert(d0.contains(name@));
                                }
                                assert(additions_scan(start, av, k + 1).0);
                                redeclared = true;
                                k += 1;
                                break;
                            }
                            assert(!d0.to_set().contains(name@));
                            declared.push(name);
                            proof {
                                crate::transform::lemma_push_to_set_pub(d0, av[k as int].name);
                                assert(crate::types::strs(declared@) =~= d0.push(av[k as int].name));
                            }
                            k += 1;
                        }
                        if redeclared {
                            proof {
                                lemma_scan_stays(start, av, k as int, av.len() as int);
                            }
                            return true;
                        }
                    },
                    None => {},
                }
            },
            _ => {},
        }
        i += 1;
    }
    false
}

proof fn lemma_scan_stays(declared: Set<Seq<char>>, adds: Seq<ToolView>, j: int, k: int)
    requires
        0 <= j <= k,
        additions_scan(declared, adds, j).0,
    ensures
        additions_scan(declared, adds, k).0,
    decreases k - j,
{
    if j < k {
        lemma_scan_stays(declared, adds, j, k - 1);
    }
}

proof fn lemma_non_additive_stays<U>(ms: Seq<Message<U>>, j: int, k: int)
    requires
        0 <= j <= k,
    ensures
        non_additive_upto(ms, j).0 ==> non_additive_upto(ms, k).0,
    decreases k - j,
{
    if j < k {
        lemma_non_additive_stays(ms, j, k - 1);
    }
}

/// Tools for the top-level request field, and whether later system
/// messages carry their own additions in place.
pub struct TranscriptTools {
    pub request_tools: Vec<Tool>,
    pub anchors_additions: bool,
}

/// Split tool declarations between the request field and in-place
/// additions: in-place only when the model supports it and the history is
/// purely additive; then the request carries the initial tools, else the
/// current ones.
pub fn resolve_transcript_tools<U>(messages: &[Message<U>], supports_tool_additions: bool) -> (r: TranscriptTools)
    ensures
        r.anchors_additions == (supports_tool_additions && !non_additive_upto(messages@, messages@.len() as int).0),
        tools_view(r.request_tools@) == if r.anchors_additions {
            if messages@.len() > 0 && messages@[0] is System {
                match messages@[0]->System_0@.tools_added {
                    Some(t) => t,
                    None => Seq::empty(),
                }
            } else {
                Seq::empty()
            }
        } else {
            tools_upto(messages@, true, messages@.len() as int)
        },
{
    let anchors_additions = supports_tool_additions && !has_non_additive_tool_changes(messages);
    let request_tools = if anchors_additions {
        match get_initial_system_message(messages) {
            Some(m) => match &m.tools_added {
                Some(t) => copy_tools(t.as_slice()),
                None => {
                    let v: Vec<Tool> = Vec::new();
                    assert(tools_view(v@) =~= Seq::<ToolView>::empty());
                    v
                },
            },
            None => {
                let v: Vec<Tool> = Vec::new();
                assert(tools_view(v@) =~= Seq::<ToolView>::empty());
                v
            },
        }
    } else {
        get_current_tools(messages)
    };
    TranscriptTools { request_tools, anchors_additions }
}

/// A tool declaration from its name, description and schema.
pub fn tool(name: &str, description: &str, parameters: serde_json::Value) -> (r: Tool)
    ensures
        r@ == (ToolView { name: name@, description: description@, parameters }),
{
    Tool { name: to_string(name), description: to_string(description), parameters }
}

/// The model-facing declaration of a tool.
pub fn to_tool_declaration(tool: &Tool) -> (r: Tool)
    ensures
        r@ == tool@,
{
    tool.copy()
}

// ---------------------------------------------------------------------------
// Tool state changes
// ---------------------------------------------------------------------------

/// What a comparison of two declarations can have said: equal ones have the
/// same name and description, and identical ones are equal.
pub open spec fn decl_outcome(p: ToolView, t: ToolView, equal: bool) -> bool {
    &&& equal ==> p.name == t.name && p.description == t.description
    &&& (p.name == t.name && p.description == t.description && p.parameters == t.parameters) ==> equal
}

/// Whether two tools declare the same thing to the model.
pub fn declarations_equal(left: &Tool, right: &Tool) -> (r: bool)
    ensures
        decl_outcome(left@, right@, r),
{
    left.name == right.name && left.description == right.description && left.parameters == right.parameters
}

/// The tools among the first `k` whose flag is set.
pub open spec fn select_tools(ts: Seq<ToolView>, keep: Seq<bool>, k: int) -> Seq<ToolView>
    decreases k,
{
    if k <= 0 {
        Seq::empty()
    } else if keep[k - 1] {
        select_tools(ts, keep, k - 1).push(ts[k - 1])
    } else {
        select_tools(ts, keep, k - 1)
    }
}

/// A tool counts as changed when the other side has no tool of its name or
/// the comparison with the first such tool said they differ.
pub open spec fn changed_flags(ts: Seq<ToolView>, others: Seq<ToolView>, equal: Seq<bool>) -> Seq<bool> {
    Seq::new(
        equal.len(),
        |i: int|
            match tool_index(others, ts[i].name, others.len() as int) {
                Some(_) => !equal[i],
                None => true,
            },
    )
}

/// The comparisons behind the flags are ones a comparison can give.
pub open spec fn outcomes_ok(ts: Seq<ToolView>, others: Seq<ToolView>, equal: Seq<bool>, others_first: bool) -> bool {
    &&& equal.len() == ts.len()
    &&& forall|i: int|
        0 <= i < ts.len() ==> match #[trigger] tool_index(others, ts[i].name, others.len() as int) {
            Some(j) => if others_first {
                decl_outcome(others[j], ts[i], equal[i])
            } else {
                decl_outcome(ts[i], others[j], equal[i])
            },
            None => true,
        }
}

#[derive(Debug, Default)]
pub struct ToolStateChanges {
    pub tools_added: Vec<Tool>,
    pub tools_removed: Vec<ToolReference>,
}

fn first_named(ts: &[Tool], name: &String) -> (r: Option<usize>)
    ensures
        match r {
            Some(j) => tool_index(tools_view(ts@), name@, ts@.len() as int) == Some(j as int) && j < ts@.len(),
            None => tool_index(tools_view(ts@), name@, ts@.len() as int) is None,
        },
{
    let ghost tv = tools_view(ts@);
    let mut k: usize = 0;
    let mut found: Option<usize> = None;
    while k < ts.len()
        invariant
            k <= ts@.len(),
            tv == tools_view(ts@),
            found matches Some(w) ==> w < k && tool_index(tv, name@, k as int) == Some(w as int),
            found is None ==> tool_index(tv, name@, k as int) is None,
        decreases ts.len() - k,
    {
        if found.is_none() && ts[k].name == *name {
            found = Some(k);
        }
        k += 1;
    }
    found
}

proof fn lemma_select_prefix(ts: Seq<ToolView>, a: Seq<bool>, b: Seq<bool>, k: int)
    requires
        0 <= k <= a.len(),
        k <= b.len(),
        forall|j: int| 0 <= j < k ==> a[j] == b[j],
    ensures
        select_tools(ts, a, k) == select_tools(ts, b, k),
    decreases k,
{
    if k > 0 {
        lemma_select_prefix(ts, a, b, k - 1);
    }
}

/// The changed tools of `ts` against `others`, with the comparison outcomes.
fn changed_tools(ts: &[Tool], others: &[Tool], others_first: bool) -> (r: (Vec<Tool>, Ghost<Seq<bool>>))
    ensures
        outcomes_ok(tools_view(ts@), tools_view(others@), r.1@, others_first),
        tools_view(r.0@) == select_tools(
            tools_view(ts@),
            changed_flags(tools_view(ts@), tools_view(others@), r.1@),
            ts@.len() as int,
        ),
{
    let ghost tv = tools_view(ts@);
    let ghost ov = tools_view(others@);
    let mut out: Vec<Tool> = Vec::new();
    let ghost mut eq: Seq<bool> = Seq::empty();
    let mut i: usize = 0;
    assert(tools_view(out@) =~= select_tools(tv, changed_flags(tv, ov, eq), 0));
    while i < ts.len()
        invariant
            i <= ts@.len(),
            tv == tools_view(ts@),
            ov == tools_view(others@),
            eq.len() == i,
            forall|x: int|
                0 <= x < i ==> match #[trigger] tool_index(ov, tv[x].name, ov.len() as int) {
                    Some(j) => if others_first {
                        decl_outcome(ov[j], tv[x], eq[x])
                    } else {
                        decl_outcome(tv[x], ov[j], eq[x])
                    },
                    None => true,
                },
            tools_view(out@) == select_tools(tv, changed_flags(tv, ov, eq), i as int),
        decreases ts.len() - i,
    {
        let t = &ts[i];
        assert(tv[i as int] == t@);
        let (keep, e) = match first_named(others, &t.name) {
            None => (true, false),
            Some(j) => {
                assert(ov[j as int] == others@[j as int]@);
                let e = if others_first {
                    declarations_equal(&others[j], t)
                } else {
                    declarations_equal(t, &others[j])
                };
                (!e, e)
            },
        };
        let ghost old_eq = eq;
        let ghost before = tools_view(out@);
        proof {
            eq = eq.push(e);
            lemma_select_prefix(tv, changed_flags(tv, ov, old_eq), changed_flags(tv, ov, eq), i as int);
            assert(changed_flags(tv, ov, eq)[i as int] == keep);
        }
        if keep {
            out.push(t.copy());
            assert(tools_view(out@) =~= before.push(tv[i as int]));
        }
        i += 1;
    }
    (out, Ghost(eq))
}

/// Compare two complete tool states: a tool is added when it is new or its
/// declaration changed, and removed when it is gone or changed (a changed
/// definition is a removal followed by an addition).
pub fn get_tool_state_changes(previous: &[Tool], current: &[Tool]) -> (r: ToolStateChanges)
    ensures
        exists|eq_cur: Seq<bool>, eq_prev: Seq<bool>|
            outcomes_ok(tools_view(current@), tools_view(previous@), eq_cur, true) && outcomes_ok(
                tools_view(previous@),
                tools_view(current@),
                eq_prev,
                false,
            ) && tools_view(r.tools_added@) == select_tools(
                tools_view(current@),
                changed_flags(tools_view(current@), tools_view(previous@), eq_cur),
                current@.len() as int,
            ) && refs_view(r.tools_removed@) == select_tools(
                tools_view(previous@),
                changed_flags(tools_view(previous@), tools_view(current@), eq_prev),
                previous@.len() as int,
            ).map_values(|t: ToolView| t.name),
{
    let (added, Ghost(eq_cur)) = changed_tools(current, previous, true);
    let (gone, Ghost(eq_prev)) = changed_tools(previous, current, false);
    let ghost gv = tools_view(gone@);
    let mut removed: Vec<ToolReference> = Vec::new();
    let mut k: usize = 0;
    while k < gone.len()
        invariant
            k <= gone@.len(),
            gv == tools_view(gone@),
            refs_view(removed@) == gv.take(k as int).map_values(|t: ToolView| t.name),
        decreases gone.len() - k,
    {
        let ghost before = refs_view(removed@);
        assert(gv[k as int] == gone@[k as int]@);
        removed.push(ToolReference { name: gone[k].name.clone() });
        assert(refs_view(removed@) =~= before.push(gv[k as int].name));
        assert(gv.take(k + 1) =~= gv.take(k as int).push(gv[k as int]));
        assert(refs_view(removed@) =~= gv.take(k + 1).map_values(|t: ToolView| t.name));
        k += 1;
    }
    assert(gv.take(gv.len() as int) =~= gv);
    ToolStateChanges { tools_added: added, tools_removed: removed }
}

} // verus!
