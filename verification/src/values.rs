//! Value and list addresses of a session.
//!
//! Values live at namespaced addresses; the `pi.*` namespaces are reserved
//! for the harness runtime and each has a fixed key shape (see the
//! constructors below).

use vstd::prelude::*;
use crate::text::{chars_of, contains_char, decimal, decimal_spec, push_all, push_str, string_of, to_string};

verus! {

/// A value or list address. The region (scalar or list) is chosen by the
/// accessor.
#[derive(Debug, Clone, PartialEq, Eq, Hash)]
pub struct Addr {
    pub namespace: String,
    pub key: String,
}

/// Why an address is refused, if it is.
pub open spec fn address_error(namespace: Seq<char>, key: Seq<char>) -> Option<Seq<char>> {
    if namespace.len() == 0 {
        Some("Value namespace must not be empty"@)
    } else if namespace.contains('\0') {
        Some("Value namespace must not contain \\u0000"@)
    } else if key.contains('\0') {
        Some("Value key must not contain \\u0000"@)
    } else {
        None
    }
}

fn validate_address(namespace: &str, key: &str) -> (r: Result<(), String>)
    ensures
        match r {
            Ok(()) => address_error(namespace@, key@) is None,
            Err(e) => address_error(namespace@, key@) == Some(e@),
        },
{
    let ns = chars_of(namespace);
    if ns.len() == 0 {
        return Err(to_string("Value namespace must not be empty"));
    }
    if contains_char(&ns, '\0') {
        return Err(to_string("Value namespace must not contain \\u0000"));
    }
    if contains_char(&chars_of(key), '\0') {
        return Err(to_string("Value key must not contain \\u0000"));
    }
    Ok(())
}

pub open spec fn addr_result(namespace: Seq<char>, key: Seq<char>, r: Result<Addr, String>) -> bool {
    match r {
        Ok(a) => address_error(namespace, key) is None && a.namespace@ == namespace && a.key@ == key,
        Err(e) => address_error(namespace, key) == Some(e@),
    }
}

/// A scalar value address.
pub fn value(namespace: &str, key: &str) -> (r: Result<Addr, String>)
    ensures
        addr_result(namespace@, key@, r),
{
    match validate_address(namespace, key) {
        Err(e) => Err(e),
        Ok(()) => Ok(Addr { namespace: to_string(namespace), key: to_string(key) }),
    }
}

/// A list address.
pub fn list(namespace: &str, key: &str) -> (r: Result<Addr, String>)
    ensures
        addr_result(namespace@, key@, r),
{
    match validate_address(namespace, key) {
        Err(e) => Err(e),
        Ok(()) => Ok(Addr { namespace: to_string(namespace), key: to_string(key) }),
    }
}

/// How a list is read.
#[derive(Debug, Clone, Copy, Default, PartialEq, Eq)]
pub struct ListReadOptions {
    /// Only elements with seq strictly greater (ascending) or smaller
    /// (descending) than this.
    pub cursor: Option<u64>,
    pub desc: bool,
    pub limit: Option<usize>,
}

pub const DEFAULT_LIST_LIMIT: usize = 1000;

pub const MAX_LIST_LIMIT: usize = 10000;

pub open spec fn resolved_limit(limit: Option<usize>) -> int {
    let l = match limit {
        Some(l) => l as int,
        None => DEFAULT_LIST_LIMIT as int,
    };
    if l > MAX_LIST_LIMIT {
        MAX_LIST_LIMIT as int
    } else if l < 1 {
        1
    } else {
        l
    }
}

/// The cursor, direction and effective limit (default 1000, clamped to
/// 1..=10000).
pub fn resolve_list_read_options(options: ListReadOptions) -> (r: (Option<u64>, bool, usize))
    ensures
        r.0 == options.cursor,
        r.1 == options.desc,
        r.2 == resolved_limit(options.limit),
{
    let l = match options.limit {
        Some(l) => l,
        None => DEFAULT_LIST_LIMIT,
    };
    let l = if l > MAX_LIST_LIMIT {
        MAX_LIST_LIMIT
    } else {
        l
    };
    let l = if l < 1 {
        1
    } else {
        l
    };
    (options.cursor, options.desc, l)
}

// ---------------------------------------------------------------------------
// Reserved pi.* addresses
// ---------------------------------------------------------------------------

pub open spec fn no_nul(s: Seq<char>) -> bool {
    !s.contains('\0')
}

/// The address `(namespace, key)` of a reserved namespace.
pub open spec fn is_addr(a: Addr, namespace: Seq<char>, key: Seq<char>) -> bool {
    a.namespace@ == namespace && a.key@ == key
}

fn reserved(namespace: &str, key: &[char]) -> (r: Addr)
    ensures
        is_addr(r, namespace@, key@),
{
    Addr { namespace: to_string(namespace), key: string_of(key) }
}

fn key_of(s: &str) -> (r: Vec<char>)
    ensures
        r@ == s@,
{
    chars_of(s)
}

/// `a:b` key.
fn key2(a: &str, b: &str) -> (r: Vec<char>)
    ensures
        r@ == a@ + seq![':'] + b@,
{
    let mut k = chars_of(a);
    k.push(':');
    push_str(&mut k, b);
    k
}

pub fn branch_tip(branch: &str) -> (r: Addr)
    requires
        no_nul(branch@),
    ensures
        is_addr(r, "pi.branch.tip"@, branch@),
{
    reserved("pi.branch.tip", &key_of(branch))
}

pub fn branch_tip_inventory_prefix() -> (r: Addr)
    ensures
        is_addr(r, "pi.branch.tip"@, Seq::empty()),
{
    let k: Vec<char> = Vec::new();
    reserved("pi.branch.tip", &k)
}

pub fn lane_config(lane: &str) -> (r: Addr)
    requires
        no_nul(lane@),
    ensures
        is_addr(r, "pi.lane.config"@, lane@),
{
    reserved("pi.lane.config", &key_of(lane))
}

pub fn lane_state(lane: &str) -> (r: Addr)
    requires
        no_nul(lane@),
    ensures
        is_addr(r, "pi.lane.state"@, lane@),
{
    reserved("pi.lane.state", &key_of(lane))
}

pub fn operation_result(operation_id: &str) -> (r: Addr)
    requires
        no_nul(operation_id@),
    ensures
        is_addr(r, "pi.result"@, operation_id@),
{
    reserved("pi.result", &key_of(operation_id))
}

pub fn operation_meta(operation_id: &str) -> (r: Addr)
    requires
        no_nul(operation_id@),
    ensures
        is_addr(r, "pi.op.meta"@, operation_id@),
{
    reserved("pi.op.meta", &key_of(operation_id))
}

pub fn operation_state(operation_id: &str) -> (r: Addr)
    requires
        no_nul(operation_id@),
    ensures
        is_addr(r, "pi.op.state"@, operation_id@),
{
    reserved("pi.op.state", &key_of(operation_id))
}

pub fn operation_tool_args(operation_id: &str, step_id: &str, source_index: usize) -> (r: Addr)
    requires
        no_nul(operation_id@),
        no_nul(step_id@),
    ensures
        is_addr(
            r,
            "pi.op.tool_args"@,
            operation_id@ + seq![':'] + step_id@ + seq![':'] + decimal_spec(source_index as nat),
        ),
{
    let mut k = key2(operation_id, step_id);
    k.push(':');
    let d = decimal(source_index as u64);
    push_all(&mut k, &d);
    assert(k@ =~= operation_id@ + seq![':'] + step_id@ + seq![':'] + decimal_spec(source_index as nat));
    reserved("pi.op.tool_args", &k)
}

pub fn operation_tool_memo(operation_id: &str, invocation_id: &str, name: &str) -> (r: Addr)
    requires
        no_nul(operation_id@),
        no_nul(invocation_id@),
        no_nul(name@),
    ensures
        is_addr(r, "pi.op.tool_memo"@, operation_id@ + seq![':'] + invocation_id@ + seq![':'] + name@),
{
    let mut k = key2(operation_id, invocation_id);
    k.push(':');
    push_str(&mut k, name);
    assert(k@ =~= operation_id@ + seq![':'] + invocation_id@ + seq![':'] + name@);
    reserved("pi.op.tool_memo", &k)
}

pub fn operation_preparation(operation_id: &str, task_id: &str) -> (r: Addr)
    requires
        no_nul(operation_id@),
        no_nul(task_id@),
    ensures
        is_addr(r, "pi.op.preparation"@, operation_id@ + seq![':'] + task_id@),
{
    reserved("pi.op.preparation", &key2(operation_id, task_id))
}

/// `id:` or `id:sub:`.
pub open spec fn prefix_key(id: Seq<char>, sub: Option<Seq<char>>) -> Seq<char> {
    match sub {
        None => id + seq![':'],
        Some(s) => id + seq![':'] + s + seq![':'],
    }
}

fn prefix_key_exec(id: &str, sub: Option<&str>) -> (r: Vec<char>)
    ensures
        r@ == prefix_key(id@, match sub {
            Some(s) => Some(s@),
            None => None,
        }),
{
    let mut k = chars_of(id);
    k.push(':');
    match sub {
        None => {},
        Some(s) => {
            push_str(&mut k, s);
            k.push(':');
        },
    }
    k
}

pub fn operation_tool_args_prefix(operation_id: &str, step_id: Option<&str>) -> (r: Addr)
    requires
        no_nul(operation_id@),
        step_id matches Some(x) ==> no_nul(x@),
    ensures
        is_addr(r, "pi.op.tool_args"@, prefix_key(operation_id@, match step_id {
            Some(s) => Some(s@),
            None => None,
        })),
{
    reserved("pi.op.tool_args", &prefix_key_exec(operation_id, step_id))
}

pub fn operation_tool_memo_prefix(operation_id: &str, invocation_id: Option<&str>) -> (r: Addr)
    requires
        no_nul(operation_id@),
        invocation_id matches Some(x) ==> no_nul(x@),
    ensures
        is_addr(r, "pi.op.tool_memo"@, prefix_key(operation_id@, match invocation_id {
            Some(s) => Some(s@),
            None => None,
        })),
{
    reserved("pi.op.tool_memo", &prefix_key_exec(operation_id, invocation_id))
}

pub fn operation_preparation_prefix(operation_id: &str) -> (r: Addr)
    requires
        no_nul(operation_id@),
    ensures
        is_addr(r, "pi.op.preparation"@, operation_id@ + seq![':']),
{
    reserved("pi.op.preparation", &prefix_key_exec(operation_id, None))
}

pub fn pending_entry(entry_id: &str) -> (r: Addr)
    requires
        no_nul(entry_id@),
    ensures
        is_addr(r, "pi.pending.entry"@, entry_id@),
{
    reserved("pi.pending.entry", &key_of(entry_id))
}

pub fn pending_tool_output(operation_id: &str, invocation_id: &str) -> (r: Addr)
    requires
        no_nul(operation_id@),
        no_nul(invocation_id@),
    ensures
        is_addr(r, "pi.pending.tool_output"@, operation_id@ + seq![':'] + invocation_id@),
{
    reserved("pi.pending.tool_output", &key2(operation_id, invocation_id))
}

pub fn pending_assistant_frames(operation_id: &str, response_entry_id: &str) -> (r: Addr)
    requires
        no_nul(operation_id@),
        no_nul(response_entry_id@),
    ensures
        is_addr(r, "pi.pending.assistant_frame"@, operation_id@ + seq![':'] + response_entry_id@),
{
    reserved("pi.pending.assistant_frame", &key2(operation_id, response_entry_id))
}

pub fn pending_tool_output_prefix(operation_id: &str) -> (r: Addr)
    requires
        no_nul(operation_id@),
    ensures
        is_addr(r, "pi.pending.tool_output"@, operation_id@ + seq![':']),
{
    reserved("pi.pending.tool_output", &prefix_key_exec(operation_id, None))
}

pub fn session_name() -> (r: Addr)
    ensures
        is_addr(r, "pi.session.name"@, Seq::empty()),
{
    let k: Vec<char> = Vec::new();
    reserved("pi.session.name", &k)
}

pub fn entry_label(entry_id: &str) -> (r: Addr)
    requires
        no_nul(entry_id@),
    ensures
        is_addr(r, "pi.entry.label"@, entry_id@),
{
    reserved("pi.entry.label", &key_of(entry_id))
}

} // verus!
