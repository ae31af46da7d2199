//! MCP (Model Context Protocol) servers: their configuration and the names
//! under which their tools are exposed.

use vstd::prelude::*;
use crate::text::{chars_of, find_first, find_spec, matches_at, slice_of, starts_with, string_of};

verus! {

pub const TOOL_PREFIX: &'static str = "mcp__";

/// One configured MCP server.
#[derive(Debug, Clone)]
pub struct McpServerSpec {
    pub name: String,
    pub command: String,
    pub args: Vec<String>,
    pub env: Vec<(String, String)>,
    pub enabled: bool,
}

/// `mcp__<server>__<tool>` split at the first `__` after the prefix, when
/// both parts are non-empty.
pub open spec fn split_spec(name: Seq<char>) -> Option<(Seq<char>, Seq<char>)> {
    if TOOL_PREFIX@.is_prefix_of(name) {
        let rest = name.skip(5);
        match find_spec(rest, seq!['_', '_']) {
            Some(sep) => if sep == 0 || sep + 2 >= rest.len() {
                None
            } else {
                Some((rest.take(sep), rest.skip(sep + 2)))
            },
            None => None,
        }
    } else {
        None
    }
}

/// Split `mcp__<server>__<tool>` into `(server, tool)`; `None` if the name
/// is not a valid MCP tool name.
pub fn split_tool_name(prefixed: &str) -> (r: Option<(String, String)>)
    ensures
        match r {
            Some(p) => split_spec(prefixed@) == Some((p.0@, p.1@)),
            None => split_spec(prefixed@) is None,
        },
{
    let cs = chars_of(prefixed);
    let n = cs.len();
    let pre = chars_of(TOOL_PREFIX);
    proof {
        reveal_strlit("mcp__");
    }
    if !starts_with(&cs, &pre) {
        return None;
    }
    let rest = slice_of(&cs, 5, n);
    assert(rest@ =~= prefixed@.skip(5));
    let us = ['_', '_'];
    assert(us@ == seq!['_', '_']);
    let sep = match find_first(&rest, &us) {
        Some(s) => s,
        None => return None,
    };
    assert(matches_at(rest@, us@, sep as int));
    if sep == 0 || sep + 2 >= rest.len() {
        return None;
    }
    let server = slice_of(&rest, 0, sep);
    let tool = slice_of(&rest, sep + 2, rest.len());
    assert(server@ =~= rest@.take(sep as int));
    assert(tool@ =~= rest@.skip(sep + 2));
    Some((string_of(&server), string_of(&tool)))
}

} // verus!
