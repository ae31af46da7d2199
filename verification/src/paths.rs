//! Locations of zWork's files under its home directory.
//!
//! The home directory itself comes from the environment (`ZWORK_HOME`, else
//! `~/.zwork`) and is resolved by the caller; these functions place each
//! file under it.

use vstd::prelude::*;
use crate::path_utils::path_join;
use crate::text::{chars_of, string_of};

verus! {

fn under(home: &str, rel: &str) -> (r: String)
    ensures
        r@ == path_join(home@, rel@),
{
    let h = chars_of(home);
    let rc = chars_of(rel);
    if rc.len() > 0 && rc[0] == '/' {
        return string_of(&rc);
    }
    let mut out = h;
    if !(out.len() == 0 || out[out.len() - 1] == '/') {
        out.push('/');
    }
    crate::text::push_all(&mut out, &rc);
    string_of(&out)
}

pub fn settings_path(home: &str) -> (r: String)
    ensures
        r@ == path_join(home@, "settings.json"@),
{
    under(home, "settings.json")
}

pub fn onboarding_path(home: &str) -> (r: String)
    ensures
        r@ == path_join(home@, "onboarding.json"@),
{
    under(home, "onboarding.json")
}

/// The legacy single-file memory.
pub fn memory_path(home: &str) -> (r: String)
    ensures
        r@ == path_join(home@, "memory.md"@),
{
    under(home, "memory.md")
}

pub fn memories_dir(home: &str) -> (r: String)
    ensures
        r@ == path_join(home@, "memories"@),
{
    under(home, "memories")
}

pub fn user_md_path(home: &str) -> (r: String)
    ensures
        r@ == path_join(path_join(home@, "memories"@), "USER.md"@),
{
    under(memories_dir(home).as_str(), "USER.md")
}

pub fn memory_md_path(home: &str) -> (r: String)
    ensures
        r@ == path_join(path_join(home@, "memories"@), "MEMORY.md"@),
{
    under(memories_dir(home).as_str(), "MEMORY.md")
}

pub fn timeline_md_path(home: &str) -> (r: String)
    ensures
        r@ == path_join(path_join(home@, "memories"@), "TIMELINE.md"@),
{
    under(memories_dir(home).as_str(), "TIMELINE.md")
}

pub fn tasks_path(home: &str) -> (r: String)
    ensures
        r@ == path_join(home@, "tasks.json"@),
{
    under(home, "tasks.json")
}

pub fn activity_log_path(home: &str) -> (r: String)
    ensures
        r@ == path_join(path_join(home@, "state"@), "activity_log.json"@),
{
    under(under(home, "state").as_str(), "activity_log.json")
}

pub fn telemetry_log_path(home: &str) -> (r: String)
    ensures
        r@ == path_join(home@, "telemetry.jsonl"@),
{
    under(home, "telemetry.jsonl")
}

pub open spec fn safe_id_char(c: char) -> bool {
    ('a' <= c && c <= 'z') || ('A' <= c && c <= 'Z') || ('0' <= c && c <= '9') || c == '_' || c == '-'
}

/// A non-empty id of ASCII letters, digits, `_` and `-` (safe as a file
/// name).
pub fn is_safe_id(id_str: &str) -> (r: bool)
    ensures
        r == (id_str@.len() > 0 && forall|i: int| 0 <= i < id_str@.len() ==> safe_id_char(#[trigger] id_str@[i])),
{
    let cs = chars_of(id_str);
    if cs.len() == 0 {
        return false;
    }
    let mut i: usize = 0;
    while i < cs.len()
        invariant
            i <= cs@.len(),
            cs@ == id_str@,
            forall|j: int| 0 <= j < i ==> safe_id_char(#[trigger] cs@[j]),
        decreases cs.len() - i,
    {
        let c = cs[i];
        if !(('a' <= c && c <= 'z') || ('A' <= c && c <= 'Z') || ('0' <= c && c <= '9') || c == '_' || c
            == '-') {
            assert(!safe_id_char(cs@[i as int]));
            return false;
        }
        i += 1;
    }
    true
}

} // verus!
