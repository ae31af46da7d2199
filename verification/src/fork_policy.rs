//! What a fork copies: the entries that make up the destination branch
//! ancestry, walking the source branch from its tip toward the root.

use vstd::prelude::*;
use crate::assoc::{assoc_get, copy_string, opt_view};
use crate::commit::CommittedWrite;
use crate::session_types::SessionError;
use crate::text::{chars_of, debug_quoted, debug_str, eq_chars, push_str, starts_with, str_eq, string_of, to_string};

verus! {

/// How current state is projected into a fork's destination.
pub enum ForkCurrentStatePlan {
    Tree,
    Branch { branch: String, destination_tip: Option<String> },
}

pub open spec fn parent_pairs(p: Seq<(String, Option<String>)>) -> Seq<(Seq<char>, Option<Seq<char>>)> {
    p.map_values(|e: (String, Option<String>)| (e.0@, opt_view(e.1)))
}

/// The record of `e`: `None` when the entry is unknown, `Some(None)` for a
/// root, `Some(Some(parent))` otherwise.
pub open spec fn parent_of(p: Seq<(Seq<char>, Option<Seq<char>>)>, e: Seq<char>) -> Option<Option<Seq<char>>> {
    assoc_get(p, e)
}

/// The walk from `cur` toward the root reaches an unknown entry or a root
/// within `n` steps.
pub open spec fn walk_ends(p: Seq<(Seq<char>, Option<Seq<char>>)>, cur: Seq<char>, n: nat) -> bool
    decreases n,
{
    match parent_of(p, cur) {
        Some(Some(par)) => n > 0 && walk_ends(p, par, (n - 1) as nat),
        _ => true,
    }
}

/// The entries visited from `cur`, in walk order, with at most `n` steps.
pub open spec fn ancestry(p: Seq<(Seq<char>, Option<Seq<char>>)>, cur: Seq<char>, n: nat) -> Seq<Seq<char>>
    decreases n,
{
    match parent_of(p, cur) {
        Some(Some(par)) => if n > 0 {
            seq![cur] + ancestry(p, par, (n - 1) as nat)
        } else {
            seq![cur]
        },
        _ => seq![cur],
    }
}

/// Walking the first `k` visited entries: whether `req` was met, the
/// destination tip, and the entries selected so far.
pub open spec fn select_fold(v: Seq<Seq<char>>, req: Seq<char>, before: bool, k: int) -> (bool, Option<Seq<char>>, Seq<Seq<char>>)
    decreases k,
{
    if k <= 0 {
        (false, None, Seq::empty())
    } else {
        let prev = select_fold(v, req, before, k - 1);
        let e = v[k - 1];
        let parent = if k < v.len() {
            Some(v[k])
        } else {
            None
        };
        if e == req {
            (true, if before {
                parent
            } else {
                Some(e)
            }, if before {
                prev.2
            } else {
                prev.2.push(e)
            })
        } else if prev.0 {
            (prev.0, prev.1, prev.2.push(e))
        } else {
            prev
        }
    }
}

pub open spec fn not_on_branch_msg(entry_id: Option<Seq<char>>, branch: Seq<char>) -> Seq<char> {
    "Fork entry "@ + match entry_id {
        Some(e) => "Some("@ + debug_quoted(e) + ")"@,
        None => "None"@,
    } + " is not on source branch "@ + debug_quoted(branch)
}

/// The fork of `branch` at `entry_id` (the tip when absent): the
/// destination tip and the selected entries in walk order, or the error.
pub open spec fn fork_spec(
    branch: Seq<char>,
    entry_id: Option<Seq<char>>,
    before: bool,
    tip: Option<Seq<char>>,
    p: Seq<(Seq<char>, Option<Seq<char>>)>,
) -> Result<(Seq<char>, Option<Seq<char>>, Seq<Seq<char>>), Seq<char>> {
    match tip {
        None => Ok((branch, None, Seq::empty())),
        Some(t) => {
            let n = choose|n: nat| walk_ends(p, t, n);
            let v = ancestry(p, t, n);
            if parent_of(p, v.last()) is None {
                Err("Corrupt source branch: missing parent "@ + v.last())
            } else {
                let req = match entry_id {
                    Some(e) => e,
                    None => t,
                };
                let r = select_fold(v, req, before, v.len() as int);
                if !r.0 {
                    Err(not_on_branch_msg(entry_id, branch))
                } else {
                    Ok((branch, r.1, r.2))
                }
            }
        },
    }
}

/// The walk from a tip ends (no cycle in the parent records).
pub open spec fn fork_walk_ends(tip: Option<Seq<char>>, p: Seq<(Seq<char>, Option<Seq<char>>)>) -> bool {
    match tip {
        Some(t) => exists|n: nat| walk_ends(p, t, n),
        None => true,
    }
}

fn parent_lookup(parents: &[(String, Option<String>)], e: &str) -> (r: Option<Option<String>>)
    ensures
        match r {
            Some(o) => parent_of(parent_pairs(parents@), e@) == Some(opt_view(o)),
            None => parent_of(parent_pairs(parents@), e@) is None,
        },
{
    let ghost s = parent_pairs(parents@);
    let ec = chars_of(e);
    let mut i: usize = 0;
    assert(s.skip(0) == s);
    while i < parents.len()
        invariant
            i <= parents@.len(),
            s == parent_pairs(parents@),
            ec@ == e@,
            assoc_get(s, e@) == assoc_get(s.skip(i as int), e@),
        decreases parents.len() - i,
    {
        assert(s.skip(i as int)[0] == s[i as int]);
        if eq_chars(&chars_of(parents[i].0.as_str()), &ec) {
            let o = match &parents[i].1 {
                Some(x) => Some(copy_string(x)),
                None => None,
            };
            return Some(o);
        }
        assert(s.skip(i as int).drop_first() == s.skip(i + 1));
        i += 1;
    }
    None
}

proof fn lemma_walk_unfold(p: Seq<(Seq<char>, Option<Seq<char>>)>, cur: Seq<char>, n: nat)
    requires
        walk_ends(p, cur, n),
    ensures
        ancestry(p, cur, n).len() >= 1,
        ancestry(p, cur, n)[0] == cur,
        match parent_of(p, cur) {
            Some(Some(par)) => n > 0 && walk_ends(p, par, (n - 1) as nat) && ancestry(p, cur, n).drop_first()
                == ancestry(p, par, (n - 1) as nat),
            _ => ancestry(p, cur, n) == seq![cur],
        },
{
    match parent_of(p, cur) {
        Some(Some(par)) => {
            assert(ancestry(p, cur, n).drop_first() =~= ancestry(p, par, (n - 1) as nat));
        },
        _ => {},
    }
}

proof fn lemma_ancestry_nonempty(p: Seq<(Seq<char>, Option<Seq<char>>)>, cur: Seq<char>, n: nat)
    ensures
        ancestry(p, cur, n).len() >= 1,
    decreases n,
{
    match parent_of(p, cur) {
        Some(Some(par)) => if n > 0 {
            lemma_ancestry_nonempty(p, par, (n - 1) as nat);
        },
        _ => {},
    }
}

/// Walk the source branch ancestry from its tip, selecting every entry on
/// the path down to (and, unless `before`, including) the requested entry.
/// `parents` holds each entry's parent (`None` for a root). Returns the
/// destination branch name, its new tip, and the selected entries in walk
/// order (tip to root).
pub fn select_branch_fork(
    branch: &str,
    entry_id: Option<&str>,
    before: bool,
    tip: Option<String>,
    parents: &[(String, Option<String>)],
) -> (r: Result<(String, Option<String>, Vec<String>), String>)
    requires
        fork_walk_ends(opt_view(tip), parent_pairs(parents@)),
    ensures
        match r {
            Ok(res) => fork_spec(branch@, match entry_id { Some(e) => Some(e@), None => None }, before, opt_view(tip), parent_pairs(parents@))
                == Ok::<(Seq<char>, Option<Seq<char>>, Seq<Seq<char>>), Seq<char>>((res.0@, opt_view(res.1), res.2@.map_values(|s: String| s@))),
            Err(e) => fork_spec(branch@, match entry_id { Some(e) => Some(e@), None => None }, before, opt_view(tip), parent_pairs(parents@))
                == Err::<(Seq<char>, Option<Seq<char>>, Seq<Seq<char>>), Seq<char>>(e@),
        },
{
    let ghost p = parent_pairs(parents@);
    let ghost eid = match entry_id {
        Some(e) => Some(e@),
        None => None::<Seq<char>>,
    };
    let mut current = match tip {
        None => {
            let v: Vec<String> = Vec::new();
            assert(v@.map_values(|s: String| s@) =~= Seq::<Seq<char>>::empty());
            return Ok((to_string(branch), None, v));
        },
        Some(t) => t,
    };
    let ghost t = current@;
    let ghost n = choose|n: nat| walk_ends(p, t, n);
    let ghost v = ancestry(p, t, n);
    let requested = match entry_id {
        Some(e) => chars_of(e),
        None => chars_of(current.as_str()),
    };
    let ghost req = requested@;
    let mut found = false;
    let mut destination_tip: Option<String> = None;
    let mut selected: Vec<String> = Vec::new();
    let ghost mut fuel: nat = n;
    let ghost mut k: int = 0;
    proof {
        lemma_ancestry_nonempty(p, t, n);
        assert(v.skip(0) == v);
        assert(selected@.map_values(|s: String| s@) =~= Seq::<Seq<char>>::empty());
    }
    loop
        invariant_except_break
            0 <= k < v.len(),
            walk_ends(p, current@, fuel),
            v.skip(k) == ancestry(p, current@, fuel),
            select_fold(v, req, before, k) == (found, opt_view(destination_tip), selected@.map_values(|s: String| s@)),
        invariant
            p == parent_pairs(parents@),
            n == choose|n: nat| walk_ends(p, t, n),
            v == ancestry(p, t, n),
            opt_view(tip) == Some(t),
            eid == (match entry_id { Some(e) => Some(e@), None => None::<Seq<char>> }),
            req == (match eid { Some(e) => e, None => t }),
            requested@ == req,
        ensures
            k == v.len() - 1,
            parent_of(p, v.last()) is Some,
            select_fold(v, req, before, v.len() as int) == (found, opt_view(destination_tip), selected@.map_values(|s: String| s@)),
        decreases fuel,
    {
        proof {
            lemma_walk_unfold(p, current@, fuel);
            assert(v[k] == current@);
        }
        let parent = match parent_lookup(parents, current.as_str()) {
            Some(par) => par,
            None => {
                proof {
                    assert(v.skip(k) == seq![current@]);
                    assert(v.len() == k + 1);
                    assert(v.last() == current@);
                }
                let mut msg = chars_of("Corrupt source branch: missing parent ");
                push_str(&mut msg, current.as_str());
                return Err(string_of(&msg));
            },
        };
        proof {
            match parent_of(p, current@) {
                Some(Some(par)) => {
                    assert(v.skip(k).drop_first() == v.skip(k + 1));
                    assert(v.len() > k + 1);
                    assert(v[k + 1] == v.skip(k + 1)[0]);
                    lemma_walk_unfold(p, par, (fuel - 1) as nat);
                    assert(v[k + 1] == par);
                    assert(opt_view(parent) == (if k + 1 < v.len() { Some(v[k + 1]) } else { None::<Seq<char>> }));
                },
                _ => {
                    assert(v.len() == k + 1);
                    assert(opt_view(parent) == (if k + 1 < v.len() { Some(v[k + 1]) } else { None::<Seq<char>> }));
                },
            }
        }
        let ghost before_sel = selected@.map_values(|s: String| s@);
        if eq_chars(&chars_of(current.as_str()), &requested) {
            found = true;
            destination_tip = if before {
                match &parent {
                    Some(x) => Some(copy_string(x)),
                    None => None,
                }
            } else {
                Some(copy_string(&current))
            };
            if !before {
                selected.push(copy_string(&current));
                assert(selected@.map_values(|s: String| s@) =~= before_sel.push(current@));
            }
        } else if found {
            selected.push(copy_string(&current));
            assert(selected@.map_values(|s: String| s@) =~= before_sel.push(current@));
        }
        assert(select_fold(v, req, before, k + 1) == (found, opt_view(destination_tip), selected@.map_values(|s: String| s@)));
        match parent {
            None => {
                break;
            },
            Some(par) => {
                current = par;
                proof {
                    k = k + 1;
                    fuel = (fuel - 1) as nat;
                }
            },
        }
    }
    if !found {
        let mut msg = chars_of("Fork entry ");
        match entry_id {
            Some(e) => {
                push_str(&mut msg, "Some(");
                push_str(&mut msg, debug_str(e).as_str());
                push_str(&mut msg, ")");
            },
            None => {
                push_str(&mut msg, "None");
            },
        }
        push_str(&mut msg, " is not on source branch ");
        push_str(&mut msg, debug_str(branch).as_str());
        assert(msg@ =~= not_on_branch_msg(eid, branch@));
        return Err(string_of(&msg));
    }
    Ok((to_string(branch), destination_tip, selected))
}

// ---------------------------------------------------------------------------
// Current state in a fork
// ---------------------------------------------------------------------------

/// The JSON a branch tip is stored as: the tip's id as a string, or null
/// for an empty branch.
pub uninterp spec fn json_opt_string(s: Option<Seq<char>>) -> serde_json::Value;

/// `tip.map(serde_json::Value::String).unwrap_or(serde_json::Value::Null)`:
/// the value is a function of the tip alone, and `as_str` reads the tip
/// back (a string for a tip, `None` for null).
#[verifier::external_body]
fn json_tip(tip: Option<String>) -> (r: serde_json::Value)
    ensures
        r == json_opt_string(opt_view(tip)),
        crate::storage::json_str_of(r) == opt_view(tip),
{
    tip.map(serde_json::Value::String).unwrap_or(serde_json::Value::Null)
}

/// The address of a live value or list element.
pub open spec fn live_target<M, U>(w: CommittedWrite<M, U>) -> Option<(Seq<char>, Seq<char>)> {
    match w {
        CommittedWrite::ValueSet { namespace, key, .. } => Some((namespace@, key@)),
        CommittedWrite::ListAppend { namespace, key, .. } => Some((namespace@, key@)),
        _ => None,
    }
}

/// A value write with its value replaced; other writes as they are.
pub open spec fn with_value<M, U>(w: CommittedWrite<M, U>, v: serde_json::Value) -> CommittedWrite<M, U> {
    match w {
        CommittedWrite::ValueSet { seq, namespace, key, .. } => CommittedWrite::ValueSet { seq, namespace, key, value: v },
        _ => w,
    }
}

/// The entry `key` is copied into the fork (`None`: every entry is).
pub open spec fn entry_copied(copied: Option<Seq<Seq<char>>>, key: Seq<char>) -> bool {
    match copied {
        Some(ids) => ids.contains(key),
        None => true,
    }
}

/// A plan as plain values: `None` for the whole tree, or the branch and its
/// new tip.
pub open spec fn plan_view(p: ForkCurrentStatePlan) -> Option<(Seq<char>, Option<Seq<char>>)> {
    match p {
        ForkCurrentStatePlan::Tree => None,
        ForkCurrentStatePlan::Branch { branch, destination_tip } => Some((branch@, opt_view(destination_tip))),
    }
}

/// What a fork keeps of one live value or list element: the write as it
/// is, the write with a new value, nothing, or an error for a reserved
/// namespace nobody knows.
pub open spec fn project_spec<M, U>(
    w: CommittedWrite<M, U>,
    plan: Option<(Seq<char>, Option<Seq<char>>)>,
    copied: Option<Seq<Seq<char>>>,
    fresh_lane_state: serde_json::Value,
) -> Result<Option<CommittedWrite<M, U>>, Seq<char>> {
    match live_target(w) {
        None => Ok(None),
        Some(t) => {
            let (ns, key) = t;
            if ns == "pi.session.name"@ {
                Ok(Some(w))
            } else if ns == "pi.entry.label"@ {
                if entry_copied(copied, key) {
                    Ok(Some(w))
                } else {
                    Ok(None)
                }
            } else if ns == "pi.branch.tip"@ {
                match plan {
                    None => Ok(Some(w)),
                    Some((branch, destination_tip)) => if key != branch {
                        Ok(None)
                    } else {
                        Ok(Some(with_value(w, json_opt_string(destination_tip))))
                    },
                }
            } else if ns == "pi.lane.config"@ {
                match plan {
                    None => Ok(Some(w)),
                    Some((branch, _)) => if key == branch {
                        Ok(Some(w))
                    } else {
                        Ok(None)
                    },
                }
            } else if ns == "pi.lane.state"@ {
                match plan {
                    None => Ok(Some(with_value(w, fresh_lane_state))),
                    Some((branch, _)) => if key == branch {
                        Ok(Some(with_value(w, fresh_lane_state)))
                    } else {
                        Ok(None)
                    },
                }
            } else if ns == "pi.result"@ {
                Ok(None)
            } else if "pi.op."@.is_prefix_of(ns) || "pi.pending."@.is_prefix_of(ns) {
                Ok(None)
            } else if ns == "pi"@ || "pi."@.is_prefix_of(ns) {
                Err("Unknown reserved fork namespace: "@ + ns)
            } else {
                match plan {
                    None => Ok(Some(w)),
                    Some(_) => Ok(None),
                }
            }
        },
    }
}

fn has_prefix(s: &str, p: &str) -> (r: bool)
    ensures
        r == p@.is_prefix_of(s@),
{
    let sc = chars_of(s);
    let pc = chars_of(p);
    starts_with(&sc, &pc)
}

fn replace_value<M, U>(w: CommittedWrite<M, U>, v: serde_json::Value) -> (r: CommittedWrite<M, U>)
    ensures
        r == with_value(w, v),
{
    match w {
        CommittedWrite::ValueSet { seq, namespace, key, .. } => CommittedWrite::ValueSet { seq, namespace, key, value: v },
        other => other,
    }
}

pub(crate) fn contains_id(ids: &[String], key: &str) -> (r: bool)
    ensures
        r == ids@.map_values(|s: String| s@).contains(key@),
{
    let ghost v = ids@.map_values(|s: String| s@);
    let mut i: usize = 0;
    while i < ids.len()
        invariant
            i <= ids@.len(),
            v == ids@.map_values(|s: String| s@),
            forall|j: int| 0 <= j < i ==> v[j] != key@,
        decreases ids.len() - i,
    {
        if str_eq(ids[i].as_str(), key) {
            assert(v[i as int] == key@);
            return true;
        }
        i += 1;
    }
    false
}

/// Project one live value or list element into a fork's state: keep it,
/// rewrite it (a branch tip points at the new tip, lane state starts
/// fresh as `fresh_lane_state`), or drop it. `copied` lists the entries the
/// fork copies (`None`: all of them). Deletes are not live state and are
/// dropped.
pub fn project_fork_current_state_write<M, U>(
    write: CommittedWrite<M, U>,
    plan: &ForkCurrentStatePlan,
    copied: Option<&[String]>,
    fresh_lane_state: serde_json::Value,
) -> (r: Result<Option<CommittedWrite<M, U>>, SessionError>)
    ensures
        ({
            let c = match copied {
                Some(ids) => Some(ids@.map_values(|s: String| s@)),
                None => None,
            };
            match r {
                Ok(o) => project_spec(write, plan_view(*plan), c, fresh_lane_state) == Ok::<
                    Option<CommittedWrite<M, U>>,
                    Seq<char>,
                >(o),
                Err(e) => e matches SessionError::Storage(m) && project_spec(write, plan_view(*plan), c, fresh_lane_state)
                    == Err::<Option<CommittedWrite<M, U>>, Seq<char>>(m@),
            }
        }),
        // The tip written for the forked branch reads back as the planned tip.
        match plan_view(*plan) {
            Some(p) => (write is ValueSet && live_target(write) == Some(("pi.branch.tip"@, p.0))) ==> (r matches Ok(
                Some(w2),
            ) && w2 matches CommittedWrite::ValueSet { value, .. } && crate::storage::json_str_of(value) == p.1),
            None => true,
        },
{
    let (ns, key) = match &write {
        CommittedWrite::ValueSet { namespace, key, .. } => (to_string(namespace.as_str()), to_string(key.as_str())),
        CommittedWrite::ListAppend { namespace, key, .. } => (to_string(namespace.as_str()), to_string(key.as_str())),
        _ => return Ok(None),
    };
    let ns = ns.as_str();
    let key = key.as_str();
    proof {
        reveal_strlit("pi.session.name");
        reveal_strlit("pi.entry.label");
        reveal_strlit("pi.branch.tip");
        assert("pi.session.name"@.len() == 15);
        assert("pi.entry.label"@.len() == 14);
        assert("pi.branch.tip"@.len() == 13);
    }
    if str_eq(ns, "pi.session.name") {
        return Ok(Some(write));
    }
    if str_eq(ns, "pi.entry.label") {
        let copied_here = match copied {
            Some(ids) => contains_id(ids, key),
            None => true,
        };
        return if copied_here {
            Ok(Some(write))
        } else {
            Ok(None)
        };
    }
    if str_eq(ns, "pi.branch.tip") {
        return match plan {
            ForkCurrentStatePlan::Tree => Ok(Some(write)),
            ForkCurrentStatePlan::Branch { branch, destination_tip } => {
                if !str_eq(key, branch.as_str()) {
                    Ok(None)
                } else {
                    let tip = match destination_tip {
                        Some(t) => Some(to_string(t.as_str())),
                        None => None,
                    };
                    Ok(Some(replace_value(write, json_tip(tip))))
                }
            },
        };
    }
    if str_eq(ns, "pi.lane.config") {
        return match plan {
            ForkCurrentStatePlan::Tree => Ok(Some(write)),
            ForkCurrentStatePlan::Branch { branch, .. } => if str_eq(key, branch.as_str()) {
                Ok(Some(write))
            } else {
                Ok(None)
            },
        };
    }
    if str_eq(ns, "pi.lane.state") {
        return match plan {
            ForkCurrentStatePlan::Tree => Ok(Some(replace_value(write, fresh_lane_state))),
            ForkCurrentStatePlan::Branch { branch, .. } => if str_eq(key, branch.as_str()) {
                Ok(Some(replace_value(write, fresh_lane_state)))
            } else {
                Ok(None)
            },
        };
    }
    if str_eq(ns, "pi.result") {
        return Ok(None);
    }
    if has_prefix(ns, "pi.op.") || has_prefix(ns, "pi.pending.") {
        return Ok(None);
    }
    if str_eq(ns, "pi") || has_prefix(ns, "pi.") {
        let mut msg = chars_of("Unknown reserved fork namespace: ");
        push_str(&mut msg, ns);
        return Err(SessionError::Storage(string_of(&msg)));
    }
    match plan {
        ForkCurrentStatePlan::Tree => Ok(Some(write)),
        ForkCurrentStatePlan::Branch { .. } => Ok(None),
    }
}

} // verus!
