//! Which entries of a branch path rebuild the provider-facing context.

use vstd::prelude::*;
use crate::commit::{Entry, EntryBody};

verus! {

/// The position of the newest compaction entry among the first `k`.
pub open spec fn last_compaction<M, U>(s: Seq<Entry<M, U>>, k: int) -> Option<int>
    decreases k,
{
    if k <= 0 {
        None
    } else if s[k - 1].body is Compaction {
        Some(k - 1)
    } else {
        last_compaction(s, k - 1)
    }
}

/// Keep only the newest compaction entry and everything after it (the
/// whole path when there is none). The path is taken by value, as the
/// kept entries are moved, not copied.
pub fn build_context_entries<M, U>(path_entries: Vec<Entry<M, U>>) -> (r: Vec<Entry<M, U>>)
    ensures
        r@ == (match last_compaction(path_entries@, path_entries@.len() as int) {
            Some(i) => path_entries@.skip(i),
            None => path_entries@,
        }),
{
    let ghost s = path_entries@;
    let mut k: usize = path_entries.len();
    let mut found: Option<usize> = None;
    while k > 0
        invariant
            k <= s.len(),
            path_entries@ == s,
            found is None ==> last_compaction(s, s.len() as int) == last_compaction(s, k as int),
            found matches Some(i) ==> last_compaction(s, s.len() as int) == Some(i as int) && i < s.len(),
        decreases k,
    {
        if found.is_none() {
            if matches!(path_entries[k - 1].body, EntryBody::Compaction { .. }) {
                found = Some(k - 1);
            }
        }
        k -= 1;
    }
    match found {
        None => path_entries,
        Some(i) => {
            let mut rest = path_entries;
            let tail = rest.split_off(i);
            assert(tail@ =~= s.skip(i as int));
            tail
        },
    }
}

} // verus!
