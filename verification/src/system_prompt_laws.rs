//! What a section patch promises: it names exactly the sections whose
//! content changed, and applying it to the previous sections gives the
//! current ones.

use vstd::prelude::*;
use crate::assoc::{assoc_get, assoc_of, keys_sorted, lemma_get_insert, lemma_get_push, sorted_insert};
use crate::system_prompt::{changed_entries, patch_spec, removed_entries};
use crate::text::{lemma_lex_irreflexive, lemma_lex_total, lemma_lex_trans, lex_lt};

verus! {

/// Every key of `s` is above `x`.
spec fn all_above<V>(s: Seq<(Seq<char>, V)>, x: Seq<char>) -> bool {
    forall|j: int| 0 <= j < s.len() ==> lex_lt(x, #[trigger] s[j].0)
}

proof fn lemma_insert_sorted<V>(s: Seq<(Seq<char>, V)>, k: Seq<char>, v: V, x: Seq<char>)
    requires
        keys_sorted(s),
    ensures
        keys_sorted(sorted_insert(s, k, v)),
        all_above(s, x) && lex_lt(x, k) ==> all_above(sorted_insert(s, k, v), x),
    decreases s.len(),
{
    if s.len() == 0 {
    } else if s[0].0 == k {
        let t = s.update(0, (k, v));
        assert forall|i: int, j: int| 0 <= i < j < t.len() implies lex_lt(t[i].0, t[j].0) by {
            assert(t[i].0 == s[i].0 && t[j].0 == s[j].0);
        }
        if all_above(s, x) && lex_lt(x, k) {
            assert forall|j: int| 0 <= j < t.len() implies lex_lt(x, #[trigger] t[j].0) by {
                assert(t[j].0 == s[j].0);
            }
        }
    } else if lex_lt(k, s[0].0) {
        let t = seq![(k, v)] + s;
        assert forall|i: int, j: int| 0 <= i < j < t.len() implies lex_lt(t[i].0, t[j].0) by {
            if i == 0 {
                if j > 1 {
                    lemma_lex_trans(k, s[0].0, s[j - 1].0);
                }
            } else {
                assert(t[i] == s[i - 1] && t[j] == s[j - 1]);
            }
        }
        if all_above(s, x) && lex_lt(x, k) {
            assert forall|j: int| 0 <= j < t.len() implies lex_lt(x, #[trigger] t[j].0) by {
                if j > 0 {
                    assert(t[j] == s[j - 1]);
                }
            }
        }
    } else {
        lemma_lex_total(k, s[0].0);
        let rest = s.drop_first();
        assert forall|i: int, j: int| 0 <= i < j < rest.len() implies lex_lt(rest[i].0, rest[j].0) by {
            assert(rest[i] == s[i + 1] && rest[j] == s[j + 1]);
        }
        assert forall|j: int| 0 <= j < rest.len() implies lex_lt(s[0].0, #[trigger] rest[j].0) by {
            assert(rest[j] == s[j + 1]);
        }
        lemma_insert_sorted(rest, k, v, s[0].0);
        let u = sorted_insert(rest, k, v);
        if all_above(s, x) && lex_lt(x, k) {
            assert forall|j: int| 0 <= j < rest.len() implies lex_lt(x, #[trigger] rest[j].0) by {
                assert(rest[j] == s[j + 1]);
            }
            lemma_insert_sorted(rest, k, v, x);
        }
        let t = seq![s[0]] + u;
        assert forall|i: int, j: int| 0 <= i < j < t.len() implies lex_lt(t[i].0, t[j].0) by {
            if i == 0 {
                assert(t[j] == u[j - 1]);
            } else {
                assert(t[i] == u[i - 1] && t[j] == u[j - 1]);
            }
        }
        if all_above(s, x) && lex_lt(x, k) {
            assert forall|j: int| 0 <= j < t.len() implies lex_lt(x, #[trigger] t[j].0) by {
                if j > 0 {
                    assert(t[j] == u[j - 1]);
                }
            }
        }
    }
}

proof fn lemma_assoc_of_sorted<V>(pairs: Seq<(Seq<char>, V)>, k: int)
    ensures
        keys_sorted(assoc_of(pairs, k)),
    decreases k,
{
    if k > 0 {
        lemma_assoc_of_sorted(pairs, k - 1);
        lemma_insert_sorted(assoc_of(pairs, k - 1), pairs[k - 1].0, pairs[k - 1].1, pairs[k - 1].0);
    }
}

proof fn lemma_get_absent<V>(s: Seq<(Seq<char>, V)>, x: Seq<char>)
    requires
        forall|j: int| 0 <= j < s.len() ==> (#[trigger] s[j]).0 != x,
    ensures
        assoc_get(s, x) is None,
    decreases s.len(),
{
    if s.len() > 0 {
        assert(s[0].0 != x);
        assert forall|j: int| 0 <= j < s.drop_first().len() implies (#[trigger] s.drop_first()[j]).0 != x by {
            assert(s.drop_first()[j] == s[j + 1]);
        }
        lemma_get_absent(s.drop_first(), x);
    }
}

/// The first `n` current sections give, for each name, their new content
/// when it differs from the previous one.
proof fn lemma_changed(prev: Seq<(Seq<char>, Seq<char>)>, cur: Seq<(Seq<char>, Seq<char>)>, n: int, x: Seq<char>)
    requires
        0 <= n <= cur.len(),
        keys_sorted(cur),
    ensures
        assoc_get(changed_entries(prev, cur, n), x) == match assoc_get(cur.take(n), x) {
            Some(v) => if assoc_get(prev, x) != Some(v) {
                Some(Some(v))
            } else {
                None
            },
            None => None,
        },
    decreases n,
{
    if n == 0 {
        assert(cur.take(0) =~= Seq::<(Seq<char>, Seq<char>)>::empty());
    } else {
        lemma_changed(prev, cur, n - 1, x);
        let e = cur[n - 1];
        assert(cur.take(n) =~= cur.take(n - 1).push(e));
        lemma_get_push(cur.take(n - 1), e, x);
        let p = changed_entries(prev, cur, n - 1);
        if assoc_get(prev, e.0) != Some(e.1) {
            lemma_get_insert(p, e.0, Some(e.1), x);
        }
        if x == e.0 {
            assert forall|j: int| 0 <= j < cur.take(n - 1).len() implies (#[trigger] cur.take(n - 1)[j]).0 != x by {
                assert(lex_lt(cur[j].0, cur[n - 1].0));
                lemma_lex_irreflexive(x);
            }
            lemma_get_absent(cur.take(n - 1), x);
        }
    }
}

/// Adding the removed sections: `None` for each name the previous sections
/// have and the current ones lack.
proof fn lemma_removed(
    prev: Seq<(Seq<char>, Seq<char>)>,
    cur: Seq<(Seq<char>, Seq<char>)>,
    patch: Seq<(Seq<char>, Option<Seq<char>>)>,
    n: int,
    x: Seq<char>,
)
    requires
        0 <= n <= prev.len(),
    ensures
        assoc_get(removed_entries(prev, cur, patch, n), x) == if assoc_get(prev.take(n), x) is Some && assoc_get(
            cur,
            x,
        ) is None {
            Some(None)
        } else {
            assoc_get(patch, x)
        },
    decreases n,
{
    if n == 0 {
        assert(prev.take(0) =~= Seq::<(Seq<char>, Seq<char>)>::empty());
    } else {
        lemma_removed(prev, cur, patch, n - 1, x);
        let e = prev[n - 1];
        assert(prev.take(n) =~= prev.take(n - 1).push(e));
        lemma_get_push(prev.take(n - 1), e, x);
        let p = removed_entries(prev, cur, patch, n - 1);
        if assoc_get(cur, e.0) is None {
            lemma_get_insert(p, e.0, None::<Seq<char>>, x);
        }
    }
}

/// The patch between two section lists (a later section with the same
/// name wins) names exactly the sections whose content differs, each with
/// its current content (`None` when removed); so applying it to the
/// previous sections gives the current ones.
pub proof fn lemma_patch_gives_current(
    previous: Seq<(Seq<char>, Seq<char>)>,
    current: Seq<(Seq<char>, Seq<char>)>,
    x: Seq<char>,
)
    ensures
        ({
            let pm = assoc_of(previous, previous.len() as int);
            let cm = assoc_of(current, current.len() as int);
            let p = patch_spec(previous, current);
            &&& (assoc_get(p, x) is Some <==> assoc_get(pm, x) != assoc_get(cm, x))
            &&& (assoc_get(p, x) matches Some(v) ==> v == assoc_get(cm, x))
            &&& (match assoc_get(p, x) {
                Some(v) => v,
                None => assoc_get(pm, x),
            }) == assoc_get(cm, x)
        }),
{
    let pm = assoc_of(previous, previous.len() as int);
    let cm = assoc_of(current, current.len() as int);
    lemma_assoc_of_sorted(current, current.len() as int);
    lemma_changed(pm, cm, cm.len() as int, x);
    assert(cm.take(cm.len() as int) =~= cm);
    lemma_removed(pm, cm, changed_entries(pm, cm, cm.len() as int), pm.len() as int, x);
    assert(pm.take(pm.len() as int) =~= pm);
}

/// The patch is empty exactly when the two section lists name the same
/// contents.
pub proof fn lemma_patch_empty_iff_same(previous: Seq<(Seq<char>, Seq<char>)>, current: Seq<(Seq<char>, Seq<char>)>)
    ensures
        patch_spec(previous, current).len() == 0 <==> forall|x: Seq<char>|
            assoc_get(assoc_of(previous, previous.len() as int), x) == #[trigger] assoc_get(
                assoc_of(current, current.len() as int),
                x,
            ),
{
    let p = patch_spec(previous, current);
    let pm = assoc_of(previous, previous.len() as int);
    let cm = assoc_of(current, current.len() as int);
    if p.len() == 0 {
        assert forall|x: Seq<char>| assoc_get(pm, x) == #[trigger] assoc_get(cm, x) by {
            lemma_patch_gives_current(previous, current, x);
        }
    } else {
        let x = p[0].0;
        lemma_patch_gives_current(previous, current, x);
        assert(assoc_get(p, x) is Some);
    }
}

} // verus!
