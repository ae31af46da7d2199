//! Ordered string-keyed maps as sorted association lists.
//!
//! Keys are kept in lexicographic order, one entry per key, which is the
//! iteration order and overwrite behaviour of a `BTreeMap<String, _>`.

use vstd::prelude::*;
use crate::text::{eq_chars, chars_of, lex_less, lex_lt, lemma_lex_total};

verus! {

/// Inserting `(k, v)` into a sorted list: overwrite an equal key, or insert
/// before the first greater key.
pub open spec fn sorted_insert<V>(s: Seq<(Seq<char>, V)>, k: Seq<char>, v: V) -> Seq<(Seq<char>, V)>
    decreases s.len(),
{
    if s.len() == 0 {
        seq![(k, v)]
    } else if s[0].0 == k {
        s.update(0, (k, v))
    } else if lex_lt(k, s[0].0) {
        seq![(k, v)] + s
    } else {
        seq![s[0]] + sorted_insert(s.drop_first(), k, v)
    }
}

/// The value of the first entry with key `k`.
pub open spec fn assoc_get<V>(s: Seq<(Seq<char>, V)>, k: Seq<char>) -> Option<V>
    decreases s.len(),
{
    if s.len() == 0 {
        None
    } else if s[0].0 == k {
        Some(s[0].1)
    } else {
        assoc_get(s.drop_first(), k)
    }
}

/// Keys strictly increasing.
pub open spec fn keys_sorted<V>(s: Seq<(Seq<char>, V)>) -> bool {
    forall|i: int, j: int| 0 <= i < j < s.len() ==> lex_lt(s[i].0, s[j].0)
}

pub open spec fn str_pairs(v: Seq<(String, String)>) -> Seq<(Seq<char>, Seq<char>)> {
    v.map_values(|p: (String, String)| (p.0@, p.1@))
}

proof fn lemma_sorted_insert_prefix<V>(s: Seq<(Seq<char>, V)>, k: Seq<char>, v: V, i: int)
    requires
        0 <= i <= s.len(),
        forall|j: int| 0 <= j < i ==> s[j].0 != k && !lex_lt(k, s[j].0),
    ensures
        sorted_insert(s, k, v) == s.take(i) + sorted_insert(s.skip(i), k, v),
    decreases i,
{
    if i > 0 {
        lemma_sorted_insert_prefix(s.drop_first(), k, v, i - 1);
        assert(s.drop_first().take(i - 1) == s.take(i).drop_first());
        assert(s.drop_first().skip(i - 1) == s.skip(i));
        assert(s.take(i) == seq![s[0]] + s.take(i).drop_first());
    } else {
        assert(s.skip(0) == s);
    }
}

/// Inserts `(k, v)`, overwriting an equal key.
pub fn insert_str(m: &mut Vec<(String, String)>, k: String, v: String)
    ensures
        str_pairs(final(m)@) == sorted_insert(str_pairs(old(m)@), k@, v@),
{
    let ghost s = str_pairs(m@);
    let kc = chars_of(k.as_str());
    let mut i: usize = 0;
    while i < m.len()
        invariant
            i <= m@.len(),
            s == str_pairs(m@),
            kc@ == k@,
            forall|j: int| 0 <= j < i ==> s[j].0 != k@ && !lex_lt(k@, s[j].0),
        ensures
            i < m@.len() ==> (s[i as int].0 == k@ || lex_lt(k@, s[i as int].0)),
        decreases m.len() - i,
    {
        let ki = chars_of(m[i].0.as_str());
        assert(s[i as int].0 == ki@);
        if eq_chars(&ki, &kc) || lex_less(&kc, &ki) {
            break;
        }
        i += 1;
    }
    proof {
        lemma_sorted_insert_prefix(s, k@, v@, i as int);
    }
    if i < m.len() {
        let ki = chars_of(m[i].0.as_str());
        assert(s[i as int].0 == ki@);
        assert(s.skip(i as int)[0] == s[i as int]);
        if eq_chars(&ki, &kc) {
            m.set(i, (k, v));
            proof {
                assert(str_pairs(m@) =~= s.take(i as int) + s.skip(i as int).update(0, (k@, v@)));
            }
            return;
        }
    }
    m.insert(i, (k, v));
    proof {
        if i < s.len() {
            assert(s.skip(i as int)[0] == s[i as int]);
        }
        if i == s.len() {
            assert(s.skip(i as int) == Seq::<(Seq<char>, Seq<char>)>::empty());
        }
        assert(str_pairs(m@) =~= s.take(i as int) + (seq![(k@, v@)] + s.skip(i as int)));
    }
}

proof fn lemma_assoc_get_prefix<V>(s: Seq<(Seq<char>, V)>, k: Seq<char>, i: int)
    requires
        0 <= i <= s.len(),
        forall|j: int| 0 <= j < i ==> s[j].0 != k,
    ensures
        assoc_get(s, k) == assoc_get(s.skip(i), k),
    decreases i,
{
    if i > 0 {
        lemma_assoc_get_prefix(s.drop_first(), k, i - 1);
        assert(s.drop_first().skip(i - 1) == s.skip(i));
    } else {
        assert(s.skip(0) == s);
    }
}

/// Position of the first entry with key `k`.
pub fn position_str(m: &Vec<(String, String)>, k: &str) -> (r: Option<usize>)
    ensures
        match r {
            Some(i) => i < m@.len() && assoc_get(str_pairs(m@), k@) == Some(m@[i as int].1@) && m@[i as int].0@ == k@,
            None => assoc_get(str_pairs(m@), k@) is None,
        },
{
    let ghost s = str_pairs(m@);
    let kc = chars_of(k);
    let mut i: usize = 0;
    while i < m.len()
        invariant
            i <= m@.len(),
            s == str_pairs(m@),
            kc@ == k@,
            forall|j: int| 0 <= j < i ==> s[j].0 != k@,
        decreases m.len() - i,
    {
        let ki = chars_of(m[i].0.as_str());
        assert(s[i as int].0 == ki@);
        if eq_chars(&ki, &kc) {
            proof {
                lemma_assoc_get_prefix(s, k@, i as int);
                assert(s.skip(i as int)[0] == s[i as int]);
            }
            return Some(i);
        }
        i += 1;
    }
    proof {
        lemma_assoc_get_prefix(s, k@, i as int);
        assert(s.skip(i as int) == Seq::<(Seq<char>, Seq<char>)>::empty());
    }
    None
}


pub open spec fn opt_view(o: Option<String>) -> Option<Seq<char>> {
    match o {
        Some(s) => Some(s@),
        None => None,
    }
}

pub open spec fn opt_pairs(v: Seq<(String, Option<String>)>) -> Seq<(Seq<char>, Option<Seq<char>>)> {
    v.map_values(|p: (String, Option<String>)| (p.0@, opt_view(p.1)))
}

/// Inserts `(k, v)` into a map with optional values, overwriting an equal key.
pub fn insert_opt(m: &mut Vec<(String, Option<String>)>, k: String, v: Option<String>)
    ensures
        opt_pairs(final(m)@) == sorted_insert(opt_pairs(old(m)@), k@, opt_view(v)),
{
    let ghost s = opt_pairs(m@);
    let ghost vv = opt_view(v);
    let kc = chars_of(k.as_str());
    let mut i: usize = 0;
    while i < m.len()
        invariant
            i <= m@.len(),
            s == opt_pairs(m@),
            kc@ == k@,
            forall|j: int| 0 <= j < i ==> s[j].0 != k@ && !lex_lt(k@, s[j].0),
        ensures
            i < m@.len() ==> (s[i as int].0 == k@ || lex_lt(k@, s[i as int].0)),
        decreases m.len() - i,
    {
        let ki = chars_of(m[i].0.as_str());
        assert(s[i as int].0 == ki@);
        if eq_chars(&ki, &kc) || lex_less(&kc, &ki) {
            break;
        }
        i += 1;
    }
    proof {
        lemma_sorted_insert_prefix(s, k@, vv, i as int);
        if i < s.len() {
            assert(s.skip(i as int)[0] == s[i as int]);
        }
    }
    if i < m.len() {
        let ki = chars_of(m[i].0.as_str());
        assert(s[i as int].0 == ki@);
        if eq_chars(&ki, &kc) {
            m.set(i, (k, v));
            proof {
                assert(opt_pairs(m@) =~= s.take(i as int) + s.skip(i as int).update(0, (k@, vv)));
            }
            return;
        }
    }
    m.insert(i, (k, v));
    proof {
        if i == s.len() {
            assert(s.skip(i as int) == Seq::<(Seq<char>, Option<Seq<char>>)>::empty());
        }
        assert(opt_pairs(m@) =~= s.take(i as int) + (seq![(k@, vv)] + s.skip(i as int)));
    }
}

/// The ordered map built by inserting the first `k` pairs in order.
pub open spec fn assoc_of<V>(pairs: Seq<(Seq<char>, V)>, k: int) -> Seq<(Seq<char>, V)>
    decreases k,
{
    if k <= 0 {
        Seq::empty()
    } else {
        sorted_insert(assoc_of(pairs, k - 1), pairs[k - 1].0, pairs[k - 1].1)
    }
}

/// Copy of a string.
pub fn copy_string(s: &String) -> (r: String)
    ensures
        r@ == s@,
{
    crate::text::to_string(s.as_str())
}

/// Ordered map of `pairs` (later pairs overwrite earlier ones).
pub fn map_of_pairs(pairs: &[(String, String)]) -> (r: Vec<(String, String)>)
    ensures
        str_pairs(r@) == assoc_of(str_pairs(pairs@), pairs@.len() as int),
{
    let mut m: Vec<(String, String)> = Vec::new();
    let mut i: usize = 0;
    assert(str_pairs(m@) =~= Seq::<(Seq<char>, Seq<char>)>::empty());
    while i < pairs.len()
        invariant
            i <= pairs@.len(),
            str_pairs(m@) == assoc_of(str_pairs(pairs@), i as int),
        decreases pairs.len() - i,
    {
        assert(str_pairs(pairs@)[i as int] == (pairs@[i as int].0@, pairs@[i as int].1@));
        insert_str(&mut m, copy_string(&pairs[i].0), copy_string(&pairs[i].1));
        i += 1;
    }
    m
}

/// `s` without the entries for key `k`.
pub open spec fn sorted_remove<V>(s: Seq<(Seq<char>, V)>, k: Seq<char>) -> Seq<(Seq<char>, V)>
    decreases s.len(),
{
    if s.len() == 0 {
        s
    } else if s.last().0 == k {
        sorted_remove(s.drop_last(), k)
    } else {
        sorted_remove(s.drop_last(), k).push(s.last())
    }
}

/// Removes key `k` from a string map.
pub fn remove_str(m: &mut Vec<(String, String)>, k: &str)
    ensures
        str_pairs(final(m)@) == sorted_remove(str_pairs(old(m)@), k@),
{
    let ghost s = str_pairs(m@);
    let mut out: Vec<(String, String)> = Vec::new();
    let mut i: usize = 0;
    let key = crate::text::to_string(k);
    assert(str_pairs(out@) =~= sorted_remove(s.take(0), k@));
    while i < m.len()
        invariant
            i <= m@.len(),
            s == str_pairs(m@),
            key@ == k@,
            str_pairs(out@) == sorted_remove(s.take(i as int), k@),
        decreases m.len() - i,
    {
        let ghost t = s.take(i as int + 1);
        assert(t.drop_last() =~= s.take(i as int));
        assert(t.last() == s[i as int]);
        if m[i].0 != key {
            let ghost before = str_pairs(out@);
            out.push((m[i].0.clone(), m[i].1.clone()));
            assert(str_pairs(out@) =~= before.push(s[i as int]));
        }
        i += 1;
    }
    assert(s.take(s.len() as int) =~= s);
    *m = out;
}

/// A string-keyed list with its keys taken as characters.
pub open spec fn keyed<V>(m: Seq<(String, V)>) -> Seq<(Seq<char>, V)> {
    m.map_values(|p: (String, V)| (p.0@, p.1))
}

/// Inserts `(k, v)` into a sorted string-keyed list, overwriting an equal key.
pub fn put_keyed<V>(m: &mut Vec<(String, V)>, k: String, v: V)
    ensures
        keyed(final(m)@) == sorted_insert(keyed(old(m)@), k@, v),
{
    let ghost s = keyed(m@);
    let ghost kv = k@;
    let ghost vv = v;
    let kc = chars_of(k.as_str());
    let mut i: usize = 0;
    while i < m.len()
        invariant
            i <= m@.len(),
            s == keyed(m@),
            kc@ == kv,
            forall|j: int| 0 <= j < i ==> s[j].0 != kv && !lex_lt(kv, s[j].0),
        ensures
            i < m@.len() ==> (s[i as int].0 == kv || lex_lt(kv, s[i as int].0)),
        decreases m.len() - i,
    {
        let ki = chars_of(m[i].0.as_str());
        assert(s[i as int].0 == ki@);
        if eq_chars(&ki, &kc) || lex_less(&kc, &ki) {
            break;
        }
        i += 1;
    }
    proof {
        lemma_sorted_insert_prefix(s, kv, vv, i as int);
    }
    if i < m.len() {
        let ki = chars_of(m[i].0.as_str());
        assert(s[i as int].0 == ki@);
        assert(s.skip(i as int)[0] == s[i as int]);
        if eq_chars(&ki, &kc) {
            m.set(i, (k, v));
            proof {
                assert(keyed(m@) =~= s.take(i as int) + s.skip(i as int).update(0, (kv, vv)));
            }
            return;
        }
    }
    m.insert(i, (k, v));
    proof {
        if i < s.len() {
            assert(s.skip(i as int)[0] == s[i as int]);
        }
        if i == s.len() {
            assert(s.skip(i as int) == Seq::<(Seq<char>, V)>::empty());
        }
        assert(keyed(m@) =~= s.take(i as int) + (seq![(kv, vv)] + s.skip(i as int)));
    }
}

/// Position of the entry with key `k` in a string-keyed list.
pub fn position_keyed<V>(m: &Vec<(String, V)>, k: &str) -> (r: Option<usize>)
    ensures
        match r {
            Some(i) => i < m@.len() && assoc_get(keyed(m@), k@) == Some(m@[i as int].1) && m@[i as int].0@ == k@,
            None => assoc_get(keyed(m@), k@) is None,
        },
{
    let ghost s = keyed(m@);
    let kc = chars_of(k);
    let mut i: usize = 0;
    while i < m.len()
        invariant
            i <= m@.len(),
            s == keyed(m@),
            kc@ == k@,
            forall|j: int| 0 <= j < i ==> s[j].0 != k@,
        decreases m.len() - i,
    {
        let ki = chars_of(m[i].0.as_str());
        assert(s[i as int].0 == ki@);
        if eq_chars(&ki, &kc) {
            proof {
                lemma_assoc_get_prefix(s, k@, i as int);
                assert(s.skip(i as int)[0] == s[i as int]);
            }
            return Some(i);
        }
        i += 1;
    }
    proof {
        lemma_assoc_get_prefix(s, k@, i as int);
        assert(s.skip(i as int) == Seq::<(Seq<char>, V)>::empty());
    }
    None
}

/// Removes key `k` from a string-keyed list.
pub fn drop_keyed<V>(m: &mut Vec<(String, V)>, k: &str)
    ensures
        keyed(final(m)@) == sorted_remove(keyed(old(m)@), k@),
{
    let ghost s = keyed(m@);
    let kc = chars_of(k);
    let mut out: Vec<(String, V)> = Vec::new();
    let mut rest: Vec<(String, V)> = Vec::new();
    std::mem::swap(m, &mut rest);
    let ghost r0 = rest@;
    let n = rest.len();
    assert(keyed(out@) =~= sorted_remove(s.take(0), k@));
    for p in it: rest
        invariant
            it.seq() == r0,
            keyed(r0) == s,
            n == r0.len(),
            kc@ == k@,
            keyed(out@) == sorted_remove(s.take(it.index() as int), k@),
    {
        let ghost idx = it.index() as int;
        let ghost t = s.take(idx + 1);
        assert(t.drop_last() =~= s.take(idx));
        assert(t.last() == s[idx]);
        assert(s[idx] == (p.0@, p.1));
        let pc = chars_of(p.0.as_str());
        if !eq_chars(&pc, &kc) {
            let ghost before = keyed(out@);
            let ghost pv = (p.0@, p.1);
            out.push(p);
            assert(keyed(out@) =~= before.push(pv));
        }
    }
    assert(s.take(s.len() as int) =~= s);
    *m = out;
}

/// Looking up a key after appending a pair: an earlier pair still wins.
pub proof fn lemma_get_push<V>(t: Seq<(Seq<char>, V)>, x: (Seq<char>, V), k: Seq<char>)
    ensures
        assoc_get(t.push(x), k) == match assoc_get(t, k) {
            Some(v) => Some(v),
            None => if x.0 == k {
                Some(x.1)
            } else {
                None
            },
        },
    decreases t.len(),
{
    if t.len() == 0 {
        assert(t.push(x).drop_first() =~= t);
    } else {
        assert(t.push(x)[0] == t[0]);
        assert(t.push(x).drop_first() =~= t.drop_first().push(x));
        lemma_get_push(t.drop_first(), x, k);
    }
}

/// Looking up a key after a sorted insert: the inserted value for its own
/// key, the old value for any other.
pub proof fn lemma_get_insert<V>(s: Seq<(Seq<char>, V)>, k: Seq<char>, v: V, k2: Seq<char>)
    ensures
        assoc_get(sorted_insert(s, k, v), k2) == if k2 == k {
            Some(v)
        } else {
            assoc_get(s, k2)
        },
    decreases s.len(),
{
    if s.len() == 0 {
        assert(seq![(k, v)].drop_first() =~= s);
    } else if s[0].0 == k {
        assert(s.update(0, (k, v)).drop_first() =~= s.drop_first());
    } else if lex_lt(k, s[0].0) {
        assert((seq![(k, v)] + s).drop_first() =~= s);
    } else {
        lemma_get_insert(s.drop_first(), k, v, k2);
        let t = sorted_insert(s.drop_first(), k, v);
        assert((seq![s[0]] + t).drop_first() =~= t);
    }
}

} // verus!
