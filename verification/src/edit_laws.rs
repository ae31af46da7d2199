//! What the edit normalizations promise: line-ending normalization undoes
//! restoring either ending, and fuzzy normalization is a normal form that
//! keeps the line count.

use vstd::prelude::*;
use crate::edit_diff::{fuzzy_char, normalize_fuzzy_spec, normalize_to_lf_spec};
use crate::text::{is_ws, join_spec, map_chars, replace_spec, split_spec, trim_end_spec};

verus! {

/// Replacing a pattern that starts with a character `s` lacks leaves `s` alone.
proof fn lemma_replace_absent(s: Seq<char>, p: Seq<char>, r: Seq<char>)
    requires
        p.len() > 0,
        !s.contains(p[0]),
    ensures
        replace_spec(s, p, r) == s,
    decreases s.len(),
{
    if !(p.len() == 0 || s.len() < p.len()) {
        assert(s.subrange(0, p.len() as int)[0] == s[0]);
        assert(s.subrange(0, p.len() as int) != p);
        assert forall|c: char| s.drop_first().contains(c) implies s.contains(c) by {
            let i = choose|i: int| 0 <= i < s.drop_first().len() && s.drop_first()[i] == c;
            assert(s[i + 1] == c);
        }
        lemma_replace_absent(s.drop_first(), p, r);
        assert(seq![s[0]] + s.drop_first() =~= s);
    }
}

/// Replacing every carriage return by a newline leaves none.
proof fn lemma_no_cr_after(s: Seq<char>)
    ensures
        !replace_spec(s, seq!['\r'], seq!['\n']).contains('\r'),
    decreases s.len(),
{
    let p = seq!['\r'];
    if !(s.len() < 1) {
        if s.subrange(0, 1) == p {
            lemma_no_cr_after(s.subrange(1, s.len() as int));
            let t = replace_spec(s.subrange(1, s.len() as int), p, seq!['\n']);
            assert forall|i: int| 0 <= i < (seq!['\n'] + t).len() implies (seq!['\n'] + t)[i] != '\r' by {
                if i > 0 {
                    assert((seq!['\n'] + t)[i] == t[i - 1]);
                    assert(!t.contains('\r'));
                    if t[i - 1] == '\r' {
                        assert(t.contains(t[i - 1]));
                    }
                }
            }
        } else {
            assert(s.subrange(0, 1)[0] == s[0]);
            assert(s[0] != '\r') by {
                if s[0] == '\r' {
                    assert(s.subrange(0, 1) =~= p);
                }
            }
            lemma_no_cr_after(s.drop_first());
            let t = replace_spec(s.drop_first(), p, seq!['\n']);
            assert forall|i: int| 0 <= i < (seq![s[0]] + t).len() implies (seq![s[0]] + t)[i] != '\r' by {
                if i > 0 {
                    assert((seq![s[0]] + t)[i] == t[i - 1]);
                    if t[i - 1] == '\r' {
                        assert(t.contains(t[i - 1]));
                    }
                }
            }
        }
    }
}

/// Turning each newline into CR LF and back gives the text again.
proof fn lemma_crlf_round_trip(t: Seq<char>)
    requires
        !t.contains('\r'),
    ensures
        replace_spec(replace_spec(t, seq!['\n'], seq!['\r', '\n']), seq!['\r', '\n'], seq!['\n']) == t,
    decreases t.len(),
{
    let lf = seq!['\n'];
    let crlf = seq!['\r', '\n'];
    if t.len() > 0 {
        let rest = t.drop_first();
        assert forall|c: char| rest.contains(c) implies t.contains(c) by {
            let i = choose|i: int| 0 <= i < rest.len() && rest[i] == c;
            assert(t[i + 1] == c);
        }
        lemma_crlf_round_trip(rest);
        let inner_rest = replace_spec(rest, lf, crlf);
        assert(t.subrange(0, 1)[0] == t[0]);
        assert(t.subrange(1, t.len() as int) =~= rest);
        if t[0] == '\n' {
            assert(t.subrange(0, 1) =~= lf);
            let x = crlf + inner_rest;
            assert(x.subrange(0, 2) =~= crlf);
            assert(x.subrange(2, x.len() as int) =~= inner_rest);
            assert(lf + rest =~= t);
        } else {
            assert(t.subrange(0, 1) != lf);
            assert(t[0] != '\r') by {
                if t[0] == '\r' {
                    assert(t.contains(t[0]));
                }
            }
            let x = seq![t[0]] + inner_rest;
            assert(x.drop_first() =~= inner_rest);
            if x.len() >= 2 {
                assert(x.subrange(0, 2)[0] == t[0]);
                assert(x.subrange(0, 2) != crlf);
            } else {
                assert(inner_rest.len() == 0);
                assert(replace_spec(inner_rest, crlf, lf) == inner_rest);
            }
            assert(seq![t[0]] + rest =~= t);
        }
    }
}

/// Line-ending normalization leaves no carriage return, and undoes
/// restoring LF or CRLF endings on text that has none.
pub proof fn lemma_line_endings_round_trip(t: Seq<char>, x: Seq<char>)
    requires
        !t.contains('\r'),
    ensures
        !normalize_to_lf_spec(x).contains('\r'),
        normalize_to_lf_spec(t) == t,
        normalize_to_lf_spec(replace_spec(t, seq!['\n'], seq!['\r', '\n'])) == t,
{
    lemma_no_cr_after(replace_spec(x, seq!['\r', '\n'], seq!['\n']));
    lemma_replace_absent(t, seq!['\r', '\n'], seq!['\n']);
    lemma_replace_absent(t, seq!['\r'], seq!['\n']);
    lemma_crlf_round_trip(t);
}

proof fn lemma_contains_drop_last(s: Seq<char>, c: char)
    requires
        s.len() > 0,
        !s.contains(c),
    ensures
        !s.drop_last().contains(c),
        s.last() != c,
{
    if s.drop_last().contains(c) {
        let i = choose|i: int| 0 <= i < s.drop_last().len() && s.drop_last()[i] == c;
        assert(s[i] == c);
    }
    if s.last() == c {
        assert(s[s.len() - 1] == c);
    }
}

/// Text without the separator only extends the last part.
proof fn lemma_split_extend(s: Seq<char>, t: Seq<char>, c: char)
    requires
        !t.contains(c),
    ensures
        split_spec(s + t, c) == split_spec(s, c).update(
            split_spec(s, c).len() - 1,
            split_spec(s, c).last() + t,
        ),
    decreases t.len(),
{
    crate::text::lemma_split_len(s, c);
    if t.len() == 0 {
        assert(s + t =~= s);
        assert(split_spec(s, c).last() + t =~= split_spec(s, c).last());
        assert(split_spec(s, c).update(split_spec(s, c).len() - 1, split_spec(s, c).last()) =~= split_spec(s, c));
    } else {
        lemma_contains_drop_last(t, c);
        lemma_split_extend(s, t.drop_last(), c);
        assert((s + t).drop_last() =~= s + t.drop_last());
        assert((s + t).last() == t.last());
        let ps = split_spec(s, c);
        assert((ps.last() + t.drop_last()).push(t.last()) =~= ps.last() + t);
        assert(ps.update(ps.len() - 1, ps.last() + t.drop_last()).update(
            ps.len() - 1,
            (ps.last() + t.drop_last()).push(t.last()),
        ) =~= ps.update(ps.len() - 1, ps.last() + t));
    }
}

/// No part of a split holds the separator.
pub proof fn lemma_split_parts(s: Seq<char>, c: char)
    ensures
        forall|i: int| 0 <= i < split_spec(s, c).len() ==> !(#[trigger] split_spec(s, c)[i]).contains(c),
    decreases s.len(),
{
    if s.len() > 0 {
        lemma_split_parts(s.drop_last(), c);
        crate::text::lemma_split_len(s.drop_last(), c);
        let ps = split_spec(s.drop_last(), c);
        if s.last() != c {
            let l = ps.last().push(s.last());
            assert forall|i: int| 0 <= i < split_spec(s, c).len() implies !(#[trigger] split_spec(s, c)[i]).contains(c) by {
                if i == ps.len() - 1 {
                    if l.contains(c) {
                        let j = choose|j: int| 0 <= j < l.len() && l[j] == c;
                        if j < ps.last().len() {
                            assert(ps.last()[j] == c);
                            assert(ps[ps.len() - 1].contains(c));
                        }
                    }
                }
            }
        } else {
            assert forall|i: int| 0 <= i < split_spec(s, c).len() implies !(#[trigger] split_spec(s, c)[i]).contains(c) by {
                if i == ps.len() {
                    assert(split_spec(s, c)[i] =~= Seq::<char>::empty());
                }
            }
        }
    }
}

/// Splitting joined parts that hold no separator gives the parts back.
pub proof fn lemma_split_join(ls: Seq<Seq<char>>, c: char)
    requires
        ls.len() >= 1,
        forall|i: int| 0 <= i < ls.len() ==> !(#[trigger] ls[i]).contains(c),
    ensures
        split_spec(join_spec(ls, seq![c]), c) == ls,
    decreases ls.len(),
{
    if ls.len() == 1 {
        lemma_split_extend(Seq::empty(), ls[0], c);
        assert(Seq::<char>::empty() + ls[0] =~= ls[0]);
        assert(Seq::<char>::empty() + ls[0] =~= ls[0]);
        assert(seq![Seq::<char>::empty()].update(0, Seq::<char>::empty() + ls[0]) =~= ls);
    } else {
        let dl = ls.drop_last();
        assert forall|i: int| 0 <= i < dl.len() implies !(#[trigger] dl[i]).contains(c) by {
            assert(dl[i] == ls[i]);
        }
        lemma_split_join(dl, c);
        let a = join_spec(dl, seq![c]) + seq![c];
        assert(a.drop_last() =~= join_spec(dl, seq![c]));
        assert(a.last() == c);
        assert(split_spec(a, c) == dl.push(Seq::empty()));
        assert(!ls.last().contains(c));
        lemma_split_extend(a, ls.last(), c);
        assert(dl.push(Seq::empty()).update(dl.len() as int, Seq::<char>::empty() + ls.last()) =~= ls);
    }
}

proof fn lemma_map_join(ls: Seq<Seq<char>>)
    ensures
        map_chars(join_spec(ls, seq!['\n']), |c: char| fuzzy_char(c)) == join_spec(
            ls.map_values(|l: Seq<char>| map_chars(l, |c: char| fuzzy_char(c))),
            seq!['\n'],
        ),
    decreases ls.len(),
{
    let f = |c: char| fuzzy_char(c);
    let m = |l: Seq<char>| map_chars(l, f);
    if ls.len() == 1 {
        assert(ls.map_values(m)[0] == m(ls[0]));
    } else if ls.len() > 1 {
        lemma_map_join(ls.drop_last());
        assert(ls.drop_last().map_values(m) =~= ls.map_values(m).drop_last());
        assert(ls.map_values(m).last() == m(ls.last()));
        let a = join_spec(ls.drop_last(), seq!['\n']);
        assert(map_chars(a + seq!['\n'] + ls.last(), f) =~= map_chars(a, f) + seq!['\n'] + map_chars(ls.last(), f));
    } else {
        assert(map_chars(Seq::<char>::empty(), f) =~= Seq::<char>::empty());
    }
}

proof fn lemma_trim_end_shape(s: Seq<char>)
    ensures
        trim_end_spec(s).is_prefix_of(s),
        trim_end_spec(s).len() > 0 ==> !is_ws(trim_end_spec(s).last()),
    decreases s.len(),
{
    if s.len() > 0 && is_ws(s.last()) {
        lemma_trim_end_shape(s.drop_last());
    }
}

/// One normalized line: trimmed at the end, characters mapped.
pub open spec fn fuzzy_line(l: Seq<char>) -> Seq<char> {
    map_chars(trim_end_spec(l), |c: char| fuzzy_char(c))
}

proof fn lemma_fuzzy_line(l: Seq<char>)
    requires
        !l.contains('\n'),
    ensures
        !fuzzy_line(l).contains('\n'),
        trim_end_spec(fuzzy_line(l)) == fuzzy_line(l),
        map_chars(fuzzy_line(l), |c: char| fuzzy_char(c)) == fuzzy_line(l),
{
    let t = trim_end_spec(l);
    let g = fuzzy_line(l);
    lemma_trim_end_shape(l);
    if g.contains('\n') {
        let i = choose|i: int| 0 <= i < g.len() && g[i] == '\n';
        assert(t[i] == l[i]);
    }
    if g.len() > 0 {
        assert(g.last() == fuzzy_char(t.last()));
    }
    assert(map_chars(g, |c: char| fuzzy_char(c)) =~= g);
}

/// Fuzzy normalization is a normal form: it keeps the number of lines,
/// leaves no line ending in whitespace and no character that it maps
/// (smart quotes, dashes, special spaces), and normalizing again changes
/// nothing.
pub proof fn lemma_fuzzy_normal_form(text: Seq<char>)
    ensures
        split_spec(normalize_fuzzy_spec(text), '\n').len() == split_spec(text, '\n').len(),
        forall|i: int|
            0 <= i < split_spec(normalize_fuzzy_spec(text), '\n').len() ==> trim_end_spec(
                #[trigger] split_spec(normalize_fuzzy_spec(text), '\n')[i],
            ) == split_spec(normalize_fuzzy_spec(text), '\n')[i],
        forall|i: int|
            0 <= i < normalize_fuzzy_spec(text).len() ==> fuzzy_char(#[trigger] normalize_fuzzy_spec(text)[i])
                == normalize_fuzzy_spec(text)[i],
        normalize_fuzzy_spec(normalize_fuzzy_spec(text)) == normalize_fuzzy_spec(text),
{
    let ls = split_spec(text, '\n');
    let te = |l: Seq<char>| trim_end_spec(l);
    let m = |l: Seq<char>| map_chars(l, |c: char| fuzzy_char(c));
    let gs = ls.map_values(|l: Seq<char>| fuzzy_line(l));
    crate::text::lemma_split_len(text, '\n');
    lemma_split_parts(text, '\n');
    lemma_map_join(ls.map_values(te));
    assert(ls.map_values(te).map_values(m) =~= gs);
    let r = normalize_fuzzy_spec(text);
    assert(r == join_spec(gs, seq!['\n']));
    assert forall|i: int| 0 <= i < gs.len() implies !(#[trigger] gs[i]).contains('\n') by {
        lemma_fuzzy_line(ls[i]);
    }
    lemma_split_join(gs, '\n');
    assert forall|i: int| 0 <= i < gs.len() implies trim_end_spec(#[trigger] gs[i]) == gs[i] by {
        lemma_fuzzy_line(ls[i]);
    }
    // Normalizing again.
    assert(gs.map_values(te) =~= gs);
    lemma_map_join(gs);
    assert forall|i: int| 0 <= i < gs.len() implies #[trigger] gs.map_values(m)[i] == gs[i] by {
        lemma_fuzzy_line(ls[i]);
    }
    assert(gs.map_values(m) =~= gs);
}

} // verus!
