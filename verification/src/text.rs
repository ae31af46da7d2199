//! Character-level text primitives shared by the rest of the library.
//!
//! Text is modelled as `Seq<char>` (the view of `str`/`String`); executable
//! code works on `Vec<char>` and converts at the edges.

use vstd::prelude::*;

verus! {

/// Number of bytes a character takes in UTF-8.
pub open spec fn char_width(c: char) -> nat {
    if (c as u32) < 0x80 {
        1
    } else if (c as u32) < 0x800 {
        2
    } else if (c as u32) < 0x10000 {
        3
    } else {
        4
    }
}

/// Length in bytes of the UTF-8 encoding of `s`.
pub open spec fn bytes_len(s: Seq<char>) -> nat
    decreases s.len(),
{
    if s.len() == 0 {
        0
    } else {
        bytes_len(s.drop_last()) + char_width(s.last())
    }
}

/// Unicode `White_Space` (what `char::is_whitespace` tests).
pub open spec fn is_ws(c: char) -> bool {
    ||| ('\u{9}' <= c && c <= '\u{d}')
    ||| c == ' '
    ||| c == '\u{85}'
    ||| c == '\u{a0}'
    ||| c == '\u{1680}'
    ||| ('\u{2000}' <= c && c <= '\u{200a}')
    ||| c == '\u{2028}'
    ||| c == '\u{2029}'
    ||| c == '\u{202f}'
    ||| c == '\u{205f}'
    ||| c == '\u{3000}'
}

/// `s` with trailing whitespace removed.
pub open spec fn trim_end_spec(s: Seq<char>) -> Seq<char>
    decreases s.len(),
{
    if s.len() > 0 && is_ws(s.last()) {
        trim_end_spec(s.drop_last())
    } else {
        s
    }
}

/// `s` with leading whitespace removed.
pub open spec fn trim_start_spec(s: Seq<char>) -> Seq<char>
    decreases s.len(),
{
    if s.len() > 0 && is_ws(s[0]) {
        trim_start_spec(s.drop_first())
    } else {
        s
    }
}

/// `s` with leading and trailing whitespace removed.
pub open spec fn trim_spec(s: Seq<char>) -> Seq<char> {
    trim_start_spec(trim_end_spec(s))
}

/// The pieces of `s` between occurrences of `c` (`str::split` with a char).
pub open spec fn split_spec(s: Seq<char>, c: char) -> Seq<Seq<char>>
    decreases s.len(),
{
    if s.len() == 0 {
        seq![Seq::empty()]
    } else {
        let parts = split_spec(s.drop_last(), c);
        if s.last() == c {
            parts.push(Seq::empty())
        } else {
            parts.update(parts.len() - 1, parts.last().push(s.last()))
        }
    }
}

/// The pieces joined with `sep` between consecutive pieces.
pub open spec fn join_spec(parts: Seq<Seq<char>>, sep: Seq<char>) -> Seq<char>
    decreases parts.len(),
{
    if parts.len() == 0 {
        Seq::empty()
    } else if parts.len() == 1 {
        parts[0]
    } else {
        join_spec(parts.drop_last(), sep) + sep + parts.last()
    }
}

pub proof fn lemma_split_len(s: Seq<char>, c: char)
    ensures
        split_spec(s, c).len() >= 1,
        s.len() > 0 && s.last() == c ==> split_spec(s, c).len() >= 2,
        s.len() > 0 && s.last() == c ==> split_spec(s, c).last() == Seq::<char>::empty(),
        s.len() > 0 && s.last() == c ==> split_spec(s, c).drop_last() == split_spec(s.drop_last(), c),
    decreases s.len(),
{
    if s.len() > 0 {
        lemma_split_len(s.drop_last(), c);
    }
}

pub proof fn lemma_bytes_len_single(c: char)
    ensures
        bytes_len(seq![c]) == char_width(c),
{
    assert(seq![c].drop_last() == Seq::<char>::empty());
    assert(seq![c].last() == c);
    assert(bytes_len(Seq::<char>::empty()) == 0);
}

/// Lines of `s` (`str::lines` on text without `\r`; also the line count
/// used for truncation): split on `\n`, a trailing `\n` ends the last
/// line rather than starting an empty one, and empty text has no lines.
pub open spec fn lines_spec(s: Seq<char>) -> Seq<Seq<char>> {
    if s.len() == 0 {
        Seq::empty()
    } else if s.last() == '\n' {
        split_spec(s, '\n').drop_last()
    } else {
        split_spec(s, '\n')
    }
}

/// Views of a sequence of character vectors.
pub open spec fn views(v: Seq<Vec<char>>) -> Seq<Seq<char>> {
    v.map_values(|p: Vec<char>| p@)
}

/// Concatenation of all pieces.
pub open spec fn concat_spec(parts: Seq<Seq<char>>) -> Seq<char>
    decreases parts.len(),
{
    if parts.len() == 0 {
        Seq::empty()
    } else {
        concat_spec(parts.drop_last()) + parts.last()
    }
}

/// `n` occurs in `h` at position `i`.
pub open spec fn matches_at<T>(h: Seq<T>, n: Seq<T>, i: int) -> bool {
    0 <= i && i + n.len() <= h.len() && h.subrange(i, i + n.len()) == n
}

/// The first position at or after `i` where `n` occurs in `h`.
pub open spec fn find_from_spec<T>(h: Seq<T>, n: Seq<T>, i: int) -> Option<int>
    decreases h.len() + 1 - i,
{
    if i < 0 || i + n.len() > h.len() {
        None
    } else if matches_at(h, n, i) {
        Some(i)
    } else {
        find_from_spec(h, n, i + 1)
    }
}

/// The first position where `n` occurs in `h` (`str::find`).
pub open spec fn find_spec<T>(h: Seq<T>, n: Seq<T>) -> Option<int> {
    find_from_spec(h, n, 0)
}

/// Number of non-overlapping occurrences of `n` in `h`, scanning left to
/// right (`str::matches(..).count()`); zero for an empty `n`.
pub open spec fn count_spec(h: Seq<char>, n: Seq<char>) -> nat
    decreases h.len(),
{
    if n.len() == 0 || h.len() < n.len() {
        0
    } else if h.subrange(0, n.len() as int) == n {
        1 + count_spec(h.subrange(n.len() as int, h.len() as int), n)
    } else {
        count_spec(h.drop_first(), n)
    }
}

/// Left-to-right, non-overlapping replacement of `p` by `r` (`str::replace`).
pub open spec fn replace_spec(s: Seq<char>, p: Seq<char>, r: Seq<char>) -> Seq<char>
    decreases s.len(),
{
    if p.len() == 0 || s.len() < p.len() {
        s
    } else if s.subrange(0, p.len() as int) == p {
        r + replace_spec(s.subrange(p.len() as int, s.len() as int), p, r)
    } else {
        seq![s[0]] + replace_spec(s.drop_first(), p, r)
    }
}

/// Every character `c` of `s` replaced by `f(c)`.
pub open spec fn map_chars(s: Seq<char>, f: spec_fn(char) -> char) -> Seq<char> {
    Seq::new(s.len(), |i: int| f(s[i]))
}

/// The characters of `s`, in order.
pub fn chars_of(s: &str) -> (v: Vec<char>)
    ensures
        v@ == s@,
{
    let mut v: Vec<char> = Vec::new();
    for c in it: s.chars()
        invariant
            v@ == it.seq().take(it.index() as int),
            it.seq() == s@,
    {
        v.push(c);
    }
    v
}

/// The `Debug` rendering of a string: quoted, with quotes, backslashes and
/// non-printable characters escaped.
pub uninterp spec fn debug_quoted(s: Seq<char>) -> Seq<char>;

/// `format!("{s:?}")` for a `str`: its `Debug` rendering.
#[verifier::external_body]
pub(crate) fn debug_str(s: &str) -> (r: String)
    ensures
        r@ == debug_quoted(s@),
{
    format!("{s:?}")
}

/// Appends one character to a `String` (`String::push`).
#[verifier::external_body]
pub(crate) fn push_char(s: &mut String, c: char)
    ensures
        final(s)@ == old(s)@.push(c),
{
    s.push(c);
}

/// A `String` holding exactly the given characters.
pub fn string_of(v: &[char]) -> (r: String)
    ensures
        r@ == v@,
{
    let mut r = String::new();
    let mut i: usize = 0;
    while i < v.len()
        invariant
            i <= v.len(),
            r@ == v@.take(i as int),
        decreases v.len() - i,
    {
        push_char(&mut r, v[i]);
        assert(v@.take(i + 1) == v@.take(i as int).push(v@[i as int]));
        i += 1;
    }
    assert(v@.take(v.len() as int) == v@);
    r
}

/// The characters of `s`, as a `String`.
pub fn to_string(s: &str) -> (r: String)
    ensures
        r@ == s@,
{
    let v = chars_of(s);
    string_of(&v)
}

pub fn len_utf8(c: char) -> (n: usize)
    ensures
        n == char_width(c),
{
    let u = c as u32;
    if u < 0x80 {
        1
    } else if u < 0x800 {
        2
    } else if u < 0x10000 {
        3
    } else {
        4
    }
}

pub proof fn lemma_bytes_len_append(a: Seq<char>, b: Seq<char>)
    ensures
        bytes_len(a + b) == bytes_len(a) + bytes_len(b),
    decreases b.len(),
{
    if b.len() == 0 {
        assert(a + b == a);
    } else {
        assert((a + b).drop_last() == a + b.drop_last());
        lemma_bytes_len_append(a, b.drop_last());
    }
}

pub proof fn lemma_bytes_len_ge_len(a: Seq<char>)
    ensures
        bytes_len(a) >= a.len(),
    decreases a.len(),
{
    if a.len() > 0 {
        lemma_bytes_len_ge_len(a.drop_last());
    }
}

/// Byte length of the UTF-8 encoding of `v`.
pub fn bytes_len_of(v: &[char]) -> (n: usize)
    requires
        v@.len() <= usize::MAX / 4,
    ensures
        n == bytes_len(v@),
{
    let mut n: usize = 0;
    let mut i: usize = 0;
    while i < v.len()
        invariant
            i <= v.len(),
            v@.len() <= usize::MAX / 4,
            n == bytes_len(v@.take(i as int)),
            n <= 4 * i,
        decreases v.len() - i,
    {
        assert(v@.take(i + 1).drop_last() == v@.take(i as int));
        n = n + len_utf8(v[i]);
        i += 1;
    }
    assert(v@.take(v.len() as int) == v@);
    n
}

pub proof fn lemma_bytes_len_le(a: Seq<char>)
    ensures
        bytes_len(a) <= 4 * a.len(),
    decreases a.len(),
{
    if a.len() > 0 {
        lemma_bytes_len_le(a.drop_last());
    }
}

/// Whitespace test (`char::is_whitespace`).
pub fn is_whitespace(c: char) -> (b: bool)
    ensures
        b == is_ws(c),
{
    ('\u{9}' <= c && c <= '\u{d}') || c == ' ' || c == '\u{85}' || c == '\u{a0}' || c == '\u{1680}'
        || ('\u{2000}' <= c && c <= '\u{200a}') || c == '\u{2028}' || c == '\u{2029}' || c
        == '\u{202f}' || c == '\u{205f}' || c == '\u{3000}'
}

/// Copy of `v[a..b]`.
pub fn slice_of(v: &[char], a: usize, b: usize) -> (r: Vec<char>)
    requires
        a <= b <= v@.len(),
    ensures
        r@ == v@.subrange(a as int, b as int),
{
    let mut r: Vec<char> = Vec::new();
    let mut i = a;
    while i < b
        invariant
            a <= i <= b <= v@.len(),
            r@ == v@.subrange(a as int, i as int),
        decreases b - i,
    {
        r.push(v[i]);
        i += 1;
    }
    r
}

/// Appends all of `v` to `out`.
pub fn push_all(out: &mut Vec<char>, v: &[char])
    ensures
        final(out)@ == old(out)@ + v@,
{
    let mut i: usize = 0;
    while i < v.len()
        invariant
            i <= v.len(),
            out@ == old(out)@ + v@.take(i as int),
        decreases v.len() - i,
    {
        out.push(v[i]);
        assert(v@.take(i + 1) == v@.take(i as int).push(v@[i as int]));
        i += 1;
    }
    assert(v@.take(v.len() as int) == v@);
}

/// Appends the characters of `s` to `out`.
pub fn push_str(out: &mut Vec<char>, s: &str)
    ensures
        final(out)@ == old(out)@ + s@,
{
    let v = chars_of(s);
    push_all(out, &v);
}

/// `a == b`.
pub fn eq_chars(a: &[char], b: &[char]) -> (r: bool)
    ensures
        r == (a@ == b@),
{
    if a.len() != b.len() {
        return false;
    }
    let mut i: usize = 0;
    while i < a.len()
        invariant
            a.len() == b.len(),
            i <= a.len(),
            forall|j: int| 0 <= j < i ==> a@[j] == b@[j],
        decreases a.len() - i,
    {
        if a[i] != b[i] {
            return false;
        }
        i += 1;
    }
    assert(a@ =~= b@);
    true
}

/// `a == b` on string slices.
pub fn str_eq(a: &str, b: &str) -> (r: bool)
    ensures
        r == (a@ == b@),
{
    let x = chars_of(a);
    let y = chars_of(b);
    eq_chars(&x, &y)
}

/// `n` occurs in `h` at position `i`.
pub fn matches_at_exec(h: &[char], n: &[char], i: usize) -> (r: bool)
    ensures
        r == matches_at(h@, n@, i as int),
{
    if i > h.len() || n.len() > h.len() - i {
        return false;
    }
    let mut j: usize = 0;
    while j < n.len()
        invariant
            i + n.len() <= h.len(),
            j <= n.len(),
            forall|k: int| 0 <= k < j ==> h@[i + k] == n@[k],
        decreases n.len() - j,
    {
        if h[i + j] != n[j] {
            assert(h@.subrange(i as int, i + n.len())[j as int] != n@[j as int]);
            return false;
        }
        j += 1;
    }
    assert(h@.subrange(i as int, i + n.len()) =~= n@);
    true
}

/// `p` is a prefix of `s`.
pub fn starts_with(s: &[char], p: &[char]) -> (r: bool)
    ensures
        r == p@.is_prefix_of(s@),
{
    let r = matches_at_exec(s, p, 0);
    proof {
        if r {
            assert forall|i: int| 0 <= i < p@.len() implies p@[i] == s@[i] by {
                assert(s@.subrange(0, p@.len() as int)[i] == s@[i]);
            }
        }
        if p@.is_prefix_of(s@) {
            assert(s@.subrange(0, p@.len() as int) =~= p@);
        }
    }
    r
}

/// `p` is a suffix of `s`.
pub fn ends_with(s: &[char], p: &[char]) -> (r: bool)
    ensures
        r == p@.is_suffix_of(s@),
{
    if p.len() > s.len() {
        return false;
    }
    let start = s.len() - p.len();
    let r = matches_at_exec(s, p, start);
    proof {
        if r {
            assert forall|i: int| 0 <= i < p@.len() implies p@[i] == s@[s@.len() - p@.len() + i] by {
                assert(s@.subrange(start as int, s@.len() as int)[i] == s@[start + i]);
            }
        }
        if p@.is_suffix_of(s@) {
            assert(s@.subrange(start as int, start + p@.len()) =~= p@);
        }
    }
    r
}

/// The first position at or after `from` where `n` occurs in `h`.
pub fn find_from(h: &[char], n: &[char], from: usize) -> (r: Option<usize>)
    ensures
        match r {
            Some(i) => from <= i && matches_at(h@, n@, i as int) && forall|j: int|
                from <= j < i ==> !matches_at(h@, n@, j),
            None => forall|j: int| from <= j ==> !matches_at(h@, n@, j),
        },
{
    if n.len() > h.len() || from > h.len() - n.len() {
        return None;
    }
    let last = h.len() - n.len();
    let mut i = from;
    while i <= last
        invariant
            from <= i,
            last == h.len() - n.len(),
            n.len() <= h.len(),
            forall|j: int| from <= j < i ==> !matches_at(h@, n@, j),
        decreases last + 1 - i,
    {
        if matches_at_exec(h, n, i) {
            return Some(i);
        }
        if i == last {
            return None;
        }
        i += 1;
    }
    None
}

proof fn lemma_find_from_spec(h: Seq<char>, n: Seq<char>, from: int, r: Option<int>)
    requires
        0 <= from,
        match r {
            Some(i) => from <= i && matches_at(h, n, i) && forall|j: int|
                from <= j < i ==> !matches_at(h, n, j),
            None => forall|j: int| from <= j ==> !matches_at(h, n, j),
        },
    ensures
        find_from_spec(h, n, from) == r,
    decreases h.len() + 1 - from,
{
    if from + n.len() > h.len() {
        if let Some(i) = r {
            assert(false);
        }
    } else if matches_at(h, n, from) {
    } else {
        lemma_find_from_spec(h, n, from + 1, r);
    }
}

pub proof fn lemma_find_from_spec_matches<T>(h: Seq<T>, n: Seq<T>, from: int)
    ensures
        match find_from_spec(h, n, from) {
            Some(j) => matches_at(h, n, j) && from <= j,
            None => true,
        },
    decreases h.len() + 1 - from,
{
    if from < 0 || from + n.len() > h.len() {
    } else if matches_at(h, n, from) {
    } else {
        lemma_find_from_spec_matches(h, n, from + 1);
    }
}

/// The first position where `n` occurs in `h`, as a spec value.
pub fn find_first(h: &[char], n: &[char]) -> (r: Option<usize>)
    ensures
        match r {
            Some(i) => find_spec(h@, n@) == Some(i as int),
            None => find_spec(h@, n@) is None,
        },
        match r {
            Some(i) => matches_at(h@, n@, i as int),
            None => true,
        },
{
    let r = find_from(h, n, 0);
    proof {
        let g: Option<int> = match r {
            Some(i) => Some(i as int),
            None => None,
        };
        lemma_find_from_spec(h@, n@, 0, g);
    }
    r
}

proof fn lemma_count_step(h: Seq<char>, n: Seq<char>, i: int)
    requires
        n.len() > 0,
        0 <= i <= h.len(),
    ensures
        ({
            let t = h.subrange(i, h.len() as int);
            &&& (t.len() < n.len() ==> count_spec(t, n) == 0)
            &&& (t.len() >= n.len() && matches_at(h, n, i) ==> count_spec(t, n) == 1 + count_spec(
                h.subrange(i + n.len(), h.len() as int),
                n,
            ))
            &&& (t.len() >= n.len() && !matches_at(h, n, i) ==> count_spec(t, n) == count_spec(
                h.subrange(i + 1, h.len() as int),
                n,
            ))
        }),
{
    let t = h.subrange(i, h.len() as int);
    if t.len() >= n.len() {
        assert(t.subrange(n.len() as int, t.len() as int) == h.subrange(i + n.len(), h.len() as int));
        assert(t.drop_first() == h.subrange(i + 1, h.len() as int));
        assert(t.subrange(0, n.len() as int) == h.subrange(i, i + n.len()));
    }
}

/// Number of non-overlapping occurrences of `n` in `h`.
pub fn count_matches(h: &[char], n: &[char]) -> (r: usize)
    ensures
        r == count_spec(h@, n@),
{
    if n.len() == 0 {
        return 0;
    }
    let mut count: usize = 0;
    let mut i: usize = 0;
    assert(h@.subrange(0, h@.len() as int) == h@);
    while i < h.len()
        invariant
            i <= h.len(),
            n@.len() > 0,
            count + count_spec(h@.subrange(i as int, h@.len() as int), n@) == count_spec(h@, n@),
            count <= i,
        decreases h.len() - i,
    {
        proof {
            lemma_count_step(h@, n@, i as int);
        }
        if h.len() - i >= n.len() && matches_at_exec(h, n, i) {
            count = count + 1;
            i = i + n.len();
        } else {
            proof {
                if h.len() - i < n.len() {
                    lemma_count_step(h@, n@, i + 1);
                }
            }
            i = i + 1;
        }
    }
    assert(h@.subrange(h@.len() as int, h@.len() as int) == Seq::<char>::empty());
    count
}

/// The first position where `n` occurs in `h`.
pub fn find(h: &[char], n: &[char]) -> (r: Option<usize>)
    ensures
        match r {
            Some(i) => matches_at(h@, n@, i as int) && forall|j: int|
                0 <= j < i ==> !matches_at(h@, n@, j),
            None => forall|j: int| 0 <= j ==> !matches_at(h@, n@, j),
        },
{
    find_from(h, n, 0)
}

/// First position of character `c` in `h`, if any.
pub fn find_char(h: &[char], c: char) -> (r: Option<usize>)
    ensures
        match r {
            Some(i) => i < h@.len() && h@[i as int] == c && forall|j: int| 0 <= j < i ==> h@[j] != c,
            None => forall|j: int| 0 <= j < h@.len() ==> h@[j] != c,
        },
{
    let mut i: usize = 0;
    while i < h.len()
        invariant
            i <= h.len(),
            forall|j: int| 0 <= j < i ==> h@[j] != c,
        decreases h.len() - i,
    {
        if h[i] == c {
            return Some(i);
        }
        i += 1;
    }
    None
}

/// `v` contains `c`.
pub fn contains_char(v: &[char], c: char) -> (r: bool)
    ensures
        r == v@.contains(c),
{
    match find_char(v, c) {
        Some(i) => {
            assert(v@[i as int] == c);
            true
        },
        None => false,
    }
}

proof fn lemma_trim_end_take(s: Seq<char>, e: int)
    requires
        0 <= e <= s.len(),
        forall|k: int| e <= k < s.len() ==> is_ws(s[k]),
    ensures
        trim_end_spec(s) == trim_end_spec(s.take(e)),
    decreases s.len() - e,
{
    if e < s.len() {
        assert(s.drop_last() == s.drop_last());
        lemma_trim_end_take(s.drop_last(), e);
        assert(s.drop_last().take(e) == s.take(e));
    } else {
        assert(s.take(e) == s);
    }
}

proof fn lemma_trim_start_skip(s: Seq<char>, b: int)
    requires
        0 <= b <= s.len(),
        forall|k: int| 0 <= k < b ==> is_ws(s[k]),
    ensures
        trim_start_spec(s) == trim_start_spec(s.subrange(b, s.len() as int)),
    decreases b,
{
    if b > 0 {
        lemma_trim_start_skip(s.drop_first(), b - 1);
        assert(s.drop_first().subrange(b - 1, s.len() - 1) == s.subrange(b, s.len() as int));
    } else {
        assert(s.subrange(0, s.len() as int) == s);
    }
}

/// `v` without trailing whitespace.
pub fn trim_end(v: &[char]) -> (r: Vec<char>)
    ensures
        r@ == trim_end_spec(v@),
{
    let mut e = v.len();
    while e > 0 && is_whitespace(v[e - 1])
        invariant
            e <= v.len(),
            forall|k: int| e <= k < v@.len() ==> is_ws(v@[k]),
        decreases e,
    {
        e -= 1;
    }
    proof {
        lemma_trim_end_take(v@, e as int);
        let t = v@.take(e as int);
        if t.len() > 0 {
            assert(!is_ws(t.last()));
        }
        assert(t == v@.subrange(0, e as int));
    }
    slice_of(v, 0, e)
}

/// `v` without leading whitespace.
pub fn trim_start(v: &[char]) -> (r: Vec<char>)
    ensures
        r@ == trim_start_spec(v@),
{
    let mut b: usize = 0;
    while b < v.len() && is_whitespace(v[b])
        invariant
            b <= v.len(),
            forall|k: int| 0 <= k < b ==> is_ws(v@[k]),
        decreases v.len() - b,
    {
        b += 1;
    }
    proof {
        lemma_trim_start_skip(v@, b as int);
        let t = v@.subrange(b as int, v@.len() as int);
        if t.len() > 0 {
            assert(t[0] == v@[b as int]);
        }
    }
    slice_of(v, b, v.len())
}

/// `v` without leading and trailing whitespace.
pub fn trim(v: &[char]) -> (r: Vec<char>)
    ensures
        r@ == trim_spec(v@),
{
    let e = trim_end(v);
    trim_start(&e)
}

/// Trimmed characters of `s` (`str::trim`).
pub fn trim_str(s: &str) -> (r: Vec<char>)
    ensures
        r@ == trim_spec(s@),
{
    let v = chars_of(s);
    trim(&v)
}

/// The pieces of `v` between occurrences of `c`.
pub fn split_char(v: &[char], c: char) -> (r: Vec<Vec<char>>)
    ensures
        r@.len() == split_spec(v@, c).len(),
        forall|i: int| 0 <= i < r@.len() ==> #[trigger] r@[i]@ == split_spec(v@, c)[i],
        views(r@) == split_spec(v@, c),
{
    let mut parts: Vec<Vec<char>> = Vec::new();
    let mut cur: Vec<char> = Vec::new();
    let mut i: usize = 0;
    while i < v.len()
        invariant
            i <= v.len(),
            parts@.len() + 1 == split_spec(v@.take(i as int), c).len(),
            forall|k: int| 0 <= k < parts@.len() ==> #[trigger] parts@[k]@ == split_spec(v@.take(i as int), c)[k],
            cur@ == split_spec(v@.take(i as int), c).last(),
        decreases v.len() - i,
    {
        assert(v@.take(i + 1).drop_last() == v@.take(i as int));
        if v[i] == c {
            parts.push(cur);
            cur = Vec::new();
        } else {
            cur.push(v[i]);
        }
        i += 1;
    }
    assert(v@.take(v.len() as int) == v@);
    parts.push(cur);
    assert(views(parts@) =~= split_spec(v@, c));
    parts
}

/// The pieces joined with `sep`.
pub fn join(parts: &[Vec<char>], sep: &[char]) -> (r: Vec<char>)
    ensures
        r@ == join_spec(parts@.map_values(|p: Vec<char>| p@), sep@),
{
    let ghost views = parts@.map_values(|p: Vec<char>| p@);
    let mut r: Vec<char> = Vec::new();
    let mut i: usize = 0;
    while i < parts.len()
        invariant
            i <= parts.len(),
            views == parts@.map_values(|p: Vec<char>| p@),
            r@ == join_spec(views.take(i as int), sep@),
        decreases parts.len() - i,
    {
        assert(views.take(i + 1).drop_last() == views.take(i as int));
        if i > 0 {
            push_all(&mut r, sep);
        }
        push_all(&mut r, &parts[i]);
        assert(views.take(i + 1).last() == parts@[i as int]@);
        proof {
            if i == 0 {
                assert(views.take(1)[0] == parts@[0]@);
                assert(r@ == parts@[0]@);
            }
        }
        i += 1;
    }
    assert(views.take(parts.len() as int) == views);
    r
}

/// Concatenation of the pieces.
pub fn concat(parts: &[Vec<char>]) -> (r: Vec<char>)
    ensures
        r@ == concat_spec(parts@.map_values(|p: Vec<char>| p@)),
{
    let ghost views = parts@.map_values(|p: Vec<char>| p@);
    let mut r: Vec<char> = Vec::new();
    let mut i: usize = 0;
    while i < parts.len()
        invariant
            i <= parts.len(),
            views == parts@.map_values(|p: Vec<char>| p@),
            r@ == concat_spec(views.take(i as int)),
        decreases parts.len() - i,
    {
        assert(views.take(i + 1).drop_last() == views.take(i as int));
        push_all(&mut r, &parts[i]);
        i += 1;
    }
    assert(views.take(parts.len() as int) == views);
    r
}

proof fn lemma_replace_step(s: Seq<char>, p: Seq<char>, r: Seq<char>, i: int)
    requires
        p.len() > 0,
        0 <= i <= s.len(),
    ensures
        ({
            let t = s.subrange(i, s.len() as int);
            &&& (t.len() < p.len() ==> replace_spec(t, p, r) == t)
            &&& (t.len() >= p.len() && t.subrange(0, p.len() as int) == p ==> replace_spec(t, p, r)
                == r + replace_spec(s.subrange(i + p.len(), s.len() as int), p, r))
            &&& (t.len() >= p.len() && t.subrange(0, p.len() as int) != p ==> replace_spec(t, p, r)
                == seq![s[i]] + replace_spec(s.subrange(i + 1, s.len() as int), p, r))
        }),
{
    let t = s.subrange(i, s.len() as int);
    if t.len() >= p.len() {
        assert(t.subrange(p.len() as int, t.len() as int) == s.subrange(i + p.len(), s.len() as int));
        assert(t.drop_first() == s.subrange(i + 1, s.len() as int));
    }
}

/// Left-to-right, non-overlapping replacement of `p` by `rep` in `s`.
pub fn replace(s: &[char], p: &[char], rep: &[char]) -> (r: Vec<char>)
    requires
        p@.len() > 0,
    ensures
        r@ == replace_spec(s@, p@, rep@),
{
    let mut out: Vec<char> = Vec::new();
    let mut i: usize = 0;
    assert(s@.subrange(0, s@.len() as int) == s@);
    while i < s.len()
        invariant
            i <= s.len(),
            p@.len() > 0,
            out@ + replace_spec(s@.subrange(i as int, s@.len() as int), p@, rep@) == replace_spec(s@, p@, rep@),
        decreases s.len() - i,
    {
        proof {
            lemma_replace_step(s@, p@, rep@, i as int);
        }
        let t_len = s.len() - i;
        if t_len >= p.len() && matches_at_exec(s, p, i) {
            push_all(&mut out, rep);
            proof {
                assert(s@.subrange(i as int, s@.len() as int).subrange(0, p@.len() as int) == s@.subrange(i as int, i + p@.len()));
                assert(out@ + replace_spec(s@.subrange(i + p@.len(), s@.len() as int), p@, rep@)
                    == replace_spec(s@, p@, rep@));
            }
            i = i + p.len();
        } else {
            proof {
                if t_len >= p.len() {
                    assert(s@.subrange(i as int, s@.len() as int).subrange(0, p@.len() as int) == s@.subrange(i as int, i + p@.len()));
                }
                else {
                    assert(replace_spec(s@.subrange(i as int, s@.len() as int), p@, rep@) == s@.subrange(i as int, s@.len() as int));
                    assert(s@.subrange(i as int, s@.len() as int) == seq![s@[i as int]] + s@.subrange(i + 1, s@.len() as int));
                    lemma_replace_step(s@, p@, rep@, i + 1);
                }
            }
            out.push(s[i]);
            proof {
                assert(out@ + replace_spec(s@.subrange(i + 1, s@.len() as int), p@, rep@) == replace_spec(s@, p@, rep@));
            }
            i += 1;
        }
    }
    assert(s@.subrange(s@.len() as int, s@.len() as int) == Seq::<char>::empty());
    assert(out@ + Seq::<char>::empty() == out@);
    out
}


/// The UTF-8 encoding of `s` is `bytes_len(s)` bytes long.
pub proof fn lemma_encode_len(s: Seq<char>)
    ensures
        vstd::utf8::encode_utf8(s).len() == bytes_len(s),
    decreases s.len(),
{
    if s.len() > 0 {
        vstd::utf8::char_is_scalar(s[0]);
        let u = s[0] as u32;
        assert(vstd::utf8::encode_scalar(u).len() == char_width(s[0]));
        lemma_encode_len(s.drop_first());
        lemma_bytes_len_append(seq![s[0]], s.drop_first());
        assert(seq![s[0]] + s.drop_first() == s);
        assert(seq![s[0]].drop_last() == Seq::<char>::empty());
        assert(bytes_len(Seq::<char>::empty()) == 0);
        assert(bytes_len(seq![s[0]]) == char_width(s[0]));
        assert(vstd::utf8::encode_utf8(s) == vstd::utf8::encode_scalar(u) + vstd::utf8::encode_utf8(s.drop_first()));
    }
}

/// Byte length of `s` (`str::len`).
pub fn str_bytes_len(s: &str) -> (n: usize)
    ensures
        n == bytes_len(s@),
{
    proof {
        lemma_encode_len(s@);
    }
    let b = s.as_bytes();
    b.len()
}

/// Decimal digits of `n`, most significant first, no sign or padding.
pub open spec fn decimal_spec(n: nat) -> Seq<char>
    decreases n,
{
    if n < 10 {
        seq![digit_char(n)]
    } else {
        decimal_spec(n / 10).push(digit_char(n % 10))
    }
}

pub open spec fn digit_char(d: nat) -> char {
    if d == 0 { '0' } else if d == 1 { '1' } else if d == 2 { '2' } else if d == 3 { '3' } else if d
        == 4 { '4' } else if d == 5 { '5' } else if d == 6 { '6' } else if d == 7 { '7' } else if d
        == 8 { '8' } else { '9' }
}

pub fn digit(d: u64) -> (c: char)
    requires
        d < 10,
    ensures
        c == digit_char(d as nat),
{
    if d == 0 { '0' } else if d == 1 { '1' } else if d == 2 { '2' } else if d == 3 { '3' } else if d
        == 4 { '4' } else if d == 5 { '5' } else if d == 6 { '6' } else if d == 7 { '7' } else if d
        == 8 { '8' } else { '9' }
}

/// Decimal rendering of `n` (`n.to_string()`).
pub fn decimal(n: u64) -> (r: Vec<char>)
    ensures
        r@ == decimal_spec(n as nat),
    decreases n,
{
    if n < 10 {
        let mut r = Vec::new();
        r.push(digit(n));
        r
    } else {
        let mut r = decimal(n / 10);
        r.push(digit(n % 10));
        r
    }
}


/// The lines of `v` (see `lines_spec`).
pub fn lines_of(v: &[char]) -> (r: Vec<Vec<char>>)
    ensures
        views(r@) == lines_spec(v@),
{
    if v.len() == 0 {
        let r: Vec<Vec<char>> = Vec::new();
        assert(views(r@) =~= Seq::<Seq<char>>::empty());
        return r;
    }
    let mut parts = split_char(v, '\n');
    if v[v.len() - 1] == '\n' {
        proof {
            lemma_split_len(v@, '\n');
        }
        let ghost old = views(parts@);
        parts.pop();
        assert(views(parts@) =~= old.drop_last());
    }
    parts
}

/// `v` starts with character `c`.
pub fn starts_with_char(v: &[char], c: char) -> (r: bool)
    ensures
        r == (v@.len() > 0 && v@[0] == c),
{
    v.len() > 0 && v[0] == c
}

/// `a < b` in lexicographic (code point) order, as `String` orders.
pub open spec fn lex_lt(a: Seq<char>, b: Seq<char>) -> bool
    decreases a.len(),
{
    if a.len() == 0 {
        b.len() > 0
    } else if b.len() == 0 {
        false
    } else if a[0] != b[0] {
        (a[0] as u32) < (b[0] as u32)
    } else {
        lex_lt(a.drop_first(), b.drop_first())
    }
}

pub proof fn lemma_lex_irreflexive(a: Seq<char>)
    ensures
        !lex_lt(a, a),
    decreases a.len(),
{
    if a.len() > 0 {
        lemma_lex_irreflexive(a.drop_first());
    }
}

pub proof fn lemma_lex_total(a: Seq<char>, b: Seq<char>)
    ensures
        a == b || lex_lt(a, b) || lex_lt(b, a),
    decreases a.len(),
{
    if a.len() > 0 && b.len() > 0 && a[0] == b[0] {
        lemma_lex_total(a.drop_first(), b.drop_first());
        if a.drop_first() == b.drop_first() {
            assert(a =~= seq![a[0]] + a.drop_first());
            assert(b =~= seq![b[0]] + b.drop_first());
        }
    } else if a.len() > 0 && b.len() > 0 {
        vstd::utf8::char_u32_cast(a[0], a[0] as u32);
        vstd::utf8::char_u32_cast(b[0], b[0] as u32);
        assert((a[0] as u32) != (b[0] as u32));
    } else if a.len() == 0 && b.len() == 0 {
        assert(a =~= b);
    }
}

pub proof fn lemma_lex_trans(a: Seq<char>, b: Seq<char>, c: Seq<char>)
    requires
        lex_lt(a, b),
        lex_lt(b, c),
    ensures
        lex_lt(a, c),
    decreases a.len(),
{
    if a.len() > 0 && b.len() > 0 && c.len() > 0 && a[0] == b[0] && b[0] == c[0] {
        lemma_lex_trans(a.drop_first(), b.drop_first(), c.drop_first());
    }
}

/// `a < b` lexicographically.
pub fn lex_less(a: &[char], b: &[char]) -> (r: bool)
    ensures
        r == lex_lt(a@, b@),
{
    let mut i: usize = 0;
    assert(a@.subrange(0, a@.len() as int) == a@);
    assert(b@.subrange(0, b@.len() as int) == b@);
    while i < a.len() && i < b.len()
        invariant
            i <= a.len(),
            i <= b.len(),
            lex_lt(a@, b@) == lex_lt(a@.subrange(i as int, a@.len() as int), b@.subrange(i as int, b@.len() as int)),
        decreases a.len() - i,
    {
        let ghost sa = a@.subrange(i as int, a@.len() as int);
        let ghost sb = b@.subrange(i as int, b@.len() as int);
        assert(sa[0] == a@[i as int]);
        assert(sb[0] == b@[i as int]);
        if a[i] != b[i] {
            return (a[i] as u32) < (b[i] as u32);
        }
        assert(sa.drop_first() == a@.subrange(i + 1, a@.len() as int));
        assert(sb.drop_first() == b@.subrange(i + 1, b@.len() as int));
        i += 1;
    }
    i == a.len() && i < b.len()
}

} // verus!
