//! Output truncation for tool results.
//!
//! Truncation is based on two independent limits, whichever is hit first: a
//! line limit (default 2000) and a byte limit (default 50KB). Whole lines
//! are kept, except when the last line alone exceeds the byte limit in tail
//! truncation.

use vstd::prelude::*;
use vstd::string::StrSliceExecFns;
use crate::text::{
    bytes_len, chars_of, join, join_spec, len_utf8, lemma_bytes_len_append, slice_of, split_spec,
    str_bytes_len, string_of, views, lines_spec, lemma_split_len, lemma_bytes_len_single, push_str,
    decimal, decimal_spec, push_all,
};

verus! {

pub const DEFAULT_MAX_LINES: usize = 2000;

pub const DEFAULT_MAX_BYTES: usize = 51200;

/// Max chars per grep match line.
pub const GREP_MAX_LINE_LENGTH: usize = 500;

#[derive(Debug, Clone, Copy, PartialEq, Eq, Structural)]
pub enum TruncatedBy {
    Lines,
    Bytes,
}

#[derive(Debug, Clone)]
pub struct TruncationResult {
    pub content: String,
    pub truncated: bool,
    pub truncated_by: Option<TruncatedBy>,
    pub total_lines: usize,
    pub total_bytes: usize,
    pub output_lines: usize,
    pub output_bytes: usize,
    /// Last line was partially truncated (tail truncation edge case).
    pub last_line_partial: bool,
    /// First line exceeded the byte limit (head truncation).
    pub first_line_exceeds_limit: bool,
    pub max_lines: usize,
    pub max_bytes: usize,
}

#[derive(Debug, Clone, Copy)]
pub struct TruncationOptions {
    pub max_lines: Option<usize>,
    pub max_bytes: Option<usize>,
}

impl Default for TruncationOptions {
    fn default() -> (r: Self)
        ensures
            r.max_lines is None,
            r.max_bytes is None,
    {
        TruncationOptions { max_lines: None, max_bytes: None }
    }
}

impl TruncationOptions {
    /// Byte limit only: callers that already cap rows (grep/find/ls).
    pub fn bytes_only() -> (r: Self)
        ensures
            r.max_lines == Some(usize::MAX),
            r.max_bytes is None,
    {
        TruncationOptions { max_lines: Some(usize::MAX), max_bytes: None }
    }

    pub open spec fn lines_limit(self) -> nat {
        match self.max_lines {
            Some(n) => n as nat,
            None => DEFAULT_MAX_LINES as nat,
        }
    }

    pub open spec fn bytes_limit(self) -> nat {
        match self.max_bytes {
            Some(n) => n as nat,
            None => DEFAULT_MAX_BYTES as nat,
        }
    }
}

/// Bytes added by the `i`th line of a `\n`-joined output.
pub open spec fn line_cost(lines: Seq<Seq<char>>, i: int) -> int {
    bytes_len(lines[i]) + if i > 0 { 1int } else { 0int }
}

/// Byte length of the first `k` lines joined with `\n`.
pub open spec fn prefix_cost(lines: Seq<Seq<char>>, k: int) -> int
    decreases k,
{
    if k <= 0 {
        0
    } else {
        prefix_cost(lines, k - 1) + line_cost(lines, k - 1)
    }
}

/// Byte length of the last `k` lines joined with `\n`.
pub open spec fn suffix_cost(lines: Seq<Seq<char>>, k: int) -> int
    decreases k,
{
    if k <= 0 {
        0
    } else {
        suffix_cost(lines, k - 1) + bytes_len(lines[lines.len() - k]) + if k > 1 {
            1int
        } else {
            0int
        }
    }
}

/// The shortest suffix of `s` dropped from the front, one character at a
/// time, until it fits in `max_bytes` bytes.
pub open spec fn suffix_within(s: Seq<char>, max_bytes: nat) -> Seq<char>
    decreases s.len(),
{
    if bytes_len(s) <= max_bytes || s.len() == 0 {
        s
    } else {
        suffix_within(s.drop_first(), max_bytes)
    }
}

proof fn lemma_bytes_len_prefix(s: Seq<char>, i: int)
    requires
        0 <= i <= s.len(),
    ensures
        bytes_len(s.take(i)) <= bytes_len(s),
        bytes_len(s) == bytes_len(s.take(i)) + bytes_len(s.subrange(i, s.len() as int)),
{
    lemma_bytes_len_append(s.take(i), s.subrange(i, s.len() as int));
    assert(s.take(i) + s.subrange(i, s.len() as int) == s);
}

/// Splits `cs` into counting lines, with each line's byte length.
fn split_lines_counted(cs: &[char], total: usize) -> (r: (Vec<Vec<char>>, Vec<usize>))
    requires
        total == bytes_len(cs@),
    ensures
        views(r.0@) == lines_spec(cs@),
        r.1@.len() == r.0@.len(),
        forall|i: int| 0 <= i < r.1@.len() ==> r.1@[i] == bytes_len(#[trigger] r.0@[i]@),
{
    let mut parts: Vec<Vec<char>> = Vec::new();
    let mut sizes: Vec<usize> = Vec::new();
    if cs.len() == 0 {
        assert(views(parts@) =~= Seq::<Seq<char>>::empty());
        return (parts, sizes);
    }
    let mut cur: Vec<char> = Vec::new();
    let mut cur_bytes: usize = 0;
    let mut seen_bytes: usize = 0;
    let mut i: usize = 0;
    while i < cs.len()
        invariant
            i <= cs.len(),
            total == bytes_len(cs@),
            views(parts@) + seq![cur@] == split_spec(cs@.take(i as int), '\n'),
            sizes@.len() == parts@.len(),
            forall|k: int| 0 <= k < sizes@.len() ==> sizes@[k] == bytes_len(#[trigger] parts@[k]@),
            cur_bytes == bytes_len(cur@),
            cur_bytes <= seen_bytes,
            seen_bytes == bytes_len(cs@.take(i as int)),
        decreases cs.len() - i,
    {
        proof {
            lemma_bytes_len_prefix(cs@, i + 1);
            assert(cs@.take(i + 1).drop_last() == cs@.take(i as int));
            assert(cs@.take(i + 1).last() == cs@[i as int]);
        }
        let w = len_utf8(cs[i]);
        seen_bytes = seen_bytes + w;
        if cs[i] == '\n' {
            let ghost old_parts = parts@;
            parts.push(cur);
            sizes.push(cur_bytes);
            cur = Vec::new();
            cur_bytes = 0;
            proof {
                assert(views(parts@) == views(old_parts).push(parts@.last()@));
                assert(bytes_len(Seq::<char>::empty()) == 0);
            }
        } else {
            let ghost old_cur = cur@;
            cur.push(cs[i]);
            cur_bytes = cur_bytes + w;
            proof {
                assert(cur@.drop_last() == old_cur);
            }
        }
        i += 1;
    }
    assert(cs@.take(cs.len() as int) == cs@);
    proof {
        lemma_split_len(cs@, '\n');
    }
    if cs.len() > 0 && cs[cs.len() - 1] == '\n' {
        assert((views(parts@) + seq![cur@]).last() == cur@);
        assert(cur@.len() == 0);
        assert((views(parts@) + seq![cur@]).drop_last() == views(parts@));
        assert(views(parts@) == split_spec(cs@, '\n').drop_last());
    } else {
        let ghost old_parts = parts@;
        parts.push(cur);
        sizes.push(cur_bytes);
        proof {
            assert(views(parts@) == views(old_parts).push(parts@.last()@));
        }
    }
    (parts, sizes)
}

/// Copies of the given lines, each `Vec<char>` cloned.
fn copy_lines(lines: &Vec<Vec<char>>, a: usize, b: usize) -> (r: Vec<Vec<char>>)
    requires
        a <= b <= lines@.len(),
    ensures
        views(r@) == views(lines@).subrange(a as int, b as int),
{
    let mut r: Vec<Vec<char>> = Vec::new();
    let mut i = a;
    while i < b
        invariant
            a <= i <= b <= lines@.len(),
            views(r@) == views(lines@).subrange(a as int, i as int),
        decreases b - i,
    {
        let line = slice_of(&lines[i], 0, lines[i].len());
        assert(line@ == lines@[i as int]@);
        let ghost old_r = r@;
        r.push(line);
        assert(views(r@) == views(old_r).push(line@));
        assert(views(lines@).subrange(a as int, i + 1) == views(lines@).subrange(a as int, i as int).push(line@));
        i += 1;
    }
    r
}

fn untruncated(
    content: &[char],
    total_lines: usize,
    total_bytes: usize,
    max_lines: usize,
    max_bytes: usize,
) -> (r: TruncationResult)
    ensures
        r.content@ == content@,
        !r.truncated,
        r.truncated_by is None,
        r.total_lines == total_lines,
        r.total_bytes == total_bytes,
        r.output_lines == total_lines,
        r.output_bytes == total_bytes,
        !r.last_line_partial,
        !r.first_line_exceeds_limit,
        r.max_lines == max_lines,
        r.max_bytes == max_bytes,
{
    TruncationResult {
        content: string_of(content),
        truncated: false,
        truncated_by: None,
        total_lines,
        total_bytes,
        output_lines: total_lines,
        output_bytes: total_bytes,
        last_line_partial: false,
        first_line_exceeds_limit: false,
        max_lines,
        max_bytes,
    }
}

proof fn lemma_join_bytes_head(lines: Seq<Seq<char>>, k: int)
    requires
        0 <= k <= lines.len(),
    ensures
        bytes_len(join_spec(lines.take(k), seq!['\n'])) == prefix_cost(lines, k),
    decreases k,
{
    if k > 0 {
        lemma_join_bytes_head(lines, k - 1);
        assert(lines.take(k).drop_last() == lines.take(k - 1));
        if k > 1 {
            let a = join_spec(lines.take(k - 1), seq!['\n']);
            lemma_bytes_len_append(a, seq!['\n']);
            lemma_bytes_len_append(a + seq!['\n'], lines[k - 1]);
            lemma_bytes_len_single('\n');
            assert(('\n' as u32) == 10);
        }
    } else {
        assert(lines.take(0) == Seq::<Seq<char>>::empty());
    }
}

/// What head truncation of `content` with `options` yields: all of it when
/// within both limits; nothing, flagged, when the first line alone is over
/// the byte limit; otherwise the most leading lines within both limits.
#[verifier::opaque]
pub open spec fn head_truncation(content: Seq<char>, options: TruncationOptions, r: TruncationResult) -> bool {
    let lines = lines_spec(content);
    let n = lines.len();
    let ml = options.lines_limit();
    let mb = options.bytes_limit();
    let k = r.output_lines as int;
    &&& r.total_lines == n
    &&& r.total_bytes == bytes_len(content)
    &&& r.max_lines == ml
    &&& r.max_bytes == mb
    &&& !r.last_line_partial
    &&& if n <= ml && bytes_len(content) <= mb {
        &&& r.content@ == content
        &&& !r.truncated
        &&& r.truncated_by is None
        &&& r.output_lines == n
        &&& r.output_bytes == r.total_bytes
        &&& !r.first_line_exceeds_limit
    } else if bytes_len(lines[0]) > mb {
        &&& r.content@.len() == 0
        &&& r.truncated
        &&& r.truncated_by == Some(TruncatedBy::Bytes)
        &&& r.output_lines == 0
        &&& r.output_bytes == 0
        &&& r.first_line_exceeds_limit
    } else {
        &&& r.truncated
        &&& !r.first_line_exceeds_limit
        &&& k <= ml && k <= n
        &&& prefix_cost(lines, k) <= mb
        &&& (k == ml || k == n || prefix_cost(lines, k + 1) > mb)
        &&& r.content@ == join_spec(lines.take(k), seq!['\n'])
        &&& r.output_bytes == bytes_len(r.content@)
        &&& r.truncated_by == Some(
            if k < ml && k < n {
                TruncatedBy::Bytes
            } else {
                TruncatedBy::Lines
            },
        )
    }
}

/// Keep the first N lines/bytes. If the first line alone exceeds the byte
/// limit, returns empty content with `first_line_exceeds_limit`.
pub fn truncate_head(content: &str, options: TruncationOptions) -> (r: TruncationResult)
    ensures
        head_truncation(content@, options, r),
{
    reveal(head_truncation);
    let max_lines = match options.max_lines {
        Some(n) => n,
        None => DEFAULT_MAX_LINES,
    };
    let max_bytes = match options.max_bytes {
        Some(n) => n,
        None => DEFAULT_MAX_BYTES,
    };
    let cs = chars_of(content);
    let total_bytes = str_bytes_len(content);
    let (lines, sizes) = split_lines_counted(&cs, total_bytes);
    let total_lines = lines.len();
    let ghost ls = views(lines@);
    if total_lines <= max_lines && total_bytes <= max_bytes {
        return untruncated(&cs, total_lines, total_bytes, max_lines, max_bytes);
    }
    if total_lines > 0 && sizes[0] > max_bytes {
        assert(ls[0] == lines@[0]@);
        return TruncationResult {
            content: String::new(),
            truncated: true,
            truncated_by: Some(TruncatedBy::Bytes),
            total_lines,
            total_bytes,
            output_lines: 0,
            output_bytes: 0,
            last_line_partial: false,
            first_line_exceeds_limit: true,
            max_lines,
            max_bytes,
        };
    }
    proof {
        if total_lines == 0 {
            lemma_split_len(cs@, '\n');
            assert(cs@.len() == 0);
            assert(bytes_len(cs@) == 0);
        }
    }
    let mut k: usize = 0;
    let mut out_bytes: usize = 0;
    while k < total_lines && k < max_lines
        invariant
            ls == views(lines@),
            total_lines == lines@.len(),
            sizes@.len() == lines@.len(),
            forall|i: int| 0 <= i < sizes@.len() ==> sizes@[i] == bytes_len(#[trigger] lines@[i]@),
            k <= total_lines,
            k <= max_lines,
            out_bytes == prefix_cost(ls, k as int),
            out_bytes <= max_bytes,
        ensures
            k == total_lines || k == max_lines || prefix_cost(ls, k + 1) > max_bytes,
        decreases total_lines - k,
    {
        assert(ls[k as int] == lines@[k as int]@);
        let sep: usize = if k > 0 {
            1
        } else {
            0
        };
        if sizes[k] > max_bytes - out_bytes || sep > max_bytes - out_bytes - sizes[k] {
            break;
        }
        out_bytes = out_bytes + sizes[k] + sep;
        k += 1;
    }
    let truncated_by = if k < max_lines && k < total_lines {
        TruncatedBy::Bytes
    } else {
        TruncatedBy::Lines
    };
    let chosen = copy_lines(&lines, 0, k);
    let joined = join(&chosen, &['\n']);
    proof {
        assert(ls.subrange(0, k as int) == ls.take(k as int));
        lemma_join_bytes_head(ls, k as int);
        assert(seq!['\n'] == (['\n'])@);
    }
    let output_bytes = out_bytes;
    TruncationResult {
        output_bytes,
        output_lines: k,
        content: string_of(&joined),
        truncated: true,
        truncated_by: Some(truncated_by),
        total_lines,
        total_bytes,
        last_line_partial: false,
        first_line_exceeds_limit: false,
        max_lines,
        max_bytes,
    }
}


proof fn lemma_suffix_cost_mono(lines: Seq<Seq<char>>, a: int, b: int)
    requires
        0 <= a <= b <= lines.len(),
    ensures
        suffix_cost(lines, a) <= suffix_cost(lines, b),
    decreases b - a,
{
    if a < b {
        lemma_suffix_cost_mono(lines, a, b - 1);
    }
}

proof fn lemma_join_bytes_tail(lines: Seq<Seq<char>>, k: int)
    requires
        0 <= k <= lines.len(),
    ensures
        bytes_len(join_spec(lines.subrange(lines.len() - k, lines.len() as int), seq!['\n']))
            == suffix_cost(lines, k),
    decreases k,
{
    let n = lines.len() as int;
    if k > 1 {
        let t = lines.subrange(n - k, n);
        let t1 = lines.subrange(n - k + 1, n);
        lemma_join_bytes_tail(lines, k - 1);
        lemma_join_first(t, seq!['\n']);
        assert(t.drop_first() == t1);
        lemma_bytes_len_append(t[0] + seq!['\n'], join_spec(t1, seq!['\n']));
        lemma_bytes_len_append(t[0], seq!['\n']);
        lemma_bytes_len_single('\n');
        assert(('\n' as u32) == 10);
    } else if k == 1 {
        assert(lines.subrange(n - 1, n) == seq![lines[n - 1]]);
        assert(suffix_cost(lines, 0) == 0);
    } else {
        assert(lines.subrange(n, n) == Seq::<Seq<char>>::empty());
    }
}

/// Joining splits off the first piece.
pub proof fn lemma_join_first(t: Seq<Seq<char>>, sep: Seq<char>)
    requires
        t.len() >= 2,
    ensures
        join_spec(t, sep) == t[0] + sep + join_spec(t.drop_first(), sep),
    decreases t.len(),
{
    if t.len() == 2 {
        assert(t.drop_last() == seq![t[0]]);
        assert(t.drop_first() == seq![t[1]]);
        assert(join_spec(seq![t[0]], sep) == t[0]);
        assert(join_spec(seq![t[1]], sep) == t[1]);
    } else {
        lemma_join_first(t.drop_last(), sep);
        assert(t.drop_last().drop_first() == t.drop_first().drop_last());
        assert(t.drop_first().last() == t.last());
        assert(t.drop_last()[0] == t[0]);
        assert(join_spec(t.drop_first(), sep) == join_spec(t.drop_first().drop_last(), sep) + sep
            + t.drop_first().last());
    }
}

proof fn lemma_suffix_within_skip(s: Seq<char>, j: int, mb: nat)
    requires
        0 <= j <= s.len(),
        forall|i: int| 0 <= i < j ==> bytes_len(#[trigger] s.subrange(i, s.len() as int)) > mb,
    ensures
        suffix_within(s, mb) == suffix_within(s.subrange(j, s.len() as int), mb),
    decreases j,
{
    if j > 0 {
        assert(s.subrange(0, s.len() as int) == s);
        assert(bytes_len(s.subrange(0, s.len() as int)) > mb);
        assert forall|i: int| 0 <= i < j - 1 implies bytes_len(
            #[trigger] s.drop_first().subrange(i, s.len() - 1),
        ) > mb by {
            assert(s.drop_first().subrange(i, s.len() - 1) == s.subrange(i + 1, s.len() as int));
        }
        lemma_suffix_within_skip(s.drop_first(), j - 1, mb);
        assert(s.drop_first().subrange(j - 1, s.len() - 1) == s.subrange(j, s.len() as int));
    } else {
        assert(s.subrange(0, s.len() as int) == s);
    }
}

/// Keeps the last characters of `v` that fit in `max_bytes` bytes.
fn suffix_within_chars(v: &[char], total: usize, max_bytes: usize) -> (r: (usize, Vec<char>))
    requires
        total == bytes_len(v@),
    ensures
        r.1@ == suffix_within(v@, max_bytes as nat),
        r.1@ == v@.subrange(r.0 as int, v@.len() as int),
        r.0 <= v@.len(),
{
    let mut j: usize = 0;
    let mut b = total;
    assert(v@.subrange(0, v@.len() as int) == v@);
    while b > max_bytes && j < v.len()
        invariant
            j <= v.len(),
            b == bytes_len(v@.subrange(j as int, v@.len() as int)),
            forall|i: int| 0 <= i < j ==> bytes_len(#[trigger] v@.subrange(i, v@.len() as int)) > max_bytes,
        decreases v.len() - j,
    {
        proof {
            let t = v@.subrange(j as int, v@.len() as int);
            lemma_bytes_len_append(seq![t[0]], t.drop_first());
            assert(seq![t[0]] + t.drop_first() == t);
            lemma_bytes_len_single(t[0]);
            assert(t.drop_first() == v@.subrange(j + 1, v@.len() as int));
        }
        b = b - len_utf8(v[j]);
        j += 1;
    }
    proof {
        lemma_suffix_within_skip(v@, j as int, max_bytes as nat);
    }
    (j, slice_of(v, j, v.len()))
}

/// Last `max_bytes` bytes of `s`, snapped forward to a char boundary.
pub fn truncate_str_to_bytes_from_end(s: &str, max_bytes: usize) -> (r: &str)
    ensures
        r@ == suffix_within(s@, max_bytes as nat),
        bytes_len(r@) <= max_bytes || r@.len() == 0,
{
    let cs = chars_of(s);
    let total = str_bytes_len(s);
    let (j, _) = suffix_within_chars(&cs, total, max_bytes);
    proof {
        lemma_suffix_within_fits(s@, max_bytes as nat);
    }
    s.substring_char(j, cs.len())
}

pub(crate) proof fn lemma_suffix_within_fits(s: Seq<char>, mb: nat)
    ensures
        bytes_len(suffix_within(s, mb)) <= mb || suffix_within(s, mb).len() == 0,
    decreases s.len(),
{
    if !(bytes_len(s) <= mb || s.len() == 0) {
        lemma_suffix_within_fits(s.drop_first(), mb);
    }
}

/// What tail truncation of `content` with `options` yields: all of it when
/// within both limits; the end of the last line, flagged partial, when that
/// line alone is over the byte limit; otherwise the most trailing lines
/// within both limits.
pub open spec fn tail_truncation(content: Seq<char>, options: TruncationOptions, r: TruncationResult) -> bool {
    let lines = lines_spec(content);
    let n = lines.len() as int;
    let ml = options.lines_limit();
    let mb = options.bytes_limit();
    let k = r.output_lines as int;
    &&& r.total_lines == n
    &&& r.total_bytes == bytes_len(content)
    &&& r.max_lines == ml
    &&& r.max_bytes == mb
    &&& !r.first_line_exceeds_limit
    &&& r.output_bytes == bytes_len(r.content@)
    &&& if n <= ml && bytes_len(content) <= mb {
        &&& r.content@ == content
        &&& !r.truncated
        &&& r.truncated_by is None
        &&& r.output_lines == n
        &&& !r.last_line_partial
    } else if 0 < ml && 0 < n && bytes_len(lines[n - 1]) > mb {
        &&& r.truncated
        &&& r.last_line_partial
        &&& r.output_lines == 1
        &&& r.content@ == suffix_within(lines[n - 1], mb)
        &&& r.truncated_by == Some(
            if 1 < ml {
                TruncatedBy::Bytes
            } else {
                TruncatedBy::Lines
            },
        )
    } else {
        &&& r.truncated
        &&& !r.last_line_partial
        &&& k <= ml && k <= n
        &&& suffix_cost(lines, k) <= mb
        &&& (k == ml || k == n || suffix_cost(lines, k + 1) > mb)
        &&& r.content@ == join_spec(lines.subrange(n - k, n), seq!['\n'])
        &&& r.truncated_by == Some(
            if k < ml && k < n {
                TruncatedBy::Bytes
            } else {
                TruncatedBy::Lines
            },
        )
    }
}

/// Keep the last N lines/bytes. May return a partial line if the last line
/// of the original exceeds the byte limit.
pub fn truncate_tail(content: &str, options: TruncationOptions) -> (r: TruncationResult)
    ensures
        tail_truncation(content@, options, r),
{
    let max_lines = match options.max_lines {
        Some(n) => n,
        None => DEFAULT_MAX_LINES,
    };
    let max_bytes = match options.max_bytes {
        Some(n) => n,
        None => DEFAULT_MAX_BYTES,
    };
    let cs = chars_of(content);
    let total_bytes = str_bytes_len(content);
    let (lines, sizes) = split_lines_counted(&cs, total_bytes);
    let total_lines = lines.len();
    let ghost ls = views(lines@);
    if total_lines <= max_lines && total_bytes <= max_bytes {
        return untruncated(&cs, total_lines, total_bytes, max_lines, max_bytes);
    }
    let mut k: usize = 0;
    let mut out_bytes: usize = 0;
    while k < total_lines && k < max_lines
        invariant
            ls == views(lines@),
            total_lines == lines@.len(),
            sizes@.len() == lines@.len(),
            forall|i: int| 0 <= i < sizes@.len() ==> sizes@[i] == bytes_len(#[trigger] lines@[i]@),
            k <= total_lines,
            k <= max_lines,
            out_bytes == suffix_cost(ls, k as int),
            out_bytes <= max_bytes,
        ensures
            k == total_lines || k == max_lines || suffix_cost(ls, k + 1) > max_bytes,
        decreases total_lines - k,
    {
        let idx = total_lines - 1 - k;
        assert(ls[idx as int] == lines@[idx as int]@);
        let sep: usize = if k > 0 {
            1
        } else {
            0
        };
        if sizes[idx] > max_bytes - out_bytes || sep > max_bytes - out_bytes - sizes[idx] {
            break;
        }
        out_bytes = out_bytes + sizes[idx] + sep;
        k += 1;
    }
    proof {
        if total_lines > 0 {
            assert(ls[total_lines - 1] == lines@[total_lines - 1]@);
            assert(suffix_cost(ls, 0) == 0);
            assert(suffix_cost(ls, 1) == bytes_len(ls[total_lines - 1]));
        }
    }
    if k == 0 && 0 < max_lines && 0 < total_lines && sizes[total_lines - 1] > max_bytes {
        let last = total_lines - 1;
        assert(ls[last as int] == lines@[last as int]@);
        let (_, part) = suffix_within_chars(&lines[last], sizes[last], max_bytes);
        proof {
            lemma_suffix_within_fits(ls[last as int], max_bytes as nat);
        }
        let truncated_by = if 1 < max_lines {
            TruncatedBy::Bytes
        } else {
            TruncatedBy::Lines
        };
        let out = string_of(&part);
        let output_bytes = str_bytes_len(out.as_str());
        return TruncationResult {
            output_bytes,
            output_lines: 1,
            content: out,
            truncated: true,
            truncated_by: Some(truncated_by),
            total_lines,
            total_bytes,
            last_line_partial: true,
            first_line_exceeds_limit: false,
            max_lines,
            max_bytes,
        };
    }
    let truncated_by = if k < max_lines && k < total_lines {
        TruncatedBy::Bytes
    } else {
        TruncatedBy::Lines
    };
    let chosen = copy_lines(&lines, total_lines - k, total_lines);
    let joined = join(&chosen, &['\n']);
    proof {
        lemma_join_bytes_tail(ls, k as int);
        assert(seq!['\n'] == (['\n'])@);
        assert(joined@ == join_spec(ls.subrange(total_lines - k, total_lines as int), seq!['\n']));
        assert(bytes_len(joined@) == out_bytes);
        if k > 0 {
            lemma_suffix_cost_mono(ls, 1, k as int);
        }
        assert(!(0 < max_lines && 0 < total_lines && bytes_len(ls[total_lines - 1]) > max_bytes));
        assert(k == total_lines || k == max_lines || suffix_cost(ls, k + 1) > max_bytes);
    }
    TruncationResult {
        output_bytes: out_bytes,
        output_lines: k,
        content: string_of(&joined),
        truncated: true,
        truncated_by: Some(truncated_by),
        total_lines,
        total_bytes,
        last_line_partial: false,
        first_line_exceeds_limit: false,
        max_lines,
        max_bytes,
    }
}

/// Truncate a single line to `max_chars` characters, adding a
/// `... [truncated]` suffix.
pub fn truncate_line(line: &str, max_chars: usize) -> (r: (String, bool))
    ensures
        line@.len() <= max_chars ==> r.0@ == line@ && !r.1,
        line@.len() > max_chars ==> r.0@ == line@.take(max_chars as int) + "... [truncated]"@ && r.1,
{
    let cs = chars_of(line);
    if cs.len() <= max_chars {
        return (string_of(&cs), false);
    }
    let mut out = slice_of(&cs, 0, max_chars);
    push_str(&mut out, "... [truncated]");
    (string_of(&out), true)
}


/// `a / d` rounded to the nearest integer, ties to even.
pub open spec fn round_half_even(a: nat, d: nat) -> nat
    recommends
        d > 0,
{
    let q = a / d;
    let r = a % d;
    if 2 * r < d {
        q
    } else if 2 * r > d {
        q + 1
    } else if q % 2 == 0 {
        q
    } else {
        q + 1
    }
}

/// `n / d` printed with one decimal place (`{:.1}`).
pub open spec fn one_decimal(n: nat, d: nat) -> Seq<char> {
    let t = round_half_even(n * 10, d);
    decimal_spec(t / 10) + seq!['.'] + decimal_spec(t % 10)
}

/// Human-readable size: `512B`, `1.5KB`, `2.0MB`.
pub open spec fn format_size_spec(bytes: nat) -> Seq<char> {
    if bytes < 1024 {
        decimal_spec(bytes) + "B"@
    } else if bytes < 1048576 {
        one_decimal(bytes, 1024) + "KB"@
    } else {
        one_decimal(bytes, 1048576) + "MB"@
    }
}

fn push_one_decimal(out: &mut Vec<char>, n: u64, d: u64)
    requires
        d > 0,
    ensures
        final(out)@ == old(out)@ + one_decimal(n as nat, d as nat),
{
    let a: u128 = (n as u128) * 10;
    let q: u128 = a / (d as u128);
    let r: u128 = a % (d as u128);
    let t: u128 = if 2 * r < d as u128 {
        q
    } else if 2 * r > d as u128 {
        q + 1
    } else if q % 2 == 0 {
        q
    } else {
        q + 1
    };
    assert(t == round_half_even(n as nat * 10, d as nat));
    assert(q <= a);
    assert(t / 10 <= u64::MAX) by (nonlinear_arith)
        requires
            t <= q + 1,
            q <= a,
            a == n * 10,
            n <= u64::MAX,
    ;
    let whole = decimal((t / 10) as u64);
    push_all(out, &whole);
    out.push('.');
    let frac = decimal((t % 10) as u64);
    push_all(out, &frac);
}

/// Format bytes as a human-readable size (`512B`, `1.5KB`, `2.0MB`).
pub fn format_size(bytes: usize) -> (r: String)
    ensures
        r@ == format_size_spec(bytes as nat),
{
    let mut out: Vec<char> = Vec::new();
    if bytes < 1024 {
        let d = decimal(bytes as u64);
        push_all(&mut out, &d);
        push_str(&mut out, "B");
    } else if bytes < 1048576 {
        push_one_decimal(&mut out, bytes as u64, 1024);
        push_str(&mut out, "KB");
    } else {
        push_one_decimal(&mut out, bytes as u64, 1048576);
        push_str(&mut out, "MB");
    }
    string_of(&out)
}

} // verus!
