//! Shell output handling: the streaming accumulator and the sanitizing of
//! captured text.
//!
//! The accumulator decodes output as it streams in, counts bytes and lines,
//! and keeps a bounded window of text for display. Once the output grows
//! past the display limits it asks its owner to spill the raw bytes to a
//! temporary file; the file itself is the owner's business.

use vstd::prelude::*;
use crate::text::{
    bytes_len, bytes_len_of, char_width, chars_of, find_char, lemma_bytes_len_append, lemma_bytes_len_le,
    lemma_bytes_len_single, len_utf8, push_all, push_char, slice_of, string_of, to_string,
};
use crate::truncate::{
    head_truncation, lemma_suffix_within_fits, tail_truncation, suffix_within, truncate_head, truncate_tail, TruncatedBy, TruncationOptions,
    TruncationResult, DEFAULT_MAX_BYTES, DEFAULT_MAX_LINES,
};

verus! {

#[derive(Debug, Clone, Default)]
pub struct OutputAccumulatorOptions {
    pub max_lines: Option<usize>,
    pub max_bytes: Option<usize>,
    pub temp_file_prefix: Option<String>,
    /// Which end of the output to keep when truncating. Default: tail.
    pub retain: Option<Retain>,
}

#[derive(Debug, Clone, Copy, PartialEq, Eq, Structural)]
pub enum Retain {
    Tail,
    Head,
}

impl Retain {
    /// The default end to keep: the tail.
    pub fn default_retain() -> (r: Retain)
        ensures
            r == Retain::Tail,
    {
        Retain::Tail
    }
}

/// Characters that carry no content but break terminals, JSON payloads or
/// model parsing: C0 controls other than tab and newline, and the
/// interlinear annotation marks U+FFF9..U+FFFB.
pub open spec fn stripped_char(c: char) -> bool {
    ('\u{0}' <= c && c <= '\u{8}') || ('\u{b}' <= c && c <= '\u{1f}') || ('\u{fff9}' <= c && c <= '\u{fffb}')
}

/// The characters of the first `k` of `s` that are kept.
pub open spec fn sanitized(s: Seq<char>, k: int) -> Seq<char>
    decreases k,
{
    if k <= 0 {
        Seq::empty()
    } else if stripped_char(s[k - 1]) {
        sanitized(s, k - 1)
    } else {
        sanitized(s, k - 1).push(s[k - 1])
    }
}

/// `text` without the characters that `stripped_char` names.
pub fn sanitize_shell_output(text: &str) -> (r: String)
    ensures
        r@ == sanitized(text@, text@.len() as int),
{
    let cs = chars_of(text);
    let mut out = String::new();
    let mut i: usize = 0;
    while i < cs.len()
        invariant
            i <= cs@.len(),
            cs@ == text@,
            out@ == sanitized(text@, i as int),
        decreases cs.len() - i,
    {
        let c = cs[i];
        if !(('\u{0}' <= c && c <= '\u{8}') || ('\u{b}' <= c && c <= '\u{1f}') || ('\u{fff9}' <= c && c
            <= '\u{fffb}')) {
            push_char(&mut out, c);
        }
        i += 1;
    }
    out
}

/// Sanitizing keeps exactly the characters that are not stripped: nothing
/// stripped remains, and text without such characters is left unchanged.
pub proof fn lemma_sanitize_exact(s: Seq<char>, k: int)
    requires
        0 <= k <= s.len(),
    ensures
        forall|i: int| 0 <= i < sanitized(s, k).len() ==> !stripped_char(#[trigger] sanitized(s, k)[i]),
        (forall|i: int| 0 <= i < k ==> !stripped_char(#[trigger] s[i])) ==> sanitized(s, k) == s.take(k),
    decreases k,
{
    if k > 0 {
        lemma_sanitize_exact(s, k - 1);
        let prev = sanitized(s, k - 1);
        if !stripped_char(s[k - 1]) {
            assert forall|i: int| 0 <= i < sanitized(s, k).len() implies !stripped_char(#[trigger] sanitized(s, k)[i]) by {
                if i < prev.len() {
                    assert(sanitized(s, k)[i] == prev[i]);
                }
            }
        }
        if forall|i: int| 0 <= i < k ==> !stripped_char(#[trigger] s[i]) {
            assert(!stripped_char(s[k - 1]));
            assert(s.take(k - 1).push(s[k - 1]) =~= s.take(k));
        }
    } else {
        assert(s.take(0) =~= Seq::<char>::empty());
    }
}

// ---------------------------------------------------------------------------
// Decoding
// ---------------------------------------------------------------------------

/// What `std::str::from_utf8` reports on `bytes`: the length of the longest
/// valid prefix, and, when that is not all of it, the length of the invalid
/// sequence found there (`None` when the input ends inside a sequence).
pub uninterp spec fn utf8_check_of(bytes: Seq<u8>) -> (nat, Option<nat>);

/// `std::str::from_utf8(bytes)` as plain values: `(bytes.len(), None)` when
/// it accepts the input, `(e.valid_up_to(), e.error_len())` when it does
/// not. As documented, the valid prefix is never longer than the input, and
/// an input that ends inside a sequence leaves one to three bytes after it.
#[verifier::external_body]
fn utf8_check(bytes: &[u8]) -> (r: (usize, Option<usize>))
    ensures
        utf8_check_of(bytes@) == (r.0 as nat, match r.1 {
            Some(n) => Some(n as nat),
            None => None,
        }),
        r.0 <= bytes@.len(),
        r.0 == bytes@.len() ==> r.1 is None,
        r.0 < bytes@.len() && r.1 is None ==> bytes@.len() - r.0 <= 3,
{
    match std::str::from_utf8(bytes) {
        Ok(_) => (bytes.len(), None),
        Err(e) => (e.valid_up_to(), e.error_len()),
    }
}

/// The text `String::from_utf8_lossy` decodes from `bytes`.
pub uninterp spec fn utf8_lossy(bytes: Seq<u8>) -> Seq<char>;

/// `String::from_utf8_lossy(bytes).into_owned()`. Every character of the
/// result stands for at least one input byte (a valid sequence, or an
/// invalid one replaced by U+FFFD), so there are no more characters than
/// bytes.
#[verifier::external_body]
fn lossy_text(bytes: &[u8]) -> (r: String)
    ensures
        r@ == utf8_lossy(bytes@),
        r@.len() <= bytes@.len(),
{
    String::from_utf8_lossy(bytes).into_owned()
}

/// One streaming decode step over `buf` (the bytes held back, then the new
/// chunk): the text decoded now, and the bytes of an unfinished sequence at
/// the end, held back for the next chunk.
pub open spec fn decode_step(buf: Seq<u8>) -> (Seq<char>, Seq<u8>) {
    let (valid, err) = utf8_check_of(buf);
    let (now, held) = decode_split(buf, valid, err);
    (utf8_lossy(now), held)
}

/// Given what `from_utf8` reported on `buf` (the valid prefix length and
/// the length of an invalid sequence, if any), the bytes to decode now and
/// the bytes to hold back: all of them when valid or when an invalid
/// sequence is found (it is replaced); only the valid prefix when the input
/// ends inside a sequence, whose bytes are held back.
pub open spec fn decode_split(buf: Seq<u8>, valid: nat, err: Option<nat>) -> (Seq<u8>, Seq<u8>) {
    if valid == buf.len() {
        (buf, Seq::empty())
    } else if err is None {
        (buf.take(valid as int), buf.skip(valid as int))
    } else {
        (buf, Seq::empty())
    }
}

/// The decision of one decode step: see `decode_split`.
pub fn split_for_decode(buf: &Vec<u8>, valid: usize, err: Option<usize>) -> (r: (Vec<u8>, Vec<u8>))
    requires
        valid <= buf@.len(),
    ensures
        (r.0@, r.1@) == decode_split(buf@, valid as nat, match err {
            Some(n) => Some(n as nat),
            None => None,
        }),
{
    if valid == buf.len() || err.is_some() {
        (bytes_range(buf, 0, buf.len()), Vec::new())
    } else {
        let head = bytes_range(buf, 0, valid);
        let tail = bytes_range(buf, valid, buf.len());
        assert(head@ =~= buf@.take(valid as int));
        assert(tail@ =~= buf@.skip(valid as int));
        (head, tail)
    }
}

fn bytes_range(v: &Vec<u8>, a: usize, b: usize) -> (r: Vec<u8>)
    requires
        a <= b <= v@.len(),
    ensures
        r@ == v@.subrange(a as int, b as int),
{
    let mut r: Vec<u8> = Vec::new();
    let mut i = a;
    while i < b
        invariant
            a <= i <= b <= v@.len(),
            r@ == v@.subrange(a as int, i as int),
        decreases b - i,
    {
        r.push(v[i]);
        assert(v@.subrange(a as int, i + 1) =~= v@.subrange(a as int, i as int).push(v@[i as int]));
        i += 1;
    }
    r
}

// ---------------------------------------------------------------------------
// Lines
// ---------------------------------------------------------------------------

/// The number of newlines in `s`.
pub open spec fn newline_count(s: Seq<char>) -> nat
    decreases s.len(),
{
    if s.len() == 0 {
        0
    } else {
        newline_count(s.drop_last()) + if s.last() == '\n' {
            1nat
        } else {
            0nat
        }
    }
}

/// The text after the last newline of `s` (all of `s` when it has none).
pub open spec fn after_last_newline(s: Seq<char>) -> Seq<char>
    decreases s.len(),
{
    if s.len() == 0 {
        s
    } else if s.last() == '\n' {
        Seq::empty()
    } else {
        after_last_newline(s.drop_last()).push(s.last())
    }
}

/// The number of lines of `s`: its newlines, plus one for an unfinished
/// last line.
pub open spec fn line_total(s: Seq<char>) -> nat {
    newline_count(s) + if after_last_newline(s).len() > 0 {
        1nat
    } else {
        0nat
    }
}

proof fn lemma_lines_append(a: Seq<char>, b: Seq<char>)
    ensures
        newline_count(a + b) == newline_count(a) + newline_count(b),
        after_last_newline(a + b) == if newline_count(b) == 0 {
            after_last_newline(a) + b
        } else {
            after_last_newline(b)
        },
    decreases b.len(),
{
    if b.len() == 0 {
        assert(a + b =~= a);
    } else {
        lemma_lines_append(a, b.drop_last());
        assert((a + b).drop_last() =~= a + b.drop_last());
        assert((a + b).last() == b.last());
        if b.last() != '\n' && newline_count(b.drop_last()) == 0 {
            assert(after_last_newline(a) + b.drop_last() + seq![b.last()] =~= after_last_newline(a) + b);
        }
    }
}

/// The text after the first newline of `s`, if it has one.
pub open spec fn after_first_newline(s: Seq<char>) -> Option<Seq<char>>
    decreases s.len(),
{
    if s.len() == 0 {
        None
    } else if s[0] == '\n' {
        Some(s.drop_first())
    } else {
        after_first_newline(s.drop_first())
    }
}

proof fn lemma_after_first_newline(s: Seq<char>, i: int)
    requires
        0 <= i <= s.len(),
        forall|j: int| 0 <= j < i ==> s[j] != '\n',
    ensures
        i < s.len() && s[i] == '\n' ==> after_first_newline(s) == Some(s.skip(i + 1)),
        i == s.len() ==> after_first_newline(s) is None,
    decreases i,
{
    if i > 0 {
        assert forall|j: int| 0 <= j < i - 1 implies s.drop_first()[j] != '\n' by {
            assert(s.drop_first()[j] == s[j + 1]);
        }
        lemma_after_first_newline(s.drop_first(), i - 1);
        if i < s.len() {
            assert(s.drop_first().skip(i) =~= s.skip(i + 1));
        }
    } else if s.len() > 0 {
        assert(s.drop_first() =~= s.skip(1));
    }
}

// ---------------------------------------------------------------------------
// The display window
// ---------------------------------------------------------------------------

/// The length of the shortest prefix of `s` whose bytes reach `n`, looking
/// from `k` on; all of `s` when none does.
pub open spec fn covering_len(s: Seq<char>, n: int, k: int) -> int
    decreases s.len() - k,
{
    if k >= s.len() || bytes_len(s.take(k)) >= n {
        k
    } else {
        covering_len(s, n, k + 1)
    }
}

/// The characters of `s` that start before byte `n`.
pub open spec fn prefix_covering(s: Seq<char>, n: int) -> Seq<char> {
    s.take(covering_len(s, n, 0))
}

/// Trimming the window `t` down to about `mr` bytes: keep its end (and
/// note whether it now starts a line), or keep its start.
pub open spec fn trim_spec(t: Seq<char>, mr: nat, retain: Retain, at_line_start: bool) -> (Seq<char>, bool) {
    match retain {
        Retain::Tail => {
            let k = suffix_within(t, mr);
            (k, t[t.len() - k.len() - 1] == '\n')
        },
        Retain::Head => (prefix_covering(t, mr as int), at_line_start),
    }
}

/// The accumulator as plain values: its limits, the raw chunks buffered in
/// memory, the bytes of an unfinished character, all text decoded so far,
/// the display window and whether it starts a line, the raw byte count,
/// whether output has ended, and the temporary file's path and state.
pub struct AccumulatorView {
    pub max_lines: usize,
    pub max_bytes: usize,
    pub max_rolling_bytes: usize,
    pub retain: Retain,
    pub temp_file_prefix: Seq<char>,
    pub raw_chunks: Seq<Seq<u8>>,
    pub pending: Seq<u8>,
    pub decoded: Seq<char>,
    pub tail: Seq<char>,
    pub tail_at_line_start: bool,
    pub raw_bytes: nat,
    pub finished: bool,
    pub temp_file_path: Option<Seq<char>>,
    pub file_open: bool,
}

/// Decoded text arrives: it is counted, and joins the window, which is
/// trimmed once it is over twice the rolling limit.
pub open spec fn add_text(v: AccumulatorView, text: Seq<char>) -> AccumulatorView {
    if text.len() == 0 {
        v
    } else {
        let t = v.tail + text;
        let w = if bytes_len(t) > 2 * v.max_rolling_bytes {
            trim_spec(t, v.max_rolling_bytes as nat, v.retain, v.tail_at_line_start)
        } else {
            (t, v.tail_at_line_start)
        };
        AccumulatorView { decoded: v.decoded + text, tail: w.0, tail_at_line_start: w.1, ..v }
    }
}

/// The output is past the display limits, so the raw bytes belong in a file.
pub open spec fn spills(v: AccumulatorView) -> bool {
    v.raw_bytes > v.max_bytes || bytes_len(v.decoded) > v.max_bytes || line_total(v.decoded) > v.max_lines
}

/// A chunk arrives: the state after it, and whether the chunk must go to the
/// temporary file (made first if there is none); otherwise it is buffered.
pub open spec fn append_spec(v: AccumulatorView, data: Seq<u8>) -> (AccumulatorView, bool) {
    if v.finished {
        (v, false)
    } else {
        let step = decode_step(v.pending + data);
        let v2 = add_text(AccumulatorView { pending: step.1, raw_bytes: v.raw_bytes + data.len(), ..v }, step.0);
        if v2.file_open || spills(v2) {
            (v2, true)
        } else if data.len() > 0 {
            (AccumulatorView { raw_chunks: v2.raw_chunks.push(data), ..v2 }, false)
        } else {
            (v2, false)
        }
    }
}

/// Output ends: held-back bytes are decoded as they are, and the temporary
/// file is wanted when the output spills.
pub open spec fn finish_spec(v: AccumulatorView) -> (AccumulatorView, bool) {
    if v.finished {
        (v, false)
    } else {
        let v1 = AccumulatorView { finished: true, ..v };
        let v2 = if v.pending.len() > 0 {
            add_text(AccumulatorView { pending: Seq::empty(), ..v1 }, utf8_lossy(v.pending))
        } else {
            v1
        };
        (v2, spills(v2))
    }
}

/// The text a snapshot shows: the window, from its first whole line.
pub open spec fn snapshot_window(v: AccumulatorView) -> Seq<char> {
    if v.tail_at_line_start {
        v.tail
    } else {
        match after_first_newline(v.tail) {
            Some(rest) => rest,
            None => v.tail,
        }
    }
}

/// The output is over one of the limits.
pub open spec fn over_limits(v: AccumulatorView) -> bool {
    line_total(v.decoded) > v.max_lines || bytes_len(v.decoded) > v.max_bytes
}

/// A snapshot of `v` built on the truncation `t` of its window: totals over
/// all output, the truncation reason, and the shown text sanitized.
pub open spec fn snapshot_from(v: AccumulatorView, t: TruncationResult, s: OutputSnapshot) -> bool {
    let r = s.truncation;
    &&& r.truncated == over_limits(v)
    &&& r.truncated_by == if over_limits(v) {
        match t.truncated_by {
            Some(b) => Some(b),
            None => Some(
                if bytes_len(v.decoded) > v.max_bytes {
                    TruncatedBy::Bytes
                } else {
                    TruncatedBy::Lines
                },
            ),
        }
    } else {
        None
    }
    &&& r.total_lines == line_total(v.decoded)
    &&& r.total_bytes == bytes_len(v.decoded)
    &&& r.max_lines == v.max_lines
    &&& r.max_bytes == v.max_bytes
    &&& r.content@ == t.content@
    &&& r.output_lines == t.output_lines
    &&& r.output_bytes == t.output_bytes
    &&& r.last_line_partial == t.last_line_partial
    &&& r.first_line_exceeds_limit == t.first_line_exceeds_limit
    &&& s.content@ == sanitized(t.content@, t.content@.len() as int)
    &&& match s.full_output_path {
        Some(p) => v.temp_file_path == Some(p@),
        None => v.temp_file_path is None,
    }
}

#[derive(Debug, Clone)]
pub struct OutputSnapshot {
    pub content: String,
    pub truncation: TruncationResult,
    pub full_output_path: Option<String>,
}

/// Streaming output with bounded memory.
pub struct OutputAccumulator {
    max_lines: usize,
    max_bytes: usize,
    max_rolling_bytes: usize,
    retain: Retain,
    temp_file_prefix: String,
    raw_chunks: Vec<Vec<u8>>,
    /// Undecoded trailing bytes of an incomplete UTF-8 sequence.
    pending: Vec<u8>,
    tail_text: Vec<char>,
    tail_bytes: usize,
    tail_starts_at_line_boundary: bool,
    total_raw_bytes: usize,
    total_decoded_bytes: usize,
    completed_lines: usize,
    total_lines: usize,
    current_line_bytes: usize,
    has_open_line: bool,
    finished: bool,
    temp_file_path: Option<String>,
    file_open: bool,
    decoded: Ghost<Seq<char>>,
}

pub open spec fn opt_str_view(o: Option<String>) -> Option<Seq<char>> {
    match o {
        Some(s) => Some(s@),
        None => None,
    }
}

impl View for OutputAccumulator {
    type V = AccumulatorView;

    closed spec fn view(&self) -> AccumulatorView {
        AccumulatorView {
            max_lines: self.max_lines,
            max_bytes: self.max_bytes,
            max_rolling_bytes: self.max_rolling_bytes,
            retain: self.retain,
            temp_file_prefix: self.temp_file_prefix@,
            raw_chunks: self.raw_chunks@.map_values(|c: Vec<u8>| c@),
            pending: self.pending@,
            decoded: self.decoded@,
            tail: self.tail_text@,
            tail_at_line_start: self.tail_starts_at_line_boundary,
            raw_bytes: self.total_raw_bytes as nat,
            finished: self.finished,
            temp_file_path: opt_str_view(self.temp_file_path),
            file_open: self.file_open,
        }
    }
}

/// With the end kept, the window is the end of the output, and starts a
/// line exactly when the output before it ends one. With the start kept,
/// the window never moves its start, which begins the output's first line.
pub open spec fn window_ok(v: AccumulatorView) -> bool {
    match v.retain {
        Retain::Tail => {
            let s = v.decoded.len() - v.tail.len();
            &&& v.tail.is_suffix_of(v.decoded)
            &&& v.tail_at_line_start == (s == 0 || v.decoded[s - 1] == '\n')
        },
        Retain::Head => v.tail_at_line_start,
    }
}

/// The largest output the counters are sized for.
pub open spec fn output_cap() -> nat {
    (usize::MAX / 8) as nat
}

impl OutputAccumulator {
    /// The counters agree with the decoded text, the window sits on it, and
    /// everything is within the sizes the counters can hold.
    pub closed spec fn wf(&self) -> bool {
        &&& self.text_ok()
        &&& self.decoded@.len() + self.pending@.len() <= self.total_raw_bytes
        &&& self.total_raw_bytes <= output_cap()
        &&& self.pending@.len() <= 3
    }

    /// The counters agree with the decoded text and the window sits on it.
    closed spec fn text_ok(&self) -> bool {
        let d = self.decoded@;
        &&& self.total_decoded_bytes == bytes_len(d)
        &&& self.completed_lines == newline_count(d)
        &&& self.current_line_bytes == bytes_len(after_last_newline(d))
        &&& self.has_open_line == (after_last_newline(d).len() > 0)
        &&& self.total_lines == line_total(d)
        &&& self.tail_bytes == bytes_len(self.tail_text@)
        &&& self.max_bytes <= usize::MAX / 4
        &&& self.max_rolling_bytes == if 2 * self.max_bytes > 1 {
            2 * self.max_bytes
        } else {
            1
        }
        &&& window_ok(self@)
        &&& bytes_len(self.tail_text@) <= bytes_len(d)
        &&& bytes_len(self.tail_text@) <= 2 * self.max_rolling_bytes + 3
        &&& self.tail_text@.len() <= d.len()
        &&& d.len() <= output_cap()
    }
}

proof fn lemma_line_bounds(s: Seq<char>)
    ensures
        newline_count(s) <= s.len(),
        after_last_newline(s).len() <= s.len(),
        bytes_len(after_last_newline(s)) <= bytes_len(s),
    decreases s.len(),
{
    if s.len() > 0 {
        lemma_line_bounds(s.drop_last());
        lemma_bytes_len_append(s.drop_last(), seq![s.last()]);
        assert(s.drop_last() + seq![s.last()] =~= s);
        lemma_bytes_len_append(after_last_newline(s.drop_last()), seq![s.last()]);
        assert(after_last_newline(s.drop_last()) + seq![s.last()] =~= after_last_newline(s.drop_last()).push(s.last()));
    }
}

/// The newlines of `text`, and the position of the last one.
fn newline_stats(text: &Vec<char>) -> (r: (usize, Option<usize>))
    ensures
        r.0 == newline_count(text@),
        match r.1 {
            Some(j) => j < text@.len() && r.0 > 0 && after_last_newline(text@) == text@.skip(j + 1),
            None => r.0 == 0 && after_last_newline(text@) == text@,
        },
{
    let mut count: usize = 0;
    let mut last: Option<usize> = None;
    let mut i: usize = 0;
    while i < text.len()
        invariant
            i <= text@.len(),
            count == newline_count(text@.take(i as int)),
            count <= i,
            match last {
                Some(j) => j < i && count > 0 && after_last_newline(text@.take(i as int)) == text@.take(i as int).skip(
                    j + 1,
                ),
                None => count == 0 && after_last_newline(text@.take(i as int)) == text@.take(i as int),
            },
        decreases text.len() - i,
    {
        let ghost t = text@.take(i + 1);
        assert(t.drop_last() =~= text@.take(i as int));
        assert(t.last() == text@[i as int]);
        if text[i] == '\n' {
            count = count + 1;
            last = Some(i);
            assert(t.skip(i + 1) =~= Seq::<char>::empty());
        } else {
            match last {
                Some(j) => {
                    assert(text@.take(i as int).skip(j + 1).push(text@[i as int]) =~= t.skip(j + 1));
                },
                None => {},
            }
        }
        i += 1;
    }
    assert(text@.take(text@.len() as int) =~= text@);
    (count, last)
}

impl OutputAccumulator {
    /// An empty accumulator: limits from `options` (2000 lines and 50 KiB
    /// by default), keeping the tail unless asked otherwise.
    pub fn new(options: OutputAccumulatorOptions) -> (r: Self)
        requires
            options.max_bytes matches Some(b) ==> b <= usize::MAX / 4,
        ensures
            r.wf(),
            ({
                let mb = match options.max_bytes {
                    Some(b) => b,
                    None => DEFAULT_MAX_BYTES,
                };
                r@ == AccumulatorView {
                    max_lines: match options.max_lines {
                        Some(l) => l,
                        None => DEFAULT_MAX_LINES,
                    },
                    max_bytes: mb,
                    max_rolling_bytes: if 2 * mb > 1 {
                        (2 * mb) as usize
                    } else {
                        1
                    },
                    retain: match options.retain {
                        Some(x) => x,
                        None => Retain::Tail,
                    },
                    temp_file_prefix: match options.temp_file_prefix {
                        Some(p) => p@,
                        None => "zwork-output"@,
                    },
                    raw_chunks: Seq::empty(),
                    pending: Seq::empty(),
                    decoded: Seq::empty(),
                    tail: Seq::empty(),
                    tail_at_line_start: true,
                    raw_bytes: 0,
                    finished: false,
                    temp_file_path: None,
                    file_open: false,
                }
            }),
    {
        let max_bytes = match options.max_bytes {
            Some(b) => b,
            None => DEFAULT_MAX_BYTES,
        };
        let rolling = if max_bytes * 2 > 1 {
            max_bytes * 2
        } else {
            1
        };
        let r = OutputAccumulator {
            max_lines: match options.max_lines {
                Some(l) => l,
                None => DEFAULT_MAX_LINES,
            },
            max_bytes,
            max_rolling_bytes: rolling,
            retain: match options.retain {
                Some(x) => x,
                None => Retain::Tail,
            },
            temp_file_prefix: match options.temp_file_prefix {
                Some(p) => p,
                None => to_string("zwork-output"),
            },
            raw_chunks: Vec::new(),
            pending: Vec::new(),
            tail_text: Vec::new(),
            tail_bytes: 0,
            tail_starts_at_line_boundary: true,
            total_raw_bytes: 0,
            total_decoded_bytes: 0,
            completed_lines: 0,
            total_lines: 0,
            current_line_bytes: 0,
            has_open_line: false,
            finished: false,
            temp_file_path: None,
            file_open: false,
            decoded: Ghost(Seq::empty()),
        };
        assert(r@.raw_chunks =~= Seq::<Seq<u8>>::empty());
        r
    }

    /// The prefix of the temporary file's name.
    pub fn temp_file_prefix(&self) -> (r: &str)
        ensures
            r@ == self@.temp_file_prefix,
    {
        self.temp_file_prefix.as_str()
    }

    /// The bytes of the current (last, unfinished) line.
    pub fn last_line_bytes(&self) -> (r: usize)
        requires
            self.wf(),
        ensures
            r == bytes_len(after_last_newline(self@.decoded)),
    {
        self.current_line_bytes
    }

    /// The temporary file is yet to be made.
    pub fn needs_temp_file(&self) -> (r: bool)
        ensures
            r == (self@.temp_file_path is None),
    {
        self.temp_file_path.is_none()
    }

    /// The temporary file is open for writing.
    pub fn temp_file_open(&self) -> (r: bool)
        ensures
            r == self@.file_open,
    {
        self.file_open
    }

    /// The temporary file's path, once it is made.
    pub fn temp_file_path(&self) -> (r: Option<String>)
        ensures
            opt_str_view(r) == self@.temp_file_path,
    {
        match &self.temp_file_path {
            Some(p) => Some(p.clone()),
            None => None,
        }
    }

    /// Hand over the chunks buffered in memory, to be written to the
    /// temporary file just made.
    pub fn take_raw_chunks(&mut self) -> (r: Vec<Vec<u8>>)
        requires
            old(self).wf(),
        ensures
            final(self).wf(),
            r@.map_values(|c: Vec<u8>| c@) == old(self)@.raw_chunks,
            final(self)@ == (AccumulatorView { raw_chunks: Seq::empty(), ..old(self)@ }),
    {
        let mut out: Vec<Vec<u8>> = Vec::new();
        std::mem::swap(&mut out, &mut self.raw_chunks);
        assert(self@.raw_chunks =~= Seq::<Seq<u8>>::empty());
        out
    }

    /// The temporary file was made at `path` and is open.
    pub fn temp_file_opened(&mut self, path: String)
        requires
            old(self).wf(),
        ensures
            final(self).wf(),
            final(self)@ == (AccumulatorView { temp_file_path: Some(path@), file_open: true, ..old(self)@ }),
    {
        self.temp_file_path = Some(path);
        self.file_open = true;
    }

    /// The temporary file is closed: nothing more is written to it.
    pub fn close_temp_file(&mut self)
        requires
            old(self).wf(),
        ensures
            final(self).wf(),
            final(self)@ == (AccumulatorView { file_open: false, ..old(self)@ }),
    {
        self.file_open = false;
    }
}

proof fn lemma_suffix_within_is_suffix(s: Seq<char>, n: nat)
    ensures
        suffix_within(s, n).len() <= s.len(),
        suffix_within(s, n) == s.skip(s.len() - suffix_within(s, n).len()),
        bytes_len(s) > n ==> suffix_within(s, n).len() < s.len(),
    decreases s.len(),
{
    if bytes_len(s) <= n || s.len() == 0 {
        assert(s.skip(0) =~= s);
    } else {
        lemma_suffix_within_is_suffix(s.drop_first(), n);
        let k = suffix_within(s.drop_first(), n);
        assert(s.drop_first().skip(s.drop_first().len() - k.len()) =~= s.skip(s.len() - k.len()));
    }
}

proof fn lemma_bytes_split(t: Seq<char>, d: int)
    requires
        0 <= d < t.len(),
    ensures
        bytes_len(t.skip(d)) == char_width(t[d]) + bytes_len(t.skip(d + 1)),
        t.skip(d).drop_first() == t.skip(d + 1),
{
    lemma_bytes_len_append(seq![t[d]], t.skip(d + 1));
    lemma_bytes_len_single(t[d]);
    assert(seq![t[d]] + t.skip(d + 1) =~= t.skip(d));
    assert(t.skip(d).drop_first() =~= t.skip(d + 1));
}

/// The window trimmed down to about `mr` bytes, with its size in bytes.
fn trim_window(t: &Vec<char>, t_bytes: usize, mr: usize, retain: Retain, at_line_start: bool) -> (r: (
    Vec<char>,
    usize,
    bool,
))
    requires
        t_bytes == bytes_len(t@),
        t_bytes > mr,
    ensures
        (r.0@, r.2) == trim_spec(t@, mr as nat, retain, at_line_start),
        r.1 == bytes_len(r.0@),
        r.0@.len() <= t@.len(),
        r.1 <= t_bytes,
{
    match retain {
        Retain::Tail => {
            let mut d: usize = 0;
            let mut rem = t_bytes;
            assert(t@.skip(0) =~= t@);
            while rem > mr
                invariant
                    d <= t@.len(),
                    rem == bytes_len(t@.skip(d as int)),
                    rem <= t_bytes,
                    suffix_within(t@, mr as nat) == suffix_within(t@.skip(d as int), mr as nat),
                    d > 0 || rem == t_bytes,
                    t_bytes > mr,
                decreases t@.len() - d,
            {
                if d >= t.len() {
                    assert(t@.skip(d as int) =~= Seq::<char>::empty());
                    assert(false);
                }
                proof {
                    lemma_bytes_split(t@, d as int);
                }
                let w = len_utf8(t[d]);
                rem = rem - w;
                d = d + 1;
            }
            let kept = slice_of(t.as_slice(), d, t.len());
            assert(kept@ =~= t@.skip(d as int));
            assert(t@.len() - kept@.len() - 1 == d - 1);
            (kept, rem, t[d - 1] == '\n')
        },
        Retain::Head => {
            let mut k: usize = 0;
            let mut acc: usize = 0;
            assert(t@.take(0) =~= Seq::<char>::empty());
            while k < t.len() && acc < mr
                invariant
                    k <= t@.len(),
                    acc == bytes_len(t@.take(k as int)),
                    acc <= t_bytes,
                    t_bytes == bytes_len(t@),
                    covering_len(t@, mr as int, 0) == covering_len(t@, mr as int, k as int),
                decreases t@.len() - k,
            {
                let ghost tk = t@.take(k + 1);
                assert(tk.drop_last() =~= t@.take(k as int));
                assert(tk.last() == t@[k as int]);
                proof {
                    lemma_bytes_len_append(t@.take(k + 1), t@.skip(k + 1));
                    assert(t@.take(k + 1) + t@.skip(k + 1) =~= t@);
                }
                acc = acc + len_utf8(t[k]);
                k = k + 1;
            }
            let kept = slice_of(t.as_slice(), 0, k);
            assert(kept@ =~= t@.take(k as int));
            proof {
                lemma_bytes_len_append(t@.take(k as int), t@.skip(k as int));
                assert(t@.take(k as int) + t@.skip(k as int) =~= t@);
            }
            (kept, acc, at_line_start)
        },
    }
}

/// Adding text keeps the window on the output and no larger than it.
proof fn lemma_add_text_window(v0: AccumulatorView, text: Seq<char>)
    requires
        window_ok(v0),
        bytes_len(v0.tail) <= bytes_len(v0.decoded),
        v0.tail.len() <= v0.decoded.len(),
        text.len() > 0,
        v0.max_rolling_bytes >= 1,
    ensures
        window_ok(add_text(v0, text)),
        bytes_len(add_text(v0, text).tail) <= bytes_len(add_text(v0, text).decoded),
        bytes_len(v0.tail) <= 2 * v0.max_rolling_bytes + 3 ==> bytes_len(add_text(v0, text).tail) <= 2
            * v0.max_rolling_bytes + 3,
        add_text(v0, text).tail.len() <= add_text(v0, text).decoded.len(),
{
    let v1 = add_text(v0, text);
    let d0 = v0.decoded;
    let d1 = d0 + text;
    let tv = v0.tail + text;
    let mr = v0.max_rolling_bytes as nat;
    lemma_bytes_len_append(d0, text);
    lemma_bytes_len_append(v0.tail, text);
    if bytes_len(tv) > 2 * v0.max_rolling_bytes {
        lemma_suffix_within_is_suffix(tv, mr);
        let k = suffix_within(tv, mr);
        let dd = tv.len() - k.len();
        match v0.retain {
            Retain::Tail => {
                lemma_bytes_len_append(tv.take(dd), k);
                assert(tv.take(dd) + k =~= tv);
                lemma_suffix_within_fits(tv, mr);
            },
            Retain::Head => {
                let c = covering_len(tv, mr as int, 0);
                lemma_covering_len_bounds(tv, mr as int, 0);
                lemma_bytes_len_append(tv.take(c), tv.skip(c));
                assert(tv.take(c) + tv.skip(c) =~= tv);
                lemma_covering_len_bytes(tv, mr as int, 0);
            },
        }
    }
    if v0.retain == Retain::Tail {
        let s0 = d0.len() - v0.tail.len();
        assert(d1.skip(s0) =~= tv);
        if bytes_len(tv) > 2 * v0.max_rolling_bytes {
            let k = suffix_within(tv, mr);
            let dd = tv.len() - k.len();
            assert(d1.skip(s0 + dd) =~= v1.tail);
            assert(d1[s0 + dd - 1] == tv[dd - 1]);
        } else {
            assert(d1.skip(s0) =~= v1.tail);
            if s0 > 0 {
                assert(d1[s0 - 1] == d0[s0 - 1]);
            }
        }
    }
}

/// The covering prefix stops at the first character that reaches `n`
/// bytes, so it holds fewer than `n` bytes plus one character.
proof fn lemma_covering_len_bytes(s: Seq<char>, n: int, k: int)
    requires
        0 <= k <= s.len(),
        k == 0 || bytes_len(s.take(k)) < n + 4,
        1 <= n,
    ensures
        bytes_len(s.take(covering_len(s, n, k))) < n + 4,
    decreases s.len() - k,
{
    if !(k >= s.len() || bytes_len(s.take(k)) >= n) {
        let t = s.take(k + 1);
        assert(t.drop_last() =~= s.take(k));
        assert(t.last() == s[k]);
        assert(bytes_len(t) == bytes_len(s.take(k)) + char_width(s[k]));
        lemma_covering_len_bytes(s, n, k + 1);
    } else if k == 0 {
        assert(s.take(0) =~= Seq::<char>::empty());
    }
}

proof fn lemma_covering_len_bounds(s: Seq<char>, n: int, k: int)
    requires
        0 <= k <= s.len(),
    ensures
        k <= covering_len(s, n, k) <= s.len(),
    decreases s.len() - k,
{
    if !(k >= s.len() || bytes_len(s.take(k)) >= n) {
        lemma_covering_len_bounds(s, n, k + 1);
    }
}

impl OutputAccumulator {
    /// Count decoded text and add it to the window, trimming the window
    /// once it is over twice the rolling limit.
    fn append_decoded_text(&mut self, text: &Vec<char>)
        requires
            old(self).text_ok(),
            old(self)@.decoded.len() + text@.len() <= output_cap(),
        ensures
            final(self).text_ok(),
            final(self)@ == add_text(old(self)@, text@),
            final(self).total_raw_bytes == old(self).total_raw_bytes,
            final(self).pending == old(self).pending,
    {
        if text.len() == 0 {
            return;
        }
        let ghost d0 = self.decoded@;
        let ghost v0 = self@;
        proof {
            lemma_bytes_len_le(text@);
            lemma_bytes_len_le(d0 + text@);
            lemma_bytes_len_append(d0, text@);
            lemma_bytes_len_append(self.tail_text@, text@);
            lemma_lines_append(d0, text@);
            lemma_line_bounds(d0 + text@);
            lemma_line_bounds(d0);
        }
        let bytes = bytes_len_of(text.as_slice());
        self.total_decoded_bytes = self.total_decoded_bytes + bytes;
        let mut t: Vec<char> = Vec::new();
        std::mem::swap(&mut t, &mut self.tail_text);
        push_all(&mut t, text.as_slice());
        let t_bytes = self.tail_bytes + bytes;
        let ghost tv = t@;
        if t_bytes > self.max_rolling_bytes * 2 {
            let (kept, kept_bytes, flag) = trim_window(&t, t_bytes, self.max_rolling_bytes, self.retain, self.tail_starts_at_line_boundary);
            proof {
                lemma_suffix_within_is_suffix(tv, self.max_rolling_bytes as nat);
            }
            self.tail_text = kept;
            self.tail_bytes = kept_bytes;
            self.tail_starts_at_line_boundary = flag;
        } else {
            self.tail_text = t;
            self.tail_bytes = t_bytes;
        }
        let (newlines, last) = newline_stats(text);
        match last {
            None => {
                self.current_line_bytes = self.current_line_bytes + bytes;
                self.has_open_line = true;
            },
            Some(j) => {
                self.completed_lines = self.completed_lines + newlines;
                let after = slice_of(text.as_slice(), j + 1, text.len());
                assert(after@ =~= text@.skip(j + 1));
                proof {
                    lemma_bytes_len_le(after@);
                }
                self.current_line_bytes = bytes_len_of(after.as_slice());
                self.has_open_line = after.len() > 0;
            },
        }
        self.total_lines = self.completed_lines + if self.has_open_line {
            1
        } else {
            0
        };
        self.decoded = Ghost(d0 + text@);
        proof {
            let d1 = d0 + text@;
            lemma_bytes_len_append(after_last_newline(d0), text@);
            if v0.retain == Retain::Tail && bytes_len(tv) > 2 * v0.max_rolling_bytes {
                lemma_suffix_within_is_suffix(tv, v0.max_rolling_bytes as nat);
            }
            assert(tv =~= v0.tail + text@);
            assert(self@ == add_text(v0, text@));
            lemma_add_text_window(v0, text@);
        }
    }

    /// Decode the held-back bytes followed by `data`: the text decoded now;
    /// an unfinished sequence at the end is held back.
    fn decode_streaming(&mut self, data: &[u8]) -> (r: Vec<char>)
        requires
            old(self).pending@.len() <= 3,
        ensures
            (r@, final(self).pending@) == decode_step(old(self).pending@ + data@),
            r@.len() + final(self).pending@.len() <= old(self).pending@.len() + data@.len(),
            final(self).pending@.len() <= 3,
            final(self)@ == (AccumulatorView { pending: final(self).pending@, ..old(self)@ }),
            final(self).text_ok() == old(self).text_ok(),
            final(self).total_raw_bytes == old(self).total_raw_bytes,
            final(self).decoded == old(self).decoded,
    {
        let mut buf: Vec<u8> = Vec::new();
        std::mem::swap(&mut buf, &mut self.pending);
        let ghost b0 = buf@;
        let mut i: usize = 0;
        while i < data.len()
            invariant
                i <= data@.len(),
                buf@ == b0 + data@.take(i as int),
            decreases data.len() - i,
        {
            buf.push(data[i]);
            assert(data@.take(i + 1) =~= data@.take(i as int).push(data@[i as int]));
            i += 1;
        }
        assert(data@.take(data@.len() as int) =~= data@);
        let (valid, err) = utf8_check(buf.as_slice());
        let (now, held) = split_for_decode(&buf, valid, err);
        assert(buf@.subrange(0, buf@.len() as int) =~= buf@);
        self.pending = held;
        let text = lossy_text(now.as_slice());
        chars_of(text.as_str())
    }

    /// A chunk of output arrives. Returns whether the chunk must go to the
    /// temporary file (made first, when there is none yet); when not, it
    /// is buffered in memory. Output after `finish` is ignored.
    pub fn append(&mut self, data: &[u8]) -> (r: bool)
        requires
            old(self).wf(),
            old(self)@.raw_bytes + data@.len() <= output_cap(),
        ensures
            final(self).wf(),
            (final(self)@, r) == append_spec(old(self)@, data@),
    {
        if self.finished {
            return false;
        }
        let ghost v0 = self@;
        self.total_raw_bytes = self.total_raw_bytes + data.len();
        let text = self.decode_streaming(data);
        self.append_decoded_text(&text);
        let spill = self.file_open || self.should_use_temp_file();
        if !spill && data.len() > 0 {
            let mut chunk: Vec<u8> = Vec::new();
            let mut i: usize = 0;
            while i < data.len()
                invariant
                    i <= data@.len(),
                    chunk@ == data@.take(i as int),
                decreases data.len() - i,
            {
                chunk.push(data[i]);
                assert(data@.take(i + 1) =~= data@.take(i as int).push(data@[i as int]));
                i += 1;
            }
            assert(data@.take(data@.len() as int) =~= data@);
            let ghost before = self@.raw_chunks;
            self.raw_chunks.push(chunk);
            assert(self@.raw_chunks =~= before.push(data@));
        }
        spill
    }

    fn should_use_temp_file(&self) -> (r: bool)
        requires
            self.text_ok(),
        ensures
            r == spills(self@),
    {
        self.total_raw_bytes > self.max_bytes || self.total_decoded_bytes > self.max_bytes || self.total_lines
            > self.max_lines
    }

    /// Output has ended: bytes held back are decoded as they are. Returns
    /// whether the temporary file is wanted (made, when there is none yet).
    pub fn finish(&mut self) -> (r: bool)
        requires
            old(self).wf(),
        ensures
            final(self).wf(),
            (final(self)@, r) == finish_spec(old(self)@),
    {
        if self.finished {
            return false;
        }
        self.finished = true;
        if self.pending.len() > 0 {
            let mut rest: Vec<u8> = Vec::new();
            std::mem::swap(&mut rest, &mut self.pending);
            let text = lossy_text(rest.as_slice());
            let cs = chars_of(text.as_str());
            self.append_decoded_text(&cs);
        }
        self.should_use_temp_file()
    }
}

/// `s` is the snapshot of `v` taken through the truncation `t` of its
/// window, made from the end the accumulator keeps.
pub open spec fn snapshot_of(v: AccumulatorView, t: TruncationResult, s: OutputSnapshot) -> bool {
    let opts = TruncationOptions { max_lines: Some(v.max_lines), max_bytes: Some(v.max_bytes) };
    &&& (v.retain == Retain::Tail ==> tail_truncation(snapshot_window(v), opts, t))
    &&& (v.retain == Retain::Head ==> head_truncation(snapshot_window(v), opts, t))
    &&& snapshot_from(v, t, s)
}

impl OutputAccumulator {
    /// A snapshot for display: the window from its first whole line,
    /// truncated to the limits from the end kept, with totals over all
    /// output and the text sanitized. Also returns whether the temporary
    /// file is wanted first (asked to persist, and the output is over the
    /// limits); the snapshot's path is the file's as it stands.
    pub fn snapshot(&self, persist_if_truncated: bool) -> (r: (OutputSnapshot, bool))
        requires
            self.wf(),
        ensures
            r.1 == (persist_if_truncated && over_limits(self@)),
            exists|t: TruncationResult| #[trigger] snapshot_of(self@, t, r.0),
    {
        let ghost v = self@;
        let window: Vec<char> = if self.tail_starts_at_line_boundary {
            slice_of(self.tail_text.as_slice(), 0, self.tail_text.len())
        } else {
            match find_char(self.tail_text.as_slice(), '\n') {
                Some(i) => {
                    proof {
                        lemma_after_first_newline(v.tail, i as int);
                    }
                    slice_of(self.tail_text.as_slice(), i + 1, self.tail_text.len())
                },
                None => {
                    proof {
                        lemma_after_first_newline(v.tail, v.tail.len() as int);
                    }
                    slice_of(self.tail_text.as_slice(), 0, self.tail_text.len())
                },
            }
        };
        assert(window@ =~= snapshot_window(v));
        let text = string_of(window.as_slice());
        let opts = TruncationOptions { max_lines: Some(self.max_lines), max_bytes: Some(self.max_bytes) };
        let retained = match self.retain {
            Retain::Tail => truncate_tail(text.as_str(), opts),
            Retain::Head => truncate_head(text.as_str(), opts),
        };
        let truncated = self.total_lines > self.max_lines || self.total_decoded_bytes > self.max_bytes;
        let truncated_by = if truncated {
            match retained.truncated_by {
                Some(b) => Some(b),
                None => Some(
                    if self.total_decoded_bytes > self.max_bytes {
                        TruncatedBy::Bytes
                    } else {
                        TruncatedBy::Lines
                    },
                ),
            }
        } else {
            None
        };
        let content = sanitize_shell_output(retained.content.as_str());
        let ghost t = retained;
        let truncation = TruncationResult {
            content: retained.content,
            truncated,
            truncated_by,
            total_lines: self.total_lines,
            total_bytes: self.total_decoded_bytes,
            output_lines: retained.output_lines,
            output_bytes: retained.output_bytes,
            last_line_partial: retained.last_line_partial,
            first_line_exceeds_limit: retained.first_line_exceeds_limit,
            max_lines: self.max_lines,
            max_bytes: self.max_bytes,
        };
        let snap = OutputSnapshot { content, truncation, full_output_path: self.temp_file_path() };
        assert(snapshot_of(v, t, snap));
        let res = (snap, persist_if_truncated && truncated);
        assert(snapshot_of(self@, t, res.0));
        res
    }
}

/// With the end of the output kept, the display window is the end of all
/// decoded output, and starts a line exactly when the output before it
/// ends one.
pub proof fn lemma_window_is_output_end(acc: &OutputAccumulator)
    requires
        acc.wf(),
        acc@.retain == Retain::Tail,
    ensures
        acc@.tail.is_suffix_of(acc@.decoded),
        acc@.tail_at_line_start == (acc@.decoded.len() == acc@.tail.len() || acc@.decoded[acc@.decoded.len()
            - acc@.tail.len() - 1] == '\n'),
{
}

/// The display window never holds more than twice the rolling limit plus
/// one character, however much output arrives, nor more than the output.
pub proof fn lemma_window_bounded(acc: &OutputAccumulator)
    requires
        acc.wf(),
    ensures
        bytes_len(acc@.tail) <= 2 * acc@.max_rolling_bytes + 3,
        acc@.tail.len() <= acc@.decoded.len(),
{
}

} // verus!
