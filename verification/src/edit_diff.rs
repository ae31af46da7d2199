//! Exact and fuzzy text replacement for the `edit` tool, with diff
//! rendering.
//!
//! Fuzzy matching strips trailing whitespace per line and maps smart quotes,
//! Unicode dashes and special spaces to their ASCII forms.

use vstd::prelude::*;
use vstd::string::StrSliceExecFns;
use crate::text::{
    bytes_len, chars_of, count_matches, count_spec, find_first, find_spec, is_ws, join, join_spec,
    lemma_bytes_len_append, lemma_find_from_spec_matches, map_chars, matches_at, push_all, replace, replace_spec, slice_of,
    split_char, split_spec, str_bytes_len, string_of, trim_end, trim_end_spec, views, push_str,
    decimal, decimal_spec, eq_chars,
};

verus! {

#[derive(Debug, Clone, Copy, PartialEq, Eq, Structural)]
pub enum LineEnding {
    Lf,
    CrLf,
}

/// The first `\n` of `s` is preceded by `\r`.
pub open spec fn first_newline_is_crlf(s: Seq<char>) -> bool {
    exists|i: int|
        0 < i < s.len() && #[trigger] s[i] == '\n' && s[i - 1] == '\r' && forall|j: int|
            0 <= j < i ==> s[j] != '\n'
}

pub fn detect_line_ending(content: &str) -> (r: LineEnding)
    ensures
        r == (if first_newline_is_crlf(content@) {
            LineEnding::CrLf
        } else {
            LineEnding::Lf
        }),
{
    let cs = chars_of(content);
    let mut i: usize = 0;
    while i < cs.len()
        invariant
            i <= cs.len(),
            cs@ == content@,
            forall|j: int| 0 <= j < i ==> cs@[j] != '\n',
        decreases cs.len() - i,
    {
        if cs[i] == '\n' {
            if i > 0 && cs[i - 1] == '\r' {
                assert(cs@[i as int] == '\n');
                return LineEnding::CrLf;
            }
            proof {
                if first_newline_is_crlf(content@) {
                    let k = choose|k: int|
                        0 < k < cs@.len() && #[trigger] cs@[k] == '\n' && cs@[k - 1] == '\r' && forall|j: int|
                            0 <= j < k ==> cs@[j] != '\n';
                    assert(cs@[i as int] == '\n');
                    assert(k == i);
                }
            }
            return LineEnding::Lf;
        }
        i += 1;
    }
    LineEnding::Lf
}

/// `text` with `\r\n` and then lone `\r` turned into `\n`.
pub open spec fn normalize_to_lf_spec(text: Seq<char>) -> Seq<char> {
    replace_spec(replace_spec(text, seq!['\r', '\n'], seq!['\n']), seq!['\r'], seq!['\n'])
}

pub fn normalize_to_lf_vec(text: &[char]) -> (r: Vec<char>)
    ensures
        r@ == normalize_to_lf_spec(text@),
{
    let crlf = ['\r', '\n'];
    let cr = ['\r'];
    let lf = ['\n'];
    assert(crlf@ == seq!['\r', '\n']);
    assert(cr@ == seq!['\r']);
    assert(lf@ == seq!['\n']);
    let a = replace(text, &crlf, &lf);
    replace(&a, &cr, &lf)
}

pub fn normalize_to_lf(text: &str) -> (r: String)
    ensures
        r@ == normalize_to_lf_spec(text@),
{
    let cs = chars_of(text);
    string_of(&normalize_to_lf_vec(&cs))
}

pub fn restore_line_endings(text: &str, ending: LineEnding) -> (r: String)
    ensures
        ending == LineEnding::CrLf ==> r@ == replace_spec(text@, seq!['\n'], seq!['\r', '\n']),
        ending == LineEnding::Lf ==> r@ == text@,
{
    let cs = chars_of(text);
    match ending {
        LineEnding::CrLf => {
            let lf = ['\n'];
            let crlf = ['\r', '\n'];
            assert(crlf@ == seq!['\r', '\n']);
            assert(lf@ == seq!['\n']);
            string_of(&replace(&cs, &lf, &crlf))
        },
        LineEnding::Lf => string_of(&cs),
    }
}

/// Split a leading UTF-8 BOM off decoded text.
pub fn split_bom(content: &str) -> (r: (&str, &str))
    ensures
        content@.len() > 0 && content@[0] == '\u{FEFF}' ==> r.0@ == seq!['\u{FEFF}'] && r.1@
            == content@.drop_first(),
        !(content@.len() > 0 && content@[0] == '\u{FEFF}') ==> r.0@.len() == 0 && r.1@ == content@,
{
    let n = content.unicode_len();
    if n > 0 && content.get_char(0) == '\u{FEFF}' {
        let bom = content.substring_char(0, 1);
        assert(bom@ =~= seq!['\u{FEFF}']);
        (bom, content.substring_char(1, n))
    } else {
        let empty = content.substring_char(0, 0);
        let all = content.substring_char(0, n);
        assert(all@ =~= content@);
        (empty, all)
    }
}

/// The ASCII stand-in used for fuzzy matching.
pub open spec fn fuzzy_char(c: char) -> char {
    if c == '\u{2018}' || c == '\u{2019}' || c == '\u{201A}' || c == '\u{201B}' {
        '\''
    } else if c == '\u{201C}' || c == '\u{201D}' || c == '\u{201E}' || c == '\u{201F}' {
        '"'
    } else if ('\u{2010}' <= c && c <= '\u{2015}') || c == '\u{2212}' {
        '-'
    } else if c == '\u{00A0}' || ('\u{2002}' <= c && c <= '\u{200A}') || c == '\u{202F}' || c
        == '\u{205F}' || c == '\u{3000}' {
        ' '
    } else {
        c
    }
}

fn fuzzy_char_exec(c: char) -> (r: char)
    ensures
        r == fuzzy_char(c),
{
    if c == '\u{2018}' || c == '\u{2019}' || c == '\u{201A}' || c == '\u{201B}' {
        '\''
    } else if c == '\u{201C}' || c == '\u{201D}' || c == '\u{201E}' || c == '\u{201F}' {
        '"'
    } else if ('\u{2010}' <= c && c <= '\u{2015}') || c == '\u{2212}' {
        '-'
    } else if c == '\u{00A0}' || ('\u{2002}' <= c && c <= '\u{200A}') || c == '\u{202F}' || c
        == '\u{205F}' || c == '\u{3000}' {
        ' '
    } else {
        c
    }
}

/// Text normalized for fuzzy matching: trailing whitespace stripped per
/// line, smart quotes → ASCII, Unicode dashes → `-`, special spaces → ` `.
pub open spec fn normalize_fuzzy_spec(text: Seq<char>) -> Seq<char> {
    map_chars(
        join_spec(split_spec(text, '\n').map_values(|l: Seq<char>| trim_end_spec(l)), seq!['\n']),
        |c: char| fuzzy_char(c),
    )
}

fn normalize_fuzzy_chars(text: &[char]) -> (r: Vec<char>)
    ensures
        r@ == normalize_fuzzy_spec(text@),
{
    let lines = split_char(text, '\n');
    let mut trimmed: Vec<Vec<char>> = Vec::new();
    let mut i: usize = 0;
    while i < lines.len()
        invariant
            i <= lines.len(),
            views(lines@) == split_spec(text@, '\n'),
            views(trimmed@) == split_spec(text@, '\n').take(i as int).map_values(
                |l: Seq<char>| trim_end_spec(l),
            ),
        decreases lines.len() - i,
    {
        let t = trim_end(&lines[i]);
        let ghost old = trimmed@;
        trimmed.push(t);
        proof {
            assert(views(trimmed@) == views(old).push(t@));
            assert(split_spec(text@, '\n').take(i + 1).map_values(|l: Seq<char>| trim_end_spec(l))
                =~= split_spec(text@, '\n').take(i as int).map_values(|l: Seq<char>| trim_end_spec(l)).push(
                trim_end_spec(split_spec(text@, '\n')[i as int])));
            assert(views(lines@)[i as int] == lines@[i as int]@);
        }
        i += 1;
    }
    assert(split_spec(text@, '\n').take(lines.len() as int) == split_spec(text@, '\n'));
    let nl = ['\n'];
    assert(nl@ == seq!['\n']);
    let joined = join(&trimmed, &nl);
    let mut out: Vec<char> = Vec::new();
    let mut k: usize = 0;
    while k < joined.len()
        invariant
            k <= joined.len(),
            out@ == map_chars(joined@.take(k as int), |c: char| fuzzy_char(c)),
        decreases joined.len() - k,
    {
        out.push(fuzzy_char_exec(joined[k]));
        proof {
            assert(map_chars(joined@.take(k + 1), |c: char| fuzzy_char(c)) =~= map_chars(
                joined@.take(k as int),
                |c: char| fuzzy_char(c),
            ).push(fuzzy_char(joined@[k as int])));
        }
        k += 1;
    }
    assert(joined@.take(joined.len() as int) == joined@);
    out
}

/// Normalize text for fuzzy matching.
pub fn normalize_for_fuzzy_match(text: &str) -> (r: String)
    ensures
        r@ == normalize_fuzzy_spec(text@),
{
    let cs = chars_of(text);
    string_of(&normalize_fuzzy_chars(&cs))
}

/// Where `old` is found in `content`: exactly first, then in fuzzy-normalized
/// space. Positions and lengths are in characters.
pub open spec fn fuzzy_find_spec(content: Seq<char>, old: Seq<char>) -> Option<(int, int, bool)> {
    match find_spec(content, old) {
        Some(i) => Some((i, old.len() as int, false)),
        None => match find_spec(normalize_fuzzy_spec(content), normalize_fuzzy_spec(old)) {
            Some(i) => Some((i, normalize_fuzzy_spec(old).len() as int, true)),
            None => None,
        },
    }
}

/// Character-level fuzzy find.
fn fuzzy_find_chars(content: &[char], old: &[char]) -> (r: Option<(usize, usize, bool)>)
    ensures
        match r {
            Some((i, l, f)) => fuzzy_find_spec(content@, old@) == Some((i as int, l as int, f)),
            None => fuzzy_find_spec(content@, old@) is None,
        },
{
    match find_first(content, old) {
        Some(i) => Some((i, old.len(), false)),
        None => {
            let fc = normalize_fuzzy_chars(content);
            let fo = normalize_fuzzy_chars(old);
            match find_first(&fc, &fo) {
                Some(i) => Some((i, fo.len(), true)),
                None => None,
            }
        },
    }
}

#[derive(Debug, Clone)]
pub struct FuzzyMatchResult {
    pub found: bool,
    pub index: usize,
    pub match_length: usize,
    pub used_fuzzy_match: bool,
}

/// Bytes of the first `i` characters of `v`.
fn prefix_bytes(v: &[char], i: usize, total: usize) -> (n: usize)
    requires
        i <= v@.len(),
        total == bytes_len(v@),
    ensures
        n == bytes_len(v@.take(i as int)),
{
    let mut n: usize = 0;
    let mut k: usize = 0;
    while k < i
        invariant
            k <= i <= v@.len(),
            total == bytes_len(v@),
            n == bytes_len(v@.take(k as int)),
        decreases i - k,
    {
        proof {
            lemma_bytes_len_append(v@.take(k + 1), v@.subrange(k + 1, v@.len() as int));
            assert(v@.take(k + 1) + v@.subrange(k + 1, v@.len() as int) == v@);
            assert(v@.take(k + 1).drop_last() == v@.take(k as int));
        }
        n = n + crate::text::len_utf8(v[k]);
        k += 1;
    }
    n
}

/// Find `old_text` in `content`: exact first, then in fuzzy-normalized
/// space (offsets then refer to `normalize_for_fuzzy_match(content)`).
/// Offsets and lengths are in bytes.
pub fn fuzzy_find_text(content: &str, old_text: &str) -> (r: FuzzyMatchResult)
    ensures
        match fuzzy_find_spec(content@, old_text@) {
            Some((i, l, f)) => {
                let space = if f {
                    normalize_fuzzy_spec(content@)
                } else {
                    content@
                };
                let matched = if f {
                    normalize_fuzzy_spec(old_text@)
                } else {
                    old_text@
                };
                &&& r.found
                &&& r.index == bytes_len(space.take(i))
                &&& r.match_length == bytes_len(matched)
                &&& r.used_fuzzy_match == f
            },
            None => !r.found && r.index == 0 && r.match_length == 0 && !r.used_fuzzy_match,
        },
{
    let cs = chars_of(content);
    let os = chars_of(old_text);
    proof {
        lemma_find_from_spec_matches(content@, old_text@, 0);
        lemma_find_from_spec_matches(normalize_fuzzy_spec(content@), normalize_fuzzy_spec(old_text@), 0);
    }
    match fuzzy_find_chars(&cs, &os) {
        Some((i, _l, false)) => {
            let total = str_bytes_len(content);
            let index = prefix_bytes(&cs, i, total);
            let match_length = str_bytes_len(old_text);
            FuzzyMatchResult { found: true, index, match_length, used_fuzzy_match: false }
        },
        Some((i, _l, true)) => {
            let fc = normalize_fuzzy_chars(&cs);
            let fo = normalize_fuzzy_chars(&os);
            let fcs = string_of(&fc);
            let fos = string_of(&fo);
            let total = str_bytes_len(fcs.as_str());
            let index = prefix_bytes(&fc, i, total);
            let match_length = str_bytes_len(fos.as_str());
            FuzzyMatchResult { found: true, index, match_length, used_fuzzy_match: true }
        },
        None => FuzzyMatchResult { found: false, index: 0, match_length: 0, used_fuzzy_match: false },
    }
}

/// Occurrences of `old` in `content`, both fuzzy-normalized.
fn count_occurrences(content: &[char], old: &[char]) -> (r: usize)
    ensures
        r == count_spec(normalize_fuzzy_spec(content@), normalize_fuzzy_spec(old@)),
{
    let c = normalize_fuzzy_chars(content);
    let o = normalize_fuzzy_chars(old);
    count_matches(&c, &o)
}


#[derive(Debug, Clone)]
pub struct Edit {
    pub old_text: String,
    pub new_text: String,
}

#[derive(Debug, Clone)]
pub struct AppliedEdits {
    pub base_content: String,
    pub new_content: String,
}

/// A matched edit: which edit, where it matched (character offset into the
/// replacement base), how many characters it covers, and its new text.
pub struct Rep {
    pub edit_index: int,
    pub at: int,
    pub len: int,
    pub text: Seq<char>,
}

struct MatchedEdit {
    edit_index: usize,
    match_index: usize,
    match_length: usize,
    new_text: Vec<char>,
}

impl MatchedEdit {
    spec fn rep(&self) -> Rep {
        Rep {
            edit_index: self.edit_index as int,
            at: self.match_index as int,
            len: self.match_length as int,
            text: self.new_text@,
        }
    }
}

spec fn reps_of(v: Seq<MatchedEdit>) -> Seq<Rep> {
    v.map_values(|m: MatchedEdit| m.rep())
}

// ---------------------------------------------------------------------------
// Messages
// ---------------------------------------------------------------------------

pub open spec fn not_found_msg(path: Seq<char>, i: nat, total: nat) -> Seq<char> {
    if total == 1 {
        "Could not find the exact text in "@ + path
            + ". The old text must match exactly including all whitespace and newlines."@
    } else {
        "Could not find edits["@ + decimal_spec(i) + "] in "@ + path
            + ". The oldText must match exactly including all whitespace and newlines."@
    }
}

pub open spec fn duplicate_msg(path: Seq<char>, i: nat, total: nat, occurrences: nat) -> Seq<char> {
    if total == 1 {
        "Found "@ + decimal_spec(occurrences) + " occurrences of the text in "@ + path
            + ". The text must be unique. Please provide more context to make it unique."@
    } else {
        "Found "@ + decimal_spec(occurrences) + " occurrences of edits["@ + decimal_spec(i) + "] in "@
            + path + ". Each oldText must be unique. Please provide more context to make it unique."@
    }
}

pub open spec fn empty_old_text_msg(path: Seq<char>, i: nat, total: nat) -> Seq<char> {
    if total == 1 {
        "oldText must not be empty in "@ + path + "."@
    } else {
        "edits["@ + decimal_spec(i) + "].oldText must not be empty in "@ + path + "."@
    }
}

pub open spec fn no_change_msg(path: Seq<char>, total: nat) -> Seq<char> {
    if total == 1 {
        "No changes made to "@ + path
            + ". The replacement produced identical content. This might indicate an issue with special characters or the text not existing as expected."@
    } else {
        "No changes made to "@ + path + ". The replacements produced identical content."@
    }
}

pub open spec fn overlap_msg(path: Seq<char>, a: nat, b: nat) -> Seq<char> {
    "edits["@ + decimal_spec(a) + "] and edits["@ + decimal_spec(b) + "] overlap in "@ + path
        + ". Merge them into one edit or target disjoint regions."@
}

fn not_found_error(path: &str, i: usize, total: usize) -> (r: Vec<char>)
    ensures
        r@ == not_found_msg(path@, i as nat, total as nat),
{
    let mut out: Vec<char> = Vec::new();
    if total == 1 {
        push_str(&mut out, "Could not find the exact text in ");
        push_str(&mut out, path);
        push_str(&mut out, ". The old text must match exactly including all whitespace and newlines.");
    } else {
        push_str(&mut out, "Could not find edits[");
        push_all(&mut out, &decimal(i as u64));
        push_str(&mut out, "] in ");
        push_str(&mut out, path);
        push_str(&mut out, ". The oldText must match exactly including all whitespace and newlines.");
    }
    out
}

fn duplicate_error(path: &str, i: usize, total: usize, occurrences: usize) -> (r: Vec<char>)
    ensures
        r@ == duplicate_msg(path@, i as nat, total as nat, occurrences as nat),
{
    let mut out: Vec<char> = Vec::new();
    push_str(&mut out, "Found ");
    push_all(&mut out, &decimal(occurrences as u64));
    if total == 1 {
        push_str(&mut out, " occurrences of the text in ");
        push_str(&mut out, path);
        push_str(&mut out, ". The text must be unique. Please provide more context to make it unique.");
    } else {
        push_str(&mut out, " occurrences of edits[");
        push_all(&mut out, &decimal(i as u64));
        push_str(&mut out, "] in ");
        push_str(&mut out, path);
        push_str(&mut out, ". Each oldText must be unique. Please provide more context to make it unique.");
    }
    out
}

fn empty_old_text_error(path: &str, i: usize, total: usize) -> (r: Vec<char>)
    ensures
        r@ == empty_old_text_msg(path@, i as nat, total as nat),
{
    let mut out: Vec<char> = Vec::new();
    if total == 1 {
        push_str(&mut out, "oldText must not be empty in ");
    } else {
        push_str(&mut out, "edits[");
        push_all(&mut out, &decimal(i as u64));
        push_str(&mut out, "].oldText must not be empty in ");
    }
    push_str(&mut out, path);
    push_str(&mut out, ".");
    out
}

fn no_change_error(path: &str, total: usize) -> (r: Vec<char>)
    ensures
        r@ == no_change_msg(path@, total as nat),
{
    let mut out: Vec<char> = Vec::new();
    push_str(&mut out, "No changes made to ");
    push_str(&mut out, path);
    if total == 1 {
        push_str(&mut out, ". The replacement produced identical content. This might indicate an issue with special characters or the text not existing as expected.");
    } else {
        push_str(&mut out, ". The replacements produced identical content.");
    }
    out
}

fn overlap_error(path: &str, a: usize, b: usize) -> (r: Vec<char>)
    ensures
        r@ == overlap_msg(path@, a as nat, b as nat),
{
    let mut out: Vec<char> = Vec::new();
    push_str(&mut out, "edits[");
    push_all(&mut out, &decimal(a as u64));
    push_str(&mut out, "] and edits[");
    push_all(&mut out, &decimal(b as u64));
    push_str(&mut out, "] overlap in ");
    push_str(&mut out, path);
    push_str(&mut out, ". Merge them into one edit or target disjoint regions.");
    out
}

// ---------------------------------------------------------------------------
// Matching
// ---------------------------------------------------------------------------

/// Old/new text of each edit, LF-normalized.
pub open spec fn normalized_edits(edits: Seq<Edit>) -> Seq<(Seq<char>, Seq<char>)> {
    edits.map_values(
        |e: Edit| (normalize_to_lf_spec(e.old_text@), normalize_to_lf_spec(e.new_text@)),
    )
}

/// The first edit, at or after `i`, whose old text is empty.
pub open spec fn first_empty_from(es: Seq<(Seq<char>, Seq<char>)>, i: int) -> Option<int>
    decreases es.len() - i,
{
    if i < 0 || i >= es.len() {
        None
    } else if es[i].0.len() == 0 {
        Some(i)
    } else {
        first_empty_from(es, i + 1)
    }
}

/// Some edit only matches `content` in fuzzy-normalized space.
pub open spec fn any_fuzzy(content: Seq<char>, es: Seq<(Seq<char>, Seq<char>)>) -> bool {
    exists|i: int|
        0 <= i < es.len() && #[trigger] fuzzy_find_spec(content, es[i].0) matches Some((_, _, true))
}

/// Text that edit positions refer to.
pub open spec fn replacement_base(content: Seq<char>, es: Seq<(Seq<char>, Seq<char>)>) -> Seq<char> {
    if any_fuzzy(content, es) {
        normalize_fuzzy_spec(content)
    } else {
        content
    }
}

/// Matches for the first `k` edits against `base`, or the error message of
/// the first edit that is missing or ambiguous.
pub open spec fn match_edits(
    base: Seq<char>,
    es: Seq<(Seq<char>, Seq<char>)>,
    k: int,
    path: Seq<char>,
) -> Result<Seq<Rep>, Seq<char>>
    decreases k,
{
    if k <= 0 {
        Ok(Seq::empty())
    } else {
        match match_edits(base, es, k - 1, path) {
            Err(e) => Err(e),
            Ok(reps) => match fuzzy_find_spec(base, es[k - 1].0) {
                None => Err(not_found_msg(path, (k - 1) as nat, es.len())),
                Some((at, len, _)) => {
                    let occ = count_spec(normalize_fuzzy_spec(base), normalize_fuzzy_spec(es[k - 1].0));
                    if occ > 1 {
                        Err(duplicate_msg(path, (k - 1) as nat, es.len(), occ))
                    } else {
                        Ok(reps.push(Rep { edit_index: k - 1, at, len, text: es[k - 1].1 }))
                    }
                },
            },
        }
    }
}

/// Where a stable sort by position places `r` among the sorted `s`.
pub open spec fn insert_pos(s: Seq<Rep>, r: Rep) -> int
    decreases s.len(),
{
    if s.len() == 0 || s.last().at <= r.at {
        s.len() as int
    } else {
        insert_pos(s.drop_last(), r)
    }
}

/// Replacements stably sorted by position.
pub open spec fn sort_by_at(reps: Seq<Rep>) -> Seq<Rep>
    decreases reps.len(),
{
    if reps.len() == 0 {
        Seq::empty()
    } else {
        let s = sort_by_at(reps.drop_last());
        s.insert(insert_pos(s, reps.last()), reps.last())
    }
}

/// The first adjacent pair (by index of the first) that overlaps.
pub open spec fn first_overlap_from(s: Seq<Rep>, j: int) -> Option<int>
    decreases s.len() - j,
{
    if j < 0 || j + 1 >= s.len() {
        None
    } else if s[j].at + s[j].len > s[j + 1].at {
        Some(j)
    } else {
        first_overlap_from(s, j + 1)
    }
}

pub open spec fn clamp(x: int, lo: int, hi: int) -> int {
    if x < lo {
        lo
    } else if x > hi {
        hi
    } else {
        x
    }
}

/// `c` with the range of `r` (shifted back by `off`) replaced by its text.
pub open spec fn splice(c: Seq<char>, r: Rep, off: int) -> Seq<char> {
    let a = clamp(r.at - off, 0, c.len() as int);
    let b = clamp(r.at - off + r.len, a, c.len() as int);
    c.take(a) + r.text + c.subrange(b, c.len() as int)
}

/// Replacements applied last-to-first so earlier offsets stay valid.
pub open spec fn apply_rev(c: Seq<char>, reps: Seq<Rep>, off: int) -> Seq<char>
    decreases reps.len(),
{
    if reps.len() == 0 {
        c
    } else {
        apply_rev(splice(c, reps.last(), off), reps.drop_last(), off)
    }
}

proof fn lemma_insert_pos_skip(s: Seq<Rep>, r: Rep, p: int)
    requires
        0 <= p <= s.len(),
        forall|k: int| p <= k < s.len() ==> s[k].at > r.at,
    ensures
        insert_pos(s, r) == insert_pos(s.take(p), r),
    decreases s.len() - p,
{
    if p < s.len() {
        lemma_insert_pos_skip(s.drop_last(), r, p);
        assert(s.drop_last().take(p) == s.take(p));
    } else {
        assert(s.take(p) == s);
    }
}

/// Inserts `m` where a stable sort by position puts it.
fn insert_sorted(sorted: &mut Vec<MatchedEdit>, m: MatchedEdit)
    ensures
        reps_of(final(sorted)@) == reps_of(old(sorted)@).insert(
            insert_pos(reps_of(old(sorted)@), m.rep()),
            m.rep(),
        ),
{
    let ghost s = reps_of(sorted@);
    let ghost r = m.rep();
    let mut p = sorted.len();
    while p > 0 && sorted[p - 1].match_index > m.match_index
        invariant
            p <= sorted@.len(),
            s == reps_of(sorted@),
            r == m.rep(),
            forall|k: int| p <= k < s.len() ==> s[k].at > r.at,
        decreases p,
    {
        p -= 1;
    }
    proof {
        lemma_insert_pos_skip(s, r, p as int);
        if p > 0 {
            assert(s.take(p as int).last() == s[p - 1]);
            assert(s.take(p as int).len() == p);
        }
    }
    let ghost old_v = sorted@;
    sorted.insert(p, m);
    assert(reps_of(sorted@) =~= s.insert(p as int, r));
}


fn clamp_exec(x: i128, lo: i128, hi: i128) -> (r: i128)
    ensures
        r == clamp(x as int, lo as int, hi as int),
{
    if x < lo {
        lo
    } else if x > hi {
        hi
    } else {
        x
    }
}

fn splice_exec(c: &[char], m: &MatchedEdit, off: usize) -> (r: Vec<char>)
    ensures
        r@ == splice(c@, m.rep(), off as int),
{
    let n = c.len() as i128;
    let a = clamp_exec(m.match_index as i128 - off as i128, 0, n);
    let b = clamp_exec(m.match_index as i128 - off as i128 + m.match_length as i128, a, n);
    let mut out = slice_of(c, 0, a as usize);
    push_all(&mut out, &m.new_text);
    let tail = slice_of(c, b as usize, c.len());
    push_all(&mut out, &tail);
    out
}

/// Apply replacements in reverse so offsets stay stable.
fn apply_replacements(content: &[char], reps: &[MatchedEdit], offset: usize) -> (r: Vec<char>)
    ensures
        r@ == apply_rev(content@, reps_of(reps@), offset as int),
{
    let ghost all = reps_of(reps@);
    let mut result = slice_of(content, 0, content.len());
    let mut i = reps.len();
    assert(content@.subrange(0, content@.len() as int) == content@);
    assert(all.take(reps@.len() as int) == all);
    while i > 0
        invariant
            i <= reps@.len(),
            all == reps_of(reps@),
            apply_rev(result@, all.take(i as int), offset as int) == apply_rev(content@, all, offset as int),
        decreases i,
    {
        proof {
            assert(all.take(i as int).last() == reps@[i - 1].rep());
            assert(all.take(i as int).drop_last() == all.take(i - 1));
        }
        result = splice_exec(&result, &reps[i - 1], offset);
        i -= 1;
    }
    assert(all.take(reps@.len() as int) == all);
    result
}

// ---------------------------------------------------------------------------
// Line-preserving application
// ---------------------------------------------------------------------------

/// Positions just after each `\n` of `s`.
pub open spec fn nl_ends(s: Seq<char>) -> Seq<int>
    decreases s.len(),
{
    if s.len() == 0 {
        Seq::empty()
    } else if s.last() == '\n' {
        nl_ends(s.drop_last()).push(s.len() as int)
    } else {
        nl_ends(s.drop_last())
    }
}

/// End position of each line of `s`; lines keep their `\n`, and a final
/// line without one counts if it is non-empty.
pub open spec fn line_ends(s: Seq<char>) -> Seq<int> {
    if s.len() > 0 && s.last() != '\n' {
        nl_ends(s).push(s.len() as int)
    } else {
        nl_ends(s)
    }
}

/// Start position of line `j`.
pub open spec fn lstart(ends: Seq<int>, j: int) -> int {
    if j <= 0 {
        0
    } else {
        ends[j - 1]
    }
}

/// The first line at or after `j` that contains position `at`.
pub open spec fn line_containing(ends: Seq<int>, at: int, j: int) -> Option<int>
    decreases ends.len() - j,
{
    if j < 0 || j >= ends.len() {
        None
    } else if lstart(ends, j) <= at && at < ends[j] {
        Some(j)
    } else {
        line_containing(ends, at, j + 1)
    }
}

/// The first line at or after `e` whose end reaches `end` (or the line count).
pub open spec fn line_reaching(ends: Seq<int>, end: int, e: int) -> int
    decreases ends.len() - e,
{
    if e < 0 || e >= ends.len() || ends[e] >= end {
        e
    } else {
        line_reaching(ends, end, e + 1)
    }
}

/// Lines `[start, end)` covered by `r`, if it lies inside the text.
pub open spec fn line_range(ends: Seq<int>, r: Rep) -> Option<(int, int)> {
    match line_containing(ends, r.at, 0) {
        None => None,
        Some(s) => {
            let e = line_reaching(ends, r.at + r.len, s);
            if e >= ends.len() {
                None
            } else {
                Some((s, e + 1))
            }
        },
    }
}

/// Replacements whose line ranges chain together, with the covered lines.
pub struct GroupV {
    pub start: int,
    pub end: int,
    pub reps: Seq<Rep>,
}

/// Groups of the first `k` sorted replacements; `None` if one lies outside.
pub open spec fn group_reps(ends: Seq<int>, sorted: Seq<Rep>, k: int) -> Option<Seq<GroupV>>
    decreases k,
{
    if k <= 0 {
        Some(Seq::empty())
    } else {
        match group_reps(ends, sorted, k - 1) {
            None => None,
            Some(gs) => match line_range(ends, sorted[k - 1]) {
                None => None,
                Some((s, e)) => if gs.len() > 0 && s < gs.last().end {
                    let g = gs.last();
                    Some(
                        gs.update(
                            gs.len() - 1,
                            GroupV {
                                start: g.start,
                                end: if g.end >= e {
                                    g.end
                                } else {
                                    e
                                },
                                reps: g.reps.push(sorted[k - 1]),
                            },
                        ),
                    )
                } else {
                    Some(gs.push(GroupV { start: s, end: e, reps: seq![sorted[k - 1]] }))
                },
            },
        }
    }
}

/// Output for the first `k` groups and the next untouched original line.
pub open spec fn assemble(
    orig: Seq<char>,
    base: Seq<char>,
    oe: Seq<int>,
    be: Seq<int>,
    gs: Seq<GroupV>,
    k: int,
) -> (Seq<char>, int)
    decreases k,
{
    if k <= 0 {
        (Seq::empty(), 0)
    } else {
        let (acc, idx) = assemble(orig, base, oe, be, gs, k - 1);
        let g = gs[k - 1];
        let so = lstart(be, g.start);
        let eo = be[g.end - 1];
        (
            acc + orig.subrange(lstart(oe, idx), lstart(oe, g.start)) + apply_rev(
                base.subrange(so, eo),
                g.reps,
                so,
            ),
            g.end,
        )
    }
}

pub open spec fn line_count_msg() -> Seq<char> {
    "Cannot preserve unchanged lines because the base content has a different line count."@
}

pub open spec fn outside_msg() -> Seq<char> {
    "Replacement range is outside the base content."@
}

/// Replacements matched against `base` applied to `orig`: touched lines are
/// rewritten from `base`, every other line is copied from `orig`.
pub open spec fn preserve_spec(orig: Seq<char>, base: Seq<char>, sorted: Seq<Rep>) -> Result<
    Seq<char>,
    Seq<char>,
> {
    let oe = line_ends(orig);
    let be = line_ends(base);
    if oe.len() != be.len() {
        Err(line_count_msg())
    } else {
        match group_reps(be, sorted, sorted.len() as int) {
            None => Err(outside_msg()),
            Some(gs) => {
                let (acc, idx) = assemble(orig, base, oe, be, gs, gs.len() as int);
                Ok(acc + orig.subrange(lstart(oe, idx), orig.len() as int))
            },
        }
    }
}

/// Ends are increasing and within the text.
pub open spec fn ends_ok(ends: Seq<int>, len: int) -> bool {
    &&& forall|i: int, j: int| 0 <= i < j < ends.len() ==> ends[i] < ends[j]
    &&& forall|i: int| 0 <= i < ends.len() ==> 0 < #[trigger] ends[i] <= len
}

fn line_ends_exec(v: &[char]) -> (r: Vec<usize>)
    ensures
        r@.map_values(|x: usize| x as int) == line_ends(v@),
        ends_ok(line_ends(v@), v@.len() as int),
{
    let mut ends: Vec<usize> = Vec::new();
    let mut i: usize = 0;
    while i < v.len()
        invariant
            i <= v.len(),
            ends@.map_values(|x: usize| x as int) == nl_ends(v@.take(i as int)),
            ends_ok(nl_ends(v@.take(i as int)), i as int),
        decreases v.len() - i,
    {
        proof {
            assert(v@.take(i + 1).drop_last() == v@.take(i as int));
        }
        if v[i] == '\n' {
            ends.push(i + 1);
            proof {
                assert(ends@.map_values(|x: usize| x as int) =~= nl_ends(v@.take(i as int)).push(i + 1));
            }
        }
        i += 1;
    }
    assert(v@.take(v.len() as int) == v@);
    if v.len() > 0 && v[v.len() - 1] != '\n' {
        ends.push(v.len());
        proof {
            assert(ends@.map_values(|x: usize| x as int) =~= nl_ends(v@).push(v@.len() as int));
            let e = nl_ends(v@);
            if e.len() > 0 {
                assert(e[e.len() - 1] <= v@.len());
                assert(e[e.len() - 1] != v@.len()) by {
                    lemma_nl_ends_last(v@);
                }
            }
        }
    }
    ends
}

proof fn lemma_nl_ends_last(s: Seq<char>)
    requires
        nl_ends(s).len() > 0,
        s.len() > 0,
        s.last() != '\n',
    ensures
        nl_ends(s).last() < s.len(),
    decreases s.len(),
{
    lemma_nl_ends_bound(s.drop_last());
    assert(nl_ends(s) == nl_ends(s.drop_last()));
}

proof fn lemma_nl_ends_bound(s: Seq<char>)
    ensures
        forall|i: int| 0 <= i < nl_ends(s).len() ==> nl_ends(s)[i] <= s.len(),
    decreases s.len(),
{
    if s.len() > 0 {
        lemma_nl_ends_bound(s.drop_last());
        let p = nl_ends(s.drop_last());
        if s.last() == '\n' {
            assert forall|i: int| 0 <= i < nl_ends(s).len() implies nl_ends(s)[i] <= s.len() by {
                if i < p.len() {
                    assert(nl_ends(s)[i] == p[i]);
                }
            }
        }
    }
}


spec fn ends_view(v: Seq<usize>) -> Seq<int> {
    v.map_values(|x: usize| x as int)
}

fn copy_matched(m: &MatchedEdit) -> (r: MatchedEdit)
    ensures
        r.rep() == m.rep(),
{
    let t = slice_of(&m.new_text, 0, m.new_text.len());
    assert(t@ == m.new_text@);
    MatchedEdit {
        edit_index: m.edit_index,
        match_index: m.match_index,
        match_length: m.match_length,
        new_text: t,
    }
}

fn lstart_exec(ends: &Vec<usize>, j: usize) -> (r: usize)
    requires
        j <= ends@.len(),
    ensures
        r == lstart(ends_view(ends@), j as int),
{
    if j == 0 {
        0
    } else {
        ends[j - 1]
    }
}

fn replacement_line_range(ends: &Vec<usize>, m: &MatchedEdit) -> (r: Option<(usize, usize)>)
    ensures
        match r {
            Some((s, e)) => line_range(ends_view(ends@), m.rep()) == Some((s as int, e as int)) && s
                < e <= ends@.len(),
            None => line_range(ends_view(ends@), m.rep()) is None,
        },
{
    let ghost ev = ends_view(ends@);
    let n = ends.len();
    let mut j: usize = 0;
    let mut found = false;
    while j < n
        invariant_except_break
            !found,
        invariant
            j <= n,
            n == ends@.len(),
            ev == ends_view(ends@),
            line_containing(ev, m.rep().at, 0) == line_containing(ev, m.rep().at, j as int),
        ensures
            found ==> j < n && line_containing(ev, m.rep().at, 0) == Some(j as int),
            !found ==> line_containing(ev, m.rep().at, 0) is None,
        decreases n - j,
    {
        let st = lstart_exec(ends, j);
        if st <= m.match_index && m.match_index < ends[j] {
            found = true;
            break;
        }
        j += 1;
    }
    if !found {
        return None;
    }
    let start_line = j;
    let end = m.match_index as u128 + m.match_length as u128;
    let mut e = start_line;
    while e < n && (ends[e] as u128) < end
        invariant
            start_line <= e <= n,
            n == ends@.len(),
            end == m.match_index as int + m.match_length as int,
            ev == ends_view(ends@),
            line_reaching(ev, m.rep().at + m.rep().len, start_line as int) == line_reaching(
                ev,
                m.rep().at + m.rep().len,
                e as int,
            ),
        decreases n - e,
    {
        assert(ev.len() == ends@.len());
        assert(ev[e as int] == ends@[e as int] as int);
        assert((ends@[e as int] as u128) < end);
        assert(end == m.rep().at + m.rep().len);
        assert(ev[e as int] < m.rep().at + m.rep().len);
        assert(line_reaching(ev, m.rep().at + m.rep().len, e as int) == line_reaching(ev, m.rep().at + m.rep().len, e + 1));
        e += 1;
    }
    if e >= n {
        return None;
    }
    Some((start_line, e + 1))
}

struct Group {
    start_line: usize,
    end_line: usize,
    replacements: Vec<MatchedEdit>,
}

impl Group {
    spec fn view_g(&self) -> GroupV {
        GroupV { start: self.start_line as int, end: self.end_line as int, reps: reps_of(self.replacements@) }
    }
}

spec fn groups_view(v: Seq<Group>) -> Seq<GroupV> {
    v.map_values(|g: Group| g.view_g())
}

/// Groups are in order, disjoint, and cover lines inside `[0, n)`.
pub open spec fn groups_ok(gs: Seq<GroupV>, n: int) -> bool {
    &&& forall|i: int| 0 <= i < gs.len() ==> 0 <= #[trigger] gs[i].start < gs[i].end <= n
    &&& forall|i: int| 0 <= i < gs.len() - 1 ==> #[trigger] gs[i].end <= gs[i + 1].start
}

fn build_groups(ends: &Vec<usize>, sorted: &Vec<MatchedEdit>) -> (r: Option<Vec<Group>>)
    ensures
        match r {
            Some(gs) => group_reps(ends_view(ends@), reps_of(sorted@), sorted@.len() as int) == Some(
                groups_view(gs@),
            ) && groups_ok(groups_view(gs@), ends@.len() as int),
            None => group_reps(ends_view(ends@), reps_of(sorted@), sorted@.len() as int) is None,
        },
{
    let ghost ev = ends_view(ends@);
    let ghost sv = reps_of(sorted@);
    let mut groups: Vec<Group> = Vec::new();
    let mut k: usize = 0;
    while k < sorted.len()
        invariant
            k <= sorted@.len(),
            ev == ends_view(ends@),
            sv == reps_of(sorted@),
            group_reps(ev, sv, k as int) == Some(groups_view(groups@)),
            groups_ok(groups_view(groups@), ends@.len() as int),
        decreases sorted.len() - k,
    {
        assert(sv[k as int] == sorted@[k as int].rep());
        match replacement_line_range(ends, &sorted[k]) {
            None => {
                proof {
                    lemma_group_reps_none(ev, sv, k as int + 1, sorted@.len() as int);
                }
                return None;
            },
            Some((s, e)) => {
                let glen = groups.len();
                let ghost old_g = groups_view(groups@);
                if glen > 0 && s < groups[glen - 1].end_line {
                    let m = copy_matched(&sorted[k]);
                    let mut last = groups.pop().unwrap();
                    let ghost last_v = last.view_g();
                    assert(last_v == old_g.last());
                    if last.end_line < e {
                        last.end_line = e;
                    }
                    last.replacements.push(m);
                    assert(reps_of(last.replacements@) == last_v.reps.push(sv[k as int]));
                    groups.push(last);
                    proof {
                        assert(groups_view(groups@) =~= old_g.update(old_g.len() - 1, last.view_g()));
                    }
                } else {
                    let m = copy_matched(&sorted[k]);
                    let mut reps: Vec<MatchedEdit> = Vec::new();
                    reps.push(m);
                    let g = Group { start_line: s, end_line: e, replacements: reps };
                    assert(reps_of(g.replacements@) =~= seq![sv[k as int]]);
                    groups.push(g);
                    proof {
                        assert(groups_view(groups@) =~= old_g.push(g.view_g()));
                    }
                }
            },
        }
        k += 1;
    }
    Some(groups)
}

proof fn lemma_group_reps_none(ends: Seq<int>, sorted: Seq<Rep>, k: int, n: int)
    requires
        1 <= k <= n,
        group_reps(ends, sorted, k) is None,
    ensures
        group_reps(ends, sorted, n) is None,
    decreases n - k,
{
    if k < n {
        lemma_group_reps_none(ends, sorted, k + 1, n);
    }
}

/// Apply replacements matched against `base` to `orig`, rewriting only the
/// touched lines from `base` and copying every other line from `orig`.
fn apply_replacements_preserving_unchanged_lines(
    orig: &[char],
    base: &[char],
    sorted: &Vec<MatchedEdit>,
) -> (r: Result<Vec<char>, Vec<char>>)
    ensures
        match r {
            Ok(v) => preserve_spec(orig@, base@, reps_of(sorted@)) == Ok::<Seq<char>, Seq<char>>(v@),
            Err(e) => preserve_spec(orig@, base@, reps_of(sorted@)) == Err::<Seq<char>, Seq<char>>(e@),
        },
{
    let oe = line_ends_exec(orig);
    let be = line_ends_exec(base);
    let ghost oev = ends_view(oe@);
    let ghost bev = ends_view(be@);
    if oe.len() != be.len() {
        let mut msg: Vec<char> = Vec::new();
        push_str(&mut msg, "Cannot preserve unchanged lines because the base content has a different line count.");
        return Err(msg);
    }
    let groups = match build_groups(&be, sorted) {
        Some(g) => g,
        None => {
            let mut msg: Vec<char> = Vec::new();
            push_str(&mut msg, "Replacement range is outside the base content.");
            return Err(msg);
        },
    };
    let ghost gv = groups_view(groups@);
    let n = oe.len();
    let mut result: Vec<char> = Vec::new();
    let mut idx: usize = 0;
    let mut k: usize = 0;
    while k < groups.len()
        invariant
            k <= groups@.len(),
            n == oe@.len(),
            n == be@.len(),
            oev == ends_view(oe@),
            bev == ends_view(be@),
            gv == groups_view(groups@),
            groups_ok(gv, n as int),
            ends_ok(oev, orig@.len() as int),
            ends_ok(bev, base@.len() as int),
            assemble(orig@, base@, oev, bev, gv, k as int) == (result@, idx as int),
            idx <= n,
            k > 0 ==> idx == gv[k - 1].end,
            k == 0 ==> idx == 0,
        decreases groups.len() - k,
    {
        let g = &groups[k];
        assert(gv[k as int] == g.view_g());
        assert(0 <= gv[k as int].start < gv[k as int].end <= n);
        assert(idx <= g.start_line) by {
            if k > 0 {
                assert(gv[k - 1].end <= gv[k as int].start);
            }
        }
        let a = lstart_exec(&oe, idx);
        let b = lstart_exec(&oe, g.start_line);
        proof {
            if idx > 0 && idx < g.start_line {
                assert(oev[idx - 1] < oev[g.start_line - 1]);
            }
            if g.start_line > 0 {
                assert(oev[g.start_line - 1] <= orig@.len());
            }
        }
        let piece = slice_of(orig, a, b);
        push_all(&mut result, &piece);
        let so = lstart_exec(&be, g.start_line);
        let eo = be[g.end_line - 1];
        proof {
            if g.start_line > 0 {
                assert(bev[g.start_line - 1] < bev[g.end_line - 1] || g.start_line - 1 == g.end_line - 1);
            }
            assert(bev[g.end_line - 1] <= base@.len());
        }
        let seg = slice_of(base, so, eo);
        let replaced = apply_replacements(&seg, &g.replacements, so);
        push_all(&mut result, &replaced);
        idx = g.end_line;
        k += 1;
    }
    let a = lstart_exec(&oe, idx);
    proof {
        if idx > 0 {
            assert(oev[idx - 1] <= orig@.len());
        }
    }
    let tail = slice_of(orig, a, orig.len());
    push_all(&mut result, &tail);
    Ok(result)
}


/// Result of applying `edits` to LF-normalized `content` at `path`: the new
/// content, or the message of the first failure.
pub open spec fn apply_edits_spec(content: Seq<char>, edits: Seq<Edit>, path: Seq<char>) -> Result<
    Seq<char>,
    Seq<char>,
> {
    let es = normalized_edits(edits);
    match first_empty_from(es, 0) {
        Some(i) => Err(empty_old_text_msg(path, i as nat, es.len())),
        None => {
            let base = replacement_base(content, es);
            match match_edits(base, es, es.len() as int, path) {
                Err(e) => Err(e),
                Ok(reps) => {
                    let sorted = sort_by_at(reps);
                    match first_overlap_from(sorted, 0) {
                        Some(j) => Err(
                            overlap_msg(
                                path,
                                sorted[j].edit_index as nat,
                                sorted[j + 1].edit_index as nat,
                            ),
                        ),
                        None => {
                            let new = if any_fuzzy(content, es) {
                                preserve_spec(content, base, sorted)
                            } else {
                                Ok(apply_rev(base, sorted, 0))
                            };
                            match new {
                                Err(e) => Err(e),
                                Ok(n) => if n == content {
                                    Err(no_change_msg(path, es.len()))
                                } else {
                                    Ok(n)
                                },
                            }
                        },
                    }
                },
            }
        },
    }
}

proof fn lemma_match_edits_err(
    base: Seq<char>,
    es: Seq<(Seq<char>, Seq<char>)>,
    k: int,
    n: int,
    path: Seq<char>,
)
    requires
        1 <= k <= n,
        match_edits(base, es, k, path) is Err,
    ensures
        match_edits(base, es, n, path) == match_edits(base, es, k, path),
    decreases n - k,
{
    if k < n {
        lemma_match_edits_err(base, es, k + 1, n, path);
    }
}

spec fn pair_views(v: Seq<(Vec<char>, Vec<char>)>) -> Seq<(Seq<char>, Seq<char>)> {
    v.map_values(|p: (Vec<char>, Vec<char>)| (p.0@, p.1@))
}

/// Apply one or more replacements to LF-normalized content. All edits are
/// matched against the same content and applied in reverse offset order. If
/// any edit needs fuzzy matching, the whole batch runs in normalized space
/// and is overlaid back onto the original lines.
pub fn apply_edits_to_normalized_content(
    normalized_content: &str,
    edits: &[Edit],
    path: &str,
) -> (r: Result<AppliedEdits, String>)
    ensures
        match r {
            Ok(a) => apply_edits_spec(normalized_content@, edits@, path@) == Ok::<
                Seq<char>,
                Seq<char>,
            >(a.new_content@) && a.base_content@ == normalized_content@,
            Err(e) => apply_edits_spec(normalized_content@, edits@, path@) == Err::<
                Seq<char>,
                Seq<char>,
            >(e@),
        },
{
    let content = chars_of(normalized_content);
    let mut es: Vec<(Vec<char>, Vec<char>)> = Vec::new();
    let mut i: usize = 0;
    while i < edits.len()
        invariant
            i <= edits@.len(),
            pair_views(es@) == normalized_edits(edits@).take(i as int),
        decreases edits.len() - i,
    {
        let o = normalize_to_lf_vec(&chars_of(edits[i].old_text.as_str()));
        let n = normalize_to_lf_vec(&chars_of(edits[i].new_text.as_str()));
        let ghost old_es = pair_views(es@);
        es.push((o, n));
        assert(pair_views(es@) =~= old_es.push((o@, n@)));
        assert(normalized_edits(edits@).take(i + 1) =~= normalized_edits(edits@).take(i as int).push(
            (o@, n@),
        ));
        i += 1;
    }
    let ghost ev = normalized_edits(edits@);
    assert(ev.take(edits@.len() as int) == ev);
    assert(pair_views(es@) == ev);
    let total = es.len();
    let mut j: usize = 0;
    while j < total
        invariant
            j <= total,
            total == es@.len(),
            pair_views(es@) == ev,
            ev == normalized_edits(edits@),
            content@ == normalized_content@,
            first_empty_from(ev, 0) == first_empty_from(ev, j as int),
        decreases total - j,
    {
        assert(ev[j as int].0 == es@[j as int].0@);
        if es[j].0.len() == 0 {
            assert(first_empty_from(ev, j as int) == Some(j as int));
            assert(ev.len() == total);
            let msg = empty_old_text_error(path, j, total);
            assert(first_empty_from(normalized_edits(edits@), 0) == Some(j as int));
            assert(msg@ == empty_old_text_msg(path@, j as nat, normalized_edits(edits@).len()));
            assert(apply_edits_spec(normalized_content@, edits@, path@) == Err::<Seq<char>, Seq<char>>(msg@));
            return Err(string_of(&msg));
        }
        j += 1;
    }
    assert(first_empty_from(ev, 0) is None);
    let mut used_fuzzy = false;
    let mut j: usize = 0;
    while j < total
        invariant
            j <= total,
            total == es@.len(),
            pair_views(es@) == ev,
            ev == normalized_edits(edits@),
            content@ == normalized_content@,
            used_fuzzy == exists|q: int|
                0 <= q < j && #[trigger] fuzzy_find_spec(content@, ev[q].0) matches Some((_, _, true)),
        decreases total - j,
    {
        assert(ev[j as int].0 == es@[j as int].0@);
        match fuzzy_find_chars(&content, &es[j].0) {
            Some((_, _, true)) => {
                used_fuzzy = true;
            },
            _ => {},
        }
        j += 1;
    }
    assert(used_fuzzy == any_fuzzy(content@, ev));
    let base = if used_fuzzy {
        normalize_fuzzy_chars(&content)
    } else {
        slice_of(&content, 0, content.len())
    };
    assert(content@.subrange(0, content@.len() as int) == content@);
    assert(base@ == replacement_base(normalized_content@, ev));
    let mut sorted: Vec<MatchedEdit> = Vec::new();
    let ghost mut reps: Seq<Rep> = Seq::empty();
    let mut k: usize = 0;
    while k < total
        invariant
            k <= total,
            total == es@.len(),
            pair_views(es@) == ev,
            ev == normalized_edits(edits@),
            content@ == normalized_content@,
            ev.len() == total,
            base@ == replacement_base(normalized_content@, ev),
            match_edits(base@, ev, k as int, path@) == Ok::<Seq<Rep>, Seq<char>>(reps),
            first_empty_from(ev, 0) is None,
            used_fuzzy == any_fuzzy(content@, ev),
            reps_of(sorted@) == sort_by_at(reps),
            reps.len() == k,
        decreases total - k,
    {
        assert(ev[k as int].0 == es@[k as int].0@);
        assert(ev[k as int].1 == es@[k as int].1@);
        match fuzzy_find_chars(&base, &es[k].0) {
            None => {
                let msg = not_found_error(path, k, total);
                proof {
                    assert(match_edits(base@, ev, k + 1, path@) == Err::<Seq<Rep>, Seq<char>>(msg@));
                    lemma_match_edits_err(base@, ev, k + 1, total as int, path@);
                }
                return Err(string_of(&msg));
            },
            Some((at, len, _)) => {
                let occ = count_occurrences(&base, &es[k].0);
                if occ > 1 {
                    let msg = duplicate_error(path, k, total, occ);
                    proof {
                        assert(match_edits(base@, ev, k + 1, path@) == Err::<Seq<Rep>, Seq<char>>(msg@));
                        lemma_match_edits_err(base@, ev, k + 1, total as int, path@);
                    }
                    return Err(string_of(&msg));
                }
                let text = slice_of(&es[k].1, 0, es[k].1.len());
                assert(text@ == es@[k as int].1@);
                let m = MatchedEdit { edit_index: k, match_index: at, match_length: len, new_text: text };
                let ghost old_reps = reps;
                proof {
                    reps = reps.push(m.rep());
                    assert(reps.drop_last() =~= old_reps);
                    assert(reps.last() == m.rep());
                }
                insert_sorted(&mut sorted, m);
            },
        }
        k += 1;
    }
    let ghost sv = reps_of(sorted@);
    let mut j: usize = 0;
    while sorted.len() > 0 && j < sorted.len() - 1
        invariant
            sv == reps_of(sorted@),
            j <= sorted@.len(),
            sv == sort_by_at(reps),
            match_edits(base@, ev, total as int, path@) == Ok::<Seq<Rep>, Seq<char>>(reps),
            first_empty_from(ev, 0) is None,
            used_fuzzy == any_fuzzy(content@, ev),
            base@ == replacement_base(normalized_content@, ev),
            ev.len() == total,
            ev == normalized_edits(edits@),
            content@ == normalized_content@,
            first_overlap_from(sv, 0) == first_overlap_from(sv, j as int),
        decreases sorted.len() - j,
    {
        assert(sv[j as int] == sorted@[j as int].rep());
        assert(sv[j + 1] == sorted@[j + 1].rep());
        let prev = &sorted[j];
        let cur = &sorted[j + 1];
        if prev.match_index as u128 + prev.match_length as u128 > cur.match_index as u128 {
            assert(first_overlap_from(sv, j as int) == Some(j as int));
            let msg = overlap_error(path, prev.edit_index, cur.edit_index);
            return Err(string_of(&msg));
        }
        j += 1;
    }
    let new_content = if used_fuzzy {
        match apply_replacements_preserving_unchanged_lines(&content, &base, &sorted) {
            Ok(v) => v,
            Err(e) => return Err(string_of(&e)),
        }
    } else {
        apply_replacements(&base, &sorted, 0)
    };
    if eq_chars(&new_content, &content) {
        return Err(string_of(&no_change_error(path, total)));
    }
    Ok(AppliedEdits { base_content: string_of(&content), new_content: string_of(&new_content) })
}

// ---------------------------------------------------------------------------
// Untouched lines are kept
// ---------------------------------------------------------------------------

/// Line `i` of `s`, with its newline.
pub open spec fn line_of(s: Seq<char>, i: int) -> Seq<char> {
    s.subrange(lstart(line_ends(s), i), line_ends(s)[i])
}

/// Replacement `r` lies on line `i` of the text whose line ends are `ends`.
pub open spec fn rep_on_line(ends: Seq<int>, r: Rep, i: int) -> bool {
    match line_range(ends, r) {
        Some((s, e)) => s <= i < e,
        None => false,
    }
}

/// One of the first `k` replacements lies on line `i`.
pub open spec fn touched(ends: Seq<int>, reps: Seq<Rep>, k: int, i: int) -> bool {
    exists|j: int| 0 <= j < k && #[trigger] rep_on_line(ends, reps[j], i)
}

proof fn lemma_nl_ends_ok(s: Seq<char>)
    ensures
        ends_ok(nl_ends(s), s.len() as int),
        s.len() > 0 && s.last() == '\n' ==> nl_ends(s).len() > 0 && nl_ends(s).last() == s.len(),
    decreases s.len(),
{
    if s.len() > 0 {
        lemma_nl_ends_ok(s.drop_last());
    }
}

proof fn lemma_line_ends_ok(s: Seq<char>)
    ensures
        ends_ok(line_ends(s), s.len() as int),
        line_ends(s).len() == 0 ==> s.len() == 0,
        line_ends(s).len() > 0 ==> line_ends(s).last() == s.len(),
{
    lemma_nl_ends_ok(s);
    if s.len() > 0 && s.last() != '\n' {
        let e = nl_ends(s);
        if e.len() > 0 {
            lemma_nl_ends_last(s);
        }
    }
}

proof fn lemma_line_containing_range(ends: Seq<int>, at: int, j: int)
    requires
        0 <= j,
    ensures
        line_containing(ends, at, j) matches Some(s) ==> j <= s < ends.len(),
    decreases ends.len() - j,
{
    if j < ends.len() && !(lstart(ends, j) <= at && at < ends[j]) {
        lemma_line_containing_range(ends, at, j + 1);
    }
}

proof fn lemma_line_reaching_ge(ends: Seq<int>, end: int, e: int)
    ensures
        line_reaching(ends, end, e) >= e,
    decreases ends.len() - e,
{
    if !(e < 0 || e >= ends.len() || ends[e] >= end) {
        lemma_line_reaching_ge(ends, end, e + 1);
    }
}

proof fn lemma_line_range_bounds(ends: Seq<int>, r: Rep)
    ensures
        line_range(ends, r) matches Some((s, e)) ==> 0 <= s < e <= ends.len(),
{
    lemma_line_containing_range(ends, r.at, 0);
    if let Some(s) = line_containing(ends, r.at, 0) {
        lemma_line_reaching_ge(ends, r.at + r.len, s);
    }
}

/// Groups lie in order inside the text, each covering only touched lines.
spec fn groups_wf(ends: Seq<int>, reps: Seq<Rep>, k: int, gs: Seq<GroupV>) -> bool {
    &&& forall|a: int| 0 <= a < gs.len() ==> 0 <= #[trigger] gs[a].start < gs[a].end <= ends.len()
    &&& forall|a: int, b: int| 0 <= a < b < gs.len() ==> #[trigger] gs[a].end <= #[trigger] gs[b].start
    &&& forall|a: int, i: int|
        #![trigger gs[a], touched(ends, reps, k, i)]
        0 <= a < gs.len() && gs[a].start <= i < gs[a].end ==> touched(ends, reps, k, i)
}

proof fn lemma_group_reps_wf(ends: Seq<int>, reps: Seq<Rep>, k: int)
    requires
        0 <= k <= reps.len(),
        group_reps(ends, reps, k) is Some,
    ensures
        groups_wf(ends, reps, k, group_reps(ends, reps, k)->Some_0),
    decreases k,
{
    if k > 0 {
        let gs = group_reps(ends, reps, k - 1)->Some_0;
        lemma_group_reps_wf(ends, reps, k - 1);
        let r = reps[k - 1];
        lemma_line_range_bounds(ends, r);
        let (s, e) = line_range(ends, r)->Some_0;
        let ng = group_reps(ends, reps, k)->Some_0;
        assert(rep_on_line(ends, reps[k - 1], s));
        assert forall|a: int, i: int|
            #![trigger ng[a], touched(ends, reps, k, i)]
            0 <= a < ng.len() && ng[a].start <= i < ng[a].end implies touched(ends, reps, k, i) by {
            if a < gs.len() && gs[a].start <= i < gs[a].end {
                assert(touched(ends, reps, k - 1, i));
                let j = choose|j: int| 0 <= j < k - 1 && #[trigger] rep_on_line(ends, reps[j], i);
                assert(rep_on_line(ends, reps[j], i));
            } else {
                assert(rep_on_line(ends, reps[k - 1], i));
            }
        }
        if gs.len() > 0 && s < gs.last().end {
            assert forall|a: int, b: int| 0 <= a < b < ng.len() implies #[trigger] ng[a].end <= #[trigger] ng[b].start by {
                assert(gs[a].end <= gs[b].start);
            }
        } else {
            assert forall|a: int, b: int| 0 <= a < b < ng.len() implies #[trigger] ng[a].end <= #[trigger] ng[b].start by {
                if b == gs.len() && a < gs.len() - 1 {
                    assert(gs[a].end <= gs[gs.len() - 1].start);
                } else if b < gs.len() {
                    assert(gs[a].end <= gs[b].start);
                }
            }
        }
    }
}

proof fn lemma_flatten_alt_add(p: Seq<Seq<char>>, q: Seq<Seq<char>>)
    ensures
        (p + q).flatten_alt() == p.flatten_alt() + q.flatten_alt(),
    decreases q.len(),
{
    if q.len() == 0 {
        assert(p + q =~= p);
        assert(q.flatten_alt() =~= Seq::<char>::empty());
        assert(p.flatten_alt() + q.flatten_alt() =~= p.flatten_alt());
    } else {
        lemma_flatten_alt_add(p, q.drop_last());
        assert((p + q).drop_last() =~= p + q.drop_last());
        assert((p + q).last() == q.last());
        assert((p + q).flatten_alt() == (p + q).drop_last().flatten_alt() + (p + q).last());
        assert(p.flatten_alt() + q.drop_last().flatten_alt() + q.last() =~= p.flatten_alt() + (q.drop_last().flatten_alt()
            + q.last()));
    }
}

/// Lines `a..b` of `s`, one piece each.
spec fn gap_lines(s: Seq<char>, a: int, b: int) -> Seq<Seq<char>> {
    Seq::new((b - a) as nat, |j: int| line_of(s, a + j))
}

proof fn lemma_gap_lines_flatten(s: Seq<char>, a: int, b: int)
    requires
        0 <= a <= b <= line_ends(s).len(),
    ensures
        gap_lines(s, a, b).flatten_alt() == s.subrange(lstart(line_ends(s), a), lstart(line_ends(s), b)),
    decreases b - a,
{
    let oe = line_ends(s);
    lemma_line_ends_ok(s);
    if b == a {
        assert(gap_lines(s, a, b) =~= Seq::<Seq<char>>::empty());
        assert(s.subrange(lstart(oe, a), lstart(oe, b)) =~= Seq::<char>::empty());
    } else {
        lemma_gap_lines_flatten(s, a, b - 1);
        assert(gap_lines(s, a, b).drop_last() =~= gap_lines(s, a, b - 1));
        assert(gap_lines(s, a, b).last() == line_of(s, b - 1));
        let x = lstart(oe, a);
        let y = lstart(oe, b - 1);
        let z = lstart(oe, b);
        assert(z == oe[b - 1]);
        assert(x <= y) by {
            if a > 0 && a < b - 1 {
                assert(oe[a - 1] < oe[b - 2]);
            }
        }
        assert(y <= z) by {
            if b - 1 > 0 {
                assert(oe[b - 2] < oe[b - 1]);
            }
        }
        assert(s.subrange(x, y) + s.subrange(y, z) =~= s.subrange(x, z));
    }
}

/// One piece holding `x` followed by `n - 1` empty pieces.
spec fn lead_piece(x: Seq<char>, n: int) -> Seq<Seq<char>> {
    Seq::new(n as nat, |j: int| if j == 0 {
        x
    } else {
        Seq::<char>::empty()
    })
}

proof fn lemma_lead_piece_flatten(x: Seq<char>, n: int)
    requires
        n >= 1,
    ensures
        lead_piece(x, n).flatten_alt() == x,
    decreases n,
{
    if n == 1 {
        assert(lead_piece(x, n).drop_last() =~= Seq::<Seq<char>>::empty());
        assert(Seq::<Seq<char>>::empty().flatten_alt() + x =~= x);
    } else {
        lemma_lead_piece_flatten(x, n - 1);
        assert(lead_piece(x, n).drop_last() =~= lead_piece(x, n - 1));
        assert(lead_piece(x, n).last() == Seq::<char>::empty());
        assert(x + Seq::<char>::empty() =~= x);
    }
}

/// One piece per line for the first `k` groups: untouched lines as they
/// are in `orig`, each group's output on its first line.
spec fn pieces_upto(
    orig: Seq<char>,
    base: Seq<char>,
    oe: Seq<int>,
    be: Seq<int>,
    gs: Seq<GroupV>,
    k: int,
) -> Seq<Seq<char>>
    decreases k,
{
    if k <= 0 {
        Seq::empty()
    } else {
        let idx = assemble(orig, base, oe, be, gs, k - 1).1;
        let g = gs[k - 1];
        let so = lstart(be, g.start);
        let eo = be[g.end - 1];
        pieces_upto(orig, base, oe, be, gs, k - 1) + gap_lines(orig, idx, g.start) + lead_piece(
            apply_rev(base.subrange(so, eo), g.reps, so),
            g.end - g.start,
        )
    }
}

proof fn lemma_pieces_upto(orig: Seq<char>, base: Seq<char>, reps: Seq<Rep>, n: int, gs: Seq<GroupV>, k: int)
    requires
        line_ends(orig).len() == line_ends(base).len(),
        groups_wf(line_ends(base), reps, n, gs),
        0 <= k <= gs.len(),
    ensures
        ({
            let oe = line_ends(orig);
            let be = line_ends(base);
            let (acc, idx) = assemble(orig, base, oe, be, gs, k);
            let ps = pieces_upto(orig, base, oe, be, gs, k);
            &&& idx == (if k == 0 {
                0
            } else {
                gs[k - 1].end
            })
            &&& ps.len() == idx
            &&& ps.flatten_alt() == acc
            &&& forall|i: int|
                0 <= i < idx && (forall|a: int| 0 <= a < k ==> !(gs[a].start <= i < #[trigger] gs[a].end)) ==> ps[i]
                    == line_of(orig, i)
        }),
    decreases k,
{
    let oe = line_ends(orig);
    let be = line_ends(base);
    if k > 0 {
        lemma_pieces_upto(orig, base, reps, n, gs, k - 1);
        let (acc0, idx0) = assemble(orig, base, oe, be, gs, k - 1);
        let prev = pieces_upto(orig, base, oe, be, gs, k - 1);
        let g = gs[k - 1];
        assert(0 <= g.start < g.end <= be.len());
        assert(idx0 <= g.start) by {
            if k > 1 {
                assert(gs[k - 2].end <= gs[k - 1].start);
            }
        }
        let so = lstart(be, g.start);
        let eo = be[g.end - 1];
        let x = apply_rev(base.subrange(so, eo), g.reps, so);
        let gap = gap_lines(orig, idx0, g.start);
        let lead = lead_piece(x, g.end - g.start);
        let ps = pieces_upto(orig, base, oe, be, gs, k);
        assert(ps == prev + gap + lead);
        lemma_gap_lines_flatten(orig, idx0, g.start);
        lemma_lead_piece_flatten(x, g.end - g.start);
        lemma_flatten_alt_add(prev, gap);
        lemma_flatten_alt_add(prev + gap, lead);
        assert forall|i: int|
            0 <= i < g.end && (forall|a: int| 0 <= a < k ==> !(gs[a].start <= i < #[trigger] gs[a].end)) implies ps[i]
                == line_of(orig, i) by {
            if i < idx0 {
                assert(forall|a: int| 0 <= a < k - 1 ==> !(gs[a].start <= i < #[trigger] gs[a].end));
                assert(ps[i] == prev[i]);
            } else if i < g.start {
                assert(ps[i] == gap[i - idx0]);
            } else {
                assert(!(gs[k - 1].start <= i < gs[k - 1].end));
            }
        }
    }
}

/// Replacements matched against the normalized `base` and overlaid on
/// `orig` change only the lines they lie on: the result is, line for line
/// of `orig`, a piece per line whose concatenation is the result, and every
/// line that no replacement lies on is that line of `orig` unchanged (not
/// the normalized line of `base`).
pub proof fn lemma_preserve_keeps_untouched_lines(orig: Seq<char>, base: Seq<char>, sorted: Seq<Rep>)
    requires
        preserve_spec(orig, base, sorted) is Ok,
    ensures
        exists|pieces: Seq<Seq<char>>|
            #[trigger] pieces.flatten() == preserve_spec(orig, base, sorted)->Ok_0 && pieces.len() == line_ends(orig).len()
                && forall|i: int|
                0 <= i < pieces.len() && !touched(line_ends(base), sorted, sorted.len() as int, i) ==> pieces[i]
                    == line_of(orig, i),
{
    let oe = line_ends(orig);
    let be = line_ends(base);
    let n = sorted.len() as int;
    let gs = group_reps(be, sorted, n)->Some_0;
    lemma_group_reps_wf(be, sorted, n);
    lemma_pieces_upto(orig, base, sorted, n, gs, gs.len() as int);
    let (acc, idx) = assemble(orig, base, oe, be, gs, gs.len() as int);
    let ps = pieces_upto(orig, base, oe, be, gs, gs.len() as int);
    let l = oe.len() as int;
    assert(idx <= l) by {
        if gs.len() > 0 {
            assert(0 <= gs[gs.len() - 1].start < gs[gs.len() - 1].end <= be.len());
        }
    }
    let tail = gap_lines(orig, idx, l);
    let pieces = ps + tail;
    lemma_line_ends_ok(orig);
    assert(lstart(oe, l) == orig.len());
    lemma_gap_lines_flatten(orig, idx, l);
    lemma_flatten_alt_add(ps, tail);
    pieces.lemma_flatten_and_flatten_alt_are_equivalent();
    assert(pieces.flatten() == preserve_spec(orig, base, sorted)->Ok_0);
    assert forall|i: int|
        0 <= i < pieces.len() && !touched(be, sorted, n, i) implies pieces[i] == line_of(orig, i) by {
        if i < idx {
            assert forall|a: int| 0 <= a < gs.len() implies !(gs[a].start <= i < #[trigger] gs[a].end) by {
                if gs[a].start <= i < gs[a].end {
                    assert(touched(be, sorted, n, i));
                }
            }
            assert(pieces[i] == ps[i]);
        } else {
            assert(pieces[i] == tail[i - idx]);
        }
    }
}

/// When a batch of edits runs in fuzzy mode, every line of the file that
/// no matched replacement lies on comes out exactly as it was in the
/// original content, not as its normalized form.
pub proof fn lemma_fuzzy_edit_keeps_untouched_lines(content: Seq<char>, edits: Seq<Edit>, path: Seq<char>)
    requires
        apply_edits_spec(content, edits, path) is Ok,
        any_fuzzy(content, normalized_edits(edits)),
    ensures
        ({
            let es = normalized_edits(edits);
            let base = replacement_base(content, es);
            let reps = sort_by_at(match_edits(base, es, es.len() as int, path)->Ok_0);
            exists|pieces: Seq<Seq<char>>|
                #[trigger] pieces.flatten() == apply_edits_spec(content, edits, path)->Ok_0 && pieces.len() == line_ends(
                    content,
                ).len() && forall|i: int|
                    0 <= i < pieces.len() && !touched(line_ends(base), reps, reps.len() as int, i) ==> pieces[i]
                        == line_of(content, i)
        }),
{
    let es = normalized_edits(edits);
    let base = replacement_base(content, es);
    let reps = sort_by_at(match_edits(base, es, es.len() as int, path)->Ok_0);
    assert(preserve_spec(content, base, reps) == Ok::<Seq<char>, Seq<char>>(apply_edits_spec(content, edits, path)->Ok_0));
    lemma_preserve_keeps_untouched_lines(content, base, reps);
}

} // verus!
