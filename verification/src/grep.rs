//! The grep tool's logic: the pattern it compiles, which files and lines
//! match, and the text it reports. Walking directories and reading files
//! are the caller's.

use vstd::prelude::*;
use crate::edit_diff::{normalize_to_lf, normalize_to_lf_spec};
use crate::glob::{escape_spec, regex_compile_error, regex_escape, regex_matches, CompiledRegex};
use crate::path_utils::{file_name, file_name_spec, relative_posix, relative_spec};
use crate::text::{
    chars_of, decimal, decimal_spec, join, join_spec, push_all, push_str, split_char, split_spec, string_of,
    to_string, views,
};
use crate::truncate::{
    format_size, format_size_spec, head_truncation, truncate_head, truncate_line, TruncationOptions,
    TruncationResult, DEFAULT_MAX_BYTES, GREP_MAX_LINE_LENGTH,
};

verus! {

pub const GREP_SNIPPET: &'static str = "Search file contents for patterns (respects .gitignore)";

/// Matches reported when the caller sets no limit.
pub const DEFAULT_LIMIT: usize = 100;

/// The regex source for `pattern`: escaped when it is to be taken
/// literally.
pub fn grep_pattern(pattern: &str, literal: bool) -> (r: String)
    ensures
        r@ == (if literal {
            escape_spec(pattern@)
        } else {
            pattern@
        }),
{
    if literal {
        regex_escape(pattern)
    } else {
        to_string(pattern)
    }
}

/// Compile the search regex, case-insensitive when asked.
pub fn compile_grep_regex(pattern: &str, ignore_case: bool) -> (r: Result<CompiledRegex, String>)
    ensures
        match r {
            Ok(re) => regex_compile_error(pattern@, ignore_case) is None && re.source_spec() == pattern@
                && re.case_spec() == ignore_case,
            Err(e) => exists|err: Seq<char>|
                regex_compile_error(pattern@, ignore_case) == Some(err) && e@ == "Invalid regex pattern: "@ + err,
        },
{
    match CompiledRegex::build(pattern, ignore_case) {
        Ok(re) => Ok(re),
        Err(e) => {
            let mut msg = chars_of("Invalid regex pattern: ");
            push_str(&mut msg, e.as_str());
            Err(string_of(&msg))
        },
    }
}

/// The match limit: the one asked for, else the default, and at least 1.
pub fn effective_limit(limit: Option<usize>) -> (r: usize)
    ensures
        r == (match limit {
            Some(l) => if l < 1 {
                1
            } else {
                l
            },
            None => DEFAULT_LIMIT,
        }),
{
    match limit {
        Some(l) => if l < 1 {
            1
        } else {
            l
        },
        None => DEFAULT_LIMIT,
    }
}

/// A file holds a NUL byte among its first 8192 bytes.
pub open spec fn binary_spec(bytes: Seq<u8>) -> bool {
    exists|i: int| 0 <= i < bytes.len() && i < 8192 && bytes[i] == 0
}

pub fn is_binary(bytes: &[u8]) -> (r: bool)
    ensures
        r == binary_spec(bytes@),
{
    let mut i: usize = 0;
    while i < bytes.len() && i < 8192
        invariant
            i <= bytes@.len(),
            i <= 8192,
            forall|j: int| 0 <= j < i ==> bytes@[j] != 0,
        decreases bytes.len() - i,
    {
        if bytes[i] == 0 {
            return true;
        }
        i += 1;
    }
    false
}

/// Whether a file passes the glob filter: its path relative to the search
/// path (the path itself when it is not under it) or its base name matches.
pub open spec fn glob_admits_spec(pattern: Seq<char>, ic: bool, path: Seq<char>, search: Seq<char>) -> bool {
    let rel = match relative_spec(path, search) {
        Some(r) => r,
        None => path,
    };
    regex_matches(pattern, ic, rel) || regex_matches(pattern, ic, file_name_spec(path))
}

pub fn glob_admits(glob: &CompiledRegex, path: &str, search: &str) -> (r: bool)
    ensures
        r == glob_admits_spec(glob.source_spec(), glob.case_spec(), path@, search@),
{
    let rel = match relative_posix(path, search) {
        Some(r) => r,
        None => to_string(path),
    };
    let base = file_name(path);
    glob.is_match(rel.as_str()) || glob.is_match(base.as_str())
}

/// A line as grep tests it: a trailing carriage return dropped.
pub open spec fn scan_line(l: Seq<char>) -> Seq<char> {
    if l.len() > 0 && l.last() == '\r' {
        l.drop_last()
    } else {
        l
    }
}

/// The 1-based numbers of the first `k` lines (split on `\n`) that match.
pub open spec fn matching_lines(pattern: Seq<char>, ic: bool, lines: Seq<Seq<char>>, k: int) -> Seq<usize>
    decreases k,
{
    if k <= 0 {
        Seq::empty()
    } else {
        let prev = matching_lines(pattern, ic, lines, k - 1);
        if regex_matches(pattern, ic, scan_line(lines[k - 1])) {
            prev.push(k as usize)
        } else {
            prev
        }
    }
}

/// Scan one file's text with `found` matches already made: the numbers of
/// its matching lines in order, stopping once the limit is reached, and
/// whether it was.
pub fn scan_text(re: &CompiledRegex, text: &str, found: usize, limit: usize) -> (r: (Vec<usize>, bool))
    requires
        found < limit,
    ensures
        ({
            let lines = split_spec(text@, '\n');
            let all = matching_lines(re.source_spec(), re.case_spec(), lines, lines.len() as int);
            if found + all.len() >= limit {
                r.0@ == all.take(limit - found) && r.1
            } else {
                r.0@ == all && !r.1
            }
        }),
{
    let ghost p = re.source_spec();
    let ghost ic = re.case_spec();
    let lines = split_char(&chars_of(text), '\n');
    let ghost ls = split_spec(text@, '\n');
    let mut out: Vec<usize> = Vec::new();
    let mut i: usize = 0;
    while i < lines.len()
        invariant
            views(lines@) == ls,
            ls == split_spec(text@, '\n'),
            lines@.len() == ls.len(),
            i <= lines@.len(),
            found < limit,
            out@ == matching_lines(p, ic, ls, i as int),
            found + out@.len() < limit,
            p == re.source_spec(),
            ic == re.case_spec(),
        decreases lines.len() - i,
    {
        let ghost before = out@;
        assert(lines@[i as int]@ == ls[i as int]);
        let mut line = lines[i].clone();
        let n = line.len();
        if n > 0 && line[n - 1] == '\r' {
            line.pop();
            assert(line@ =~= ls[i as int].drop_last());
        } else {
            assert(line@ =~= ls[i as int]);
        }
        let s = string_of(&line);
        assert(s@ == scan_line(ls[i as int]));
        if re.is_match(s.as_str()) {
            out.push(i + 1);
            assert(out@ =~= matching_lines(p, ic, ls, i + 1));
            if found + out.len() == limit {
                proof {
                    lemma_matching_lines_prefix(p, ic, ls, i + 1, ls.len() as int);
                    let all = matching_lines(p, ic, ls, ls.len() as int);
                    assert(out@.len() == limit - found);
                    assert(all.len() >= out@.len());
                    assert(found + all.len() >= limit);
                    assert(out@ =~= all.take(out@.len() as int));
                    assert(out@ =~= all.take(limit - found));
                }
                return (out, true);
            }
        }
        i += 1;
    }
    (out, false)
}

/// The matches of the first `k` lines lead the matches of the first `m`.
proof fn lemma_matching_lines_prefix(p: Seq<char>, ic: bool, lines: Seq<Seq<char>>, k: int, m: int)
    requires
        0 <= k <= m,
    ensures
        matching_lines(p, ic, lines, m).len() >= matching_lines(p, ic, lines, k).len(),
        matching_lines(p, ic, lines, k) =~= matching_lines(p, ic, lines, m).take(
            matching_lines(p, ic, lines, k).len() as int,
        ),
    decreases m - k,
{
    if k < m {
        lemma_matching_lines_prefix(p, ic, lines, k, m - 1);
    }
}

/// How a matching file is named: its path relative to the searched
/// directory when it lies inside it, else its base name.
pub open spec fn display_path_spec(file: Seq<char>, search: Seq<char>, is_dir: bool) -> Seq<char> {
    match relative_spec(file, search) {
        Some(rel) => if is_dir && rel.len() > 0 && !(rel.len() >= 2 && rel[0] == '.' && rel[1] == '.') {
            rel
        } else {
            file_name_spec(file)
        },
        None => file_name_spec(file),
    }
}

pub fn grep_display_path(file: &str, search: &str, is_dir: bool) -> (r: String)
    ensures
        r@ == display_path_spec(file@, search@, is_dir),
{
    if is_dir {
        if let Some(rel) = relative_posix(file, search) {
            let cs = chars_of(rel.as_str());
            let dotted = cs.len() >= 2 && cs[0] == '.' && cs[1] == '.';
            if cs.len() > 0 && !dotted {
                return rel;
            }
        }
    }
    file_name(file)
}

/// A file's lines as the report shows them: line endings unified, split on
/// `\n`.
pub fn grep_file_lines(text: &str) -> (r: Vec<String>)
    ensures
        r@.map_values(|s: String| s@) == split_spec(normalize_to_lf_spec(text@), '\n'),
{
    let t = normalize_to_lf(text);
    let parts = split_char(&chars_of(t.as_str()), '\n');
    let mut out: Vec<String> = Vec::new();
    let mut i: usize = 0;
    while i < parts.len()
        invariant
            i <= parts@.len(),
            out@.len() == i,
            forall|j: int| 0 <= j < i ==> #[trigger] out@[j]@ == parts@[j]@,
        decreases parts.len() - i,
    {
        out.push(string_of(&parts[i]));
        i += 1;
    }
    assert(out@.map_values(|s: String| s@) =~= views(parts@));
    out
}

// ---------------------------------------------------------------------------
// The report
// ---------------------------------------------------------------------------

/// A match: the file as the report names it, and the 1-based line.
pub struct GrepMatch {
    pub path: String,
    pub line_number: usize,
}

/// The report, the match limit when it was reached, and the byte
/// truncation when it cut the report.
pub struct GrepOutput {
    pub text: String,
    pub match_limit: Option<usize>,
    pub truncation: Option<TruncationResult>,
}

pub open spec fn texts(v: Seq<String>) -> Seq<Seq<char>> {
    v.map_values(|s: String| s@)
}

/// A shown line: cut to the line-length limit with a marker.
pub open spec fn shown(t: Seq<char>) -> Seq<char> {
    if t.len() <= GREP_MAX_LINE_LENGTH {
        t
    } else {
        t.take(GREP_MAX_LINE_LENGTH as int) + "... [truncated]"@
    }
}

pub open spec fn line_at(lines: Seq<Seq<char>>, cur: int) -> Seq<char> {
    if 1 <= cur <= lines.len() {
        lines[cur - 1]
    } else {
        Seq::empty()
    }
}

/// `path:line: text` for the matching line, `path-line- text` for context.
pub open spec fn grep_line(rel: Seq<char>, cur: int, is_match: bool, t: Seq<char>) -> Seq<char> {
    if is_match {
        rel + ":"@ + decimal_spec(cur as nat) + ": "@ + t
    } else {
        rel + "-"@ + decimal_spec(cur as nat) + "- "@ + t
    }
}

/// The report lines for lines `start` up to (not including) `cur`.
pub open spec fn block_upto(rel: Seq<char>, n: int, lines: Seq<Seq<char>>, start: int, cur: int) -> Seq<Seq<char>>
    decreases cur - start,
{
    if cur <= start {
        Seq::empty()
    } else {
        block_upto(rel, n, lines, start, cur - 1).push(
            grep_line(rel, cur - 1, cur - 1 == n, shown(line_at(lines, cur - 1))),
        )
    }
}

/// Some line from `start` up to (not including) `cur` is over the length
/// limit.
pub open spec fn long_upto(lines: Seq<Seq<char>>, start: int, cur: int) -> bool {
    exists|c: int| start <= c < cur && line_at(lines, c).len() > GREP_MAX_LINE_LENGTH
}

/// The first and last line shown around match line `n`.
pub open spec fn window(n: int, len: int, context: int) -> (int, int) {
    if context > 0 {
        (if n - context < 1 {
            1
        } else {
            n - context
        }, if n + context < len {
            n + context
        } else {
            len
        })
    } else {
        (n, n)
    }
}

/// The report lines of one match, and whether one of them was cut.
pub open spec fn block_spec(rel: Seq<char>, n: int, lines: Seq<Seq<char>>, context: int) -> (Seq<Seq<char>>, bool) {
    if lines.len() == 0 {
        (seq![rel + ":"@ + decimal_spec(n as nat) + ": (unable to read file)"@], false)
    } else {
        let (s, e) = window(n, lines.len() as int, context);
        (block_upto(rel, n, lines, s, e + 1), long_upto(lines, s, e + 1))
    }
}

/// The report lines of the first `k` matches, and whether a line was cut.
pub open spec fn blocks_upto(ms: Seq<GrepMatch>, fl: Seq<Vec<String>>, context: int, k: int) -> (Seq<Seq<char>>, bool)
    decreases k,
{
    if k <= 0 {
        (Seq::empty(), false)
    } else {
        let prev = blocks_upto(ms, fl, context, k - 1);
        let b = block_spec(ms[k - 1].path@, ms[k - 1].line_number as int, texts(fl[k - 1]@), context);
        (prev.0 + b.0, prev.1 || b.1)
    }
}

/// The notices appended to a report.
pub open spec fn notices_spec(limit_reached: bool, limit: usize, bytes_cut: bool, lines_cut: bool) -> Seq<Seq<char>> {
    (if limit_reached {
        seq![decimal_spec(limit as nat) + " matches limit reached. Use limit="@ + decimal_spec((2 * limit) as nat)
            + " for more, or refine pattern"@]
    } else {
        Seq::empty()
    }) + (if bytes_cut {
        seq![format_size_spec(DEFAULT_MAX_BYTES as nat) + " limit reached"@]
    } else {
        Seq::empty()
    }) + (if lines_cut {
        seq!["Some lines truncated to 500 chars. Use read tool to see full lines"@]
    } else {
        Seq::empty()
    })
}

pub open spec fn with_notices(content: Seq<char>, notices: Seq<Seq<char>>) -> Seq<char> {
    if notices.len() == 0 {
        content
    } else {
        content + "\n\n["@ + join_spec(notices, ". "@) + "]"@
    }
}

pub open spec fn bytes_only_spec() -> TruncationOptions {
    TruncationOptions { max_lines: Some(usize::MAX), max_bytes: None }
}

fn grep_line_exec(rel: &str, cur: usize, is_match: bool, t: &str) -> (r: String)
    ensures
        r@ == grep_line(rel@, cur as int, is_match, t@),
{
    let mut v = chars_of(rel);
    push_str(&mut v, if is_match { ":" } else { "-" });
    push_all(&mut v, &decimal(cur as u64));
    push_str(&mut v, if is_match { ": " } else { "- " });
    push_str(&mut v, t);
    string_of(&v)
}

/// The report lines of one match (appended to `out`), and whether one of
/// them was cut.
fn block_exec(out: &mut Vec<String>, m: &GrepMatch, lines: &Vec<String>, context: usize) -> (r: bool)
    requires
        m.line_number < usize::MAX,
        lines@.len() < usize::MAX,
    ensures
        texts(final(out)@) == texts(old(out)@) + block_spec(m.path@, m.line_number as int, texts(lines@), context as int).0,
        r == block_spec(m.path@, m.line_number as int, texts(lines@), context as int).1,
{
    let ghost ls = texts(lines@);
    let ghost out0 = texts(out@);
    let n = m.line_number;
    let rel = m.path.as_str();
    if lines.len() == 0 {
        let mut v = chars_of(rel);
        push_str(&mut v, ":");
        push_all(&mut v, &decimal(n as u64));
        push_str(&mut v, ": (unable to read file)");
        out.push(string_of(&v));
        assert(texts(out@) =~= out0 + seq![rel@ + ":"@ + decimal_spec(n as nat) + ": (unable to read file)"@]);
        return false;
    }
    let len = lines.len();
    let (start, end) = if context > 0 {
        let s = if n <= context || n - context < 1 {
            1
        } else {
            n - context
        };
        let e = if n >= len {
            len
        } else if context < len - n {
            n + context
        } else {
            len
        };
        (s, e)
    } else {
        (n, n)
    };
    assert((start as int, end as int) == window(n as int, len as int, context as int));
    let mut cut = false;
    let mut cur = start;
    assert(texts(out@) =~= out0 + block_upto(rel@, n as int, ls, start as int, start as int));
    if start <= end && end < usize::MAX {
        while cur <= end
            invariant
                start <= cur <= end + 1,
                end < usize::MAX,
                ls == texts(lines@),
                lines@.len() == len,
                texts(out@) == out0 + block_upto(rel@, n as int, ls, start as int, cur as int),
                cut == long_upto(ls, start as int, cur as int),
            decreases end + 1 - cur,
        {
            let text: &str = if 1 <= cur && cur <= len {
                lines[cur - 1].as_str()
            } else {
                ""
            };
            proof {
                reveal_strlit("");
            }
            assert(text@ == line_at(ls, cur as int));
            let (t, was) = truncate_line(text, GREP_MAX_LINE_LENGTH);
            assert(t@ == shown(line_at(ls, cur as int)));
            let ghost before = texts(out@);
            out.push(grep_line_exec(rel, cur, cur == n, t.as_str()));
            assert(texts(out@) =~= before.push(grep_line(rel@, cur as int, cur == n, shown(line_at(ls, cur as int)))));
            if was {
                cut = true;
            }
            proof {
                if was {
                    assert(start <= cur < cur + 1 && line_at(ls, cur as int).len() > GREP_MAX_LINE_LENGTH);
                }
                if long_upto(ls, start as int, cur + 1) && !was {
                    let c = choose|c: int| start <= c < cur + 1 && line_at(ls, c).len() > GREP_MAX_LINE_LENGTH;
                    assert(c < cur);
                }
            }
            cur += 1;
        }
        assert(texts(out@) == out0 + block_upto(rel@, n as int, ls, start as int, end + 1));
        assert(cut == long_upto(ls, start as int, end + 1));
    } else {
        assert(block_upto(rel@, n as int, ls, start as int, end + 1) =~= Seq::<Seq<char>>::empty());
        assert(block_upto(rel@, n as int, ls, start as int, start as int) =~= Seq::<Seq<char>>::empty());
        assert(!long_upto(ls, start as int, end + 1));
        assert(texts(out@) =~= out0 + block_upto(rel@, n as int, ls, start as int, end + 1));
    }
    assert(ls.len() == len);
    assert(rel@ == m.path@);
    assert(texts(out@) == out0 + block_spec(m.path@, m.line_number as int, texts(lines@), context as int).0);
    cut
}

/// The text of the report for `matches` (each with its file's lines, none
/// when the file could not be read), the lines of `context` around each,
/// and the notices: the match limit, the byte limit, cut lines.
pub fn grep_output(
    matches: &Vec<GrepMatch>,
    file_lines: &Vec<Vec<String>>,
    context: usize,
    limit: usize,
    limit_reached: bool,
) -> (r: GrepOutput)
    requires
        matches@.len() == file_lines@.len(),
        limit <= usize::MAX / 2,
        forall|i: int| 0 <= i < matches@.len() ==> #[trigger] matches@[i].line_number < usize::MAX,
        forall|i: int| 0 <= i < file_lines@.len() ==> #[trigger] file_lines@[i]@.len() < usize::MAX,
    ensures
        matches@.len() == 0 ==> r.text@ == "No matches found"@ && r.match_limit is None && r.truncation is None,
        matches@.len() > 0 ==> exists|t: TruncationResult|
            #[trigger] head_truncation(
                join_spec(blocks_upto(matches@, file_lines@, context as int, matches@.len() as int).0, "\n"@),
                bytes_only_spec(),
                t,
            ) && r.text@ == with_notices(
                t.content@,
                notices_spec(
                    limit_reached,
                    limit,
                    t.truncated,
                    blocks_upto(matches@, file_lines@, context as int, matches@.len() as int).1,
                ),
            ) && r.match_limit == (if limit_reached {
                Some(limit)
            } else {
                None
            }) && (r.truncation matches Some(tr) ==> t.truncated && tr == t) && (r.truncation is None ==> !t.truncated),
{
    if matches.len() == 0 {
        return GrepOutput { text: to_string("No matches found"), match_limit: None, truncation: None };
    }
    let mut out: Vec<String> = Vec::new();
    let mut cut = false;
    let mut k: usize = 0;
    assert(texts(out@) =~= blocks_upto(matches@, file_lines@, context as int, 0).0);
    while k < matches.len()
        invariant
            matches@.len() == file_lines@.len(),
            forall|i: int| 0 <= i < matches@.len() ==> #[trigger] matches@[i].line_number < usize::MAX,
            forall|i: int| 0 <= i < file_lines@.len() ==> #[trigger] file_lines@[i]@.len() < usize::MAX,
            k <= matches@.len(),
            texts(out@) == blocks_upto(matches@, file_lines@, context as int, k as int).0,
            cut == blocks_upto(matches@, file_lines@, context as int, k as int).1,
        decreases matches.len() - k,
    {
        let c = block_exec(&mut out, &matches[k], &file_lines[k], context);
        if c {
            cut = true;
        }
        k += 1;
    }
    let nl = ['\n'];
    assert(nl@ == "\n"@) by {
        reveal_strlit("\n");
    }
    let mut parts: Vec<Vec<char>> = Vec::new();
    let mut i: usize = 0;
    while i < out.len()
        invariant
            i <= out@.len(),
            parts@.len() == i,
            forall|j: int| 0 <= j < i ==> #[trigger] parts@[j]@ == out@[j]@,
        decreases out.len() - i,
    {
        parts.push(chars_of(out[i].as_str()));
        i += 1;
    }
    assert(parts@.map_values(|p: Vec<char>| p@) =~= texts(out@));
    let raw = string_of(&join(&parts, &nl));
    let opts = TruncationOptions::bytes_only();
    let truncation = truncate_head(raw.as_str(), opts);
    let mut notices: Vec<String> = Vec::new();
    let ghost n0 = texts(notices@);
    if limit_reached {
        let mut v = decimal(limit as u64);
        push_str(&mut v, " matches limit reached. Use limit=");
        push_all(&mut v, &decimal((limit * 2) as u64));
        push_str(&mut v, " for more, or refine pattern");
        notices.push(string_of(&v));
    }
    if truncation.truncated {
        let mut v = chars_of(format_size(DEFAULT_MAX_BYTES).as_str());
        push_str(&mut v, " limit reached");
        notices.push(string_of(&v));
    }
    if cut {
        notices.push(to_string("Some lines truncated to 500 chars. Use read tool to see full lines"));
    }
    assert(texts(notices@) =~= notices_spec(limit_reached, limit, truncation.truncated, cut));
    let mut text = chars_of(truncation.content.as_str());
    if notices.len() > 0 {
        let mut np: Vec<Vec<char>> = Vec::new();
        let mut j: usize = 0;
        while j < notices.len()
            invariant
                j <= notices@.len(),
                np@.len() == j,
                forall|q: int| 0 <= q < j ==> #[trigger] np@[q]@ == notices@[q]@,
            decreases notices.len() - j,
        {
            np.push(chars_of(notices[j].as_str()));
            j += 1;
        }
        assert(np@.map_values(|p: Vec<char>| p@) =~= texts(notices@));
        let sep = chars_of(". ");
        push_str(&mut text, "\n\n[");
        push_all(&mut text, &join(&np, &sep));
        push_str(&mut text, "]");
    }
    let match_limit = if limit_reached {
        Some(limit)
    } else {
        None
    };
    let truncated = truncation.truncated;
    let tr = if truncated {
        Some(truncation)
    } else {
        None
    };
    GrepOutput { text: string_of(&text), match_limit, truncation: tr }
}

/// The report lines for lines `start..cur` are one per line, in order.
proof fn lemma_block_upto_lines(rel: Seq<char>, n: int, lines: Seq<Seq<char>>, start: int, cur: int)
    requires
        start <= cur,
    ensures
        block_upto(rel, n, lines, start, cur).len() == cur - start,
        forall|j: int|
            0 <= j < cur - start ==> #[trigger] block_upto(rel, n, lines, start, cur)[j] == grep_line(
                rel,
                start + j,
                start + j == n,
                shown(line_at(lines, start + j)),
            ),
    decreases cur - start,
{
    if cur > start {
        lemma_block_upto_lines(rel, n, lines, start, cur - 1);
    }
}

/// The block of a match on line `n` of a file of `L` lines reports exactly
/// the lines `max(1, n - context)` through `min(L, n + context)` (just line
/// `n` without context), one report line each and in order: the match line
/// as `path:n: text`, every other as `path-i- text`, each text cut to the
/// line-length limit.
pub proof fn lemma_block_shows_context(rel: Seq<char>, n: int, lines: Seq<Seq<char>>, context: int)
    requires
        context >= 0,
        1 <= n <= lines.len(),
    ensures
        ({
            let first = if n - context >= 1 {
                n - context
            } else {
                1
            };
            let last = if n + context <= lines.len() {
                n + context
            } else {
                lines.len() as int
            };
            let b = block_spec(rel, n, lines, context).0;
            &&& b.len() == last - first + 1
            &&& forall|j: int|
                0 <= j < b.len() ==> #[trigger] b[j] == grep_line(
                    rel,
                    first + j,
                    first + j == n,
                    shown(lines[first + j - 1]),
                )
        }),
{
    let (s, e) = window(n, lines.len() as int, context);
    lemma_block_upto_lines(rel, n, lines, s, e + 1);
}

} // verus!
