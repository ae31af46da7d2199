//! What the read tool shows of a text file: the requested line window,
//! head-truncated, with a note telling the model how to continue.

use vstd::prelude::*;
use crate::text::{
    bytes_len, chars_of, decimal, decimal_spec, join, join_spec, push_all, push_str, split_char, split_spec,
    str_bytes_len, string_of, views,
};
use crate::truncate::{
    format_size, format_size_spec, head_truncation, truncate_head, TruncatedBy, TruncationOptions,
    TruncationResult, DEFAULT_MAX_BYTES,
};

verus! {

pub const READ_SNIPPET: &'static str = "Read file contents";

/// The 0-based first line of the window.
pub open spec fn start_line(offset: Option<usize>) -> int {
    match offset {
        Some(o) => if o >= 1 { o - 1 } else { 0 },
        None => 0,
    }
}

/// The end (exclusive) of the window over `total` lines.
pub open spec fn end_line(start: int, limit: Option<usize>, total: int) -> int {
    match limit {
        Some(l) => if start + l < total { start + l } else { total },
        None => total,
    }
}

#[verifier::opaque]
pub open spec fn window(content: Seq<char>, offset: Option<usize>, limit: Option<usize>) -> Seq<char> {
    let lines = split_spec(content, '\n');
    let s = start_line(offset);
    join_spec(lines.subrange(s, end_line(s, limit, lines.len() as int)), seq!['\n'])
}

pub open spec fn default_options() -> TruncationOptions {
    TruncationOptions { max_lines: None, max_bytes: None }
}

pub open spec fn num(n: int) -> Seq<char> {
    decimal_spec(n as nat)
}

pub open spec fn too_long_note(sd: int, first_line_bytes: nat, path: Seq<char>) -> Seq<char> {
    "[Line "@ + num(sd) + " is "@ + format_size_spec(first_line_bytes) + ", exceeds "@ + format_size_spec(
        DEFAULT_MAX_BYTES as nat,
    ) + " limit. Use bash: sed -n '"@ + num(sd) + "p' "@ + path + " | head -c "@ + num(DEFAULT_MAX_BYTES as int)
        + "]"@
}

pub open spec fn showing_note(text: Seq<char>, sd: int, ed: int, total: int, by_lines: bool) -> Seq<char> {
    text + if by_lines {
        "\n\n[Showing lines "@ + num(sd) + "-"@ + num(ed) + " of "@ + num(total) + ". Use offset="@ + num(ed + 1)
            + " to continue.]"@
    } else {
        "\n\n[Showing lines "@ + num(sd) + "-"@ + num(ed) + " of "@ + num(total) + " ("@ + format_size_spec(
            DEFAULT_MAX_BYTES as nat,
        ) + " limit). Use offset="@ + num(ed + 1) + " to continue.]"@
    }
}

pub open spec fn more_note(text: Seq<char>, remaining: int, next: int) -> Seq<char> {
    text + "\n\n["@ + num(remaining) + " more lines in file. Use offset="@ + num(next) + " to continue.]"@
}

/// What is shown for the window, given its head truncation `t`, and
/// whether the truncation details go along.
#[verifier::opaque]
pub open spec fn read_output(content: Seq<char>, path: Seq<char>, offset: Option<usize>, limit: Option<usize>, t: TruncationResult) -> (Seq<char>, bool) {
    let lines = split_spec(content, '\n');
    let total = lines.len() as int;
    let s = start_line(offset);
    let sd = s + 1;
    if t.first_line_exceeds_limit {
        (too_long_note(sd, bytes_len(lines[s]), path), true)
    } else if t.truncated {
        (showing_note(t.content@, sd, sd + t.output_lines - 1, total, t.truncated_by == Some(TruncatedBy::Lines)), true)
    } else {
        let e = end_line(s, limit, total);
        if limit is Some && e < total {
            (more_note(t.content@, total - e, e + 1), false)
        } else {
            (t.content@, false)
        }
    }
}

fn too_long_msg(sd: usize, first_line_bytes: usize, path: &str) -> (r: String)
    ensures
        r@ == too_long_note(sd as int, first_line_bytes as nat, path@),
{
    let mut m = chars_of("[Line ");
    push_all(&mut m, &decimal(sd as u64));
    push_str(&mut m, " is ");
    push_str(&mut m, format_size(first_line_bytes).as_str());
    push_str(&mut m, ", exceeds ");
    push_str(&mut m, format_size(DEFAULT_MAX_BYTES).as_str());
    push_str(&mut m, " limit. Use bash: sed -n '");
    push_all(&mut m, &decimal(sd as u64));
    push_str(&mut m, "p' ");
    push_str(&mut m, path);
    push_str(&mut m, " | head -c ");
    push_all(&mut m, &decimal(DEFAULT_MAX_BYTES as u64));
    push_str(&mut m, "]");
    assert(m@ =~= too_long_note(sd as int, first_line_bytes as nat, path@));
    string_of(&m)
}

#[verifier::rlimit(40)]
fn showing_msg(text: &str, sd: usize, ed: usize, total: usize, by_lines: bool) -> (r: String)
    requires
        ed < usize::MAX,
    ensures
        r@ == showing_note(text@, sd as int, ed as int, total as int, by_lines),
{
    let mut m = chars_of(text);
    push_str(&mut m, "\n\n[Showing lines ");
    push_all(&mut m, &decimal(sd as u64));
    push_str(&mut m, "-");
    push_all(&mut m, &decimal(ed as u64));
    push_str(&mut m, " of ");
    push_all(&mut m, &decimal(total as u64));
    if by_lines {
        push_str(&mut m, ". Use offset=");
    } else {
        push_str(&mut m, " (");
        push_str(&mut m, format_size(DEFAULT_MAX_BYTES).as_str());
        push_str(&mut m, " limit). Use offset=");
    }
    push_all(&mut m, &decimal((ed + 1) as u64));
    push_str(&mut m, " to continue.]");
    assert(m@ =~= showing_note(text@, sd as int, ed as int, total as int, by_lines));
    string_of(&m)
}

fn more_msg(text: &str, remaining: usize, next: usize) -> (r: String)
    ensures
        r@ == more_note(text@, remaining as int, next as int),
{
    let mut m = chars_of(text);
    push_str(&mut m, "\n\n[");
    push_all(&mut m, &decimal(remaining as u64));
    push_str(&mut m, " more lines in file. Use offset=");
    push_all(&mut m, &decimal(next as u64));
    push_str(&mut m, " to continue.]");
    assert(m@ =~= more_note(text@, remaining as int, next as int));
    string_of(&m)
}

fn offset_msg(shown: usize, total: usize) -> (r: String)
    ensures
        r@ == "Offset "@ + num(shown as int) + " is beyond end of file ("@ + num(total as int) + " lines total)"@,
{
    let mut m = chars_of("Offset ");
    push_all(&mut m, &decimal(shown as u64));
    push_str(&mut m, " is beyond end of file (");
    push_all(&mut m, &decimal(total as u64));
    push_str(&mut m, " lines total)");
    assert(m@ =~= "Offset "@ + num(shown as int) + " is beyond end of file ("@ + num(total as int) + " lines total)"@);
    string_of(&m)
}

fn window_text(lines: &Vec<Vec<char>>, start: usize, end: usize) -> (r: String)
    requires
        start <= end <= lines@.len(),
    ensures
        r@ == join_spec(views(lines@).subrange(start as int, end as int), seq!['\n']),
{
    let ghost lv = views(lines@);
    let mut sel: Vec<Vec<char>> = Vec::new();
    let mut i = start;
    assert(views(sel@) =~= lv.subrange(start as int, start as int));
    while i < end
        invariant
            start <= i <= end <= lines@.len(),
            lv == views(lines@),
            views(sel@) == lv.subrange(start as int, i as int),
        decreases end - i,
    {
        let c = crate::text::slice_of(&lines[i], 0, lines[i].len());
        assert(c@ =~= lv[i as int]);
        let ghost before = views(sel@);
        sel.push(c);
        assert(views(sel@) =~= before.push(c@));
        assert(lv.subrange(start as int, i + 1) =~= lv.subrange(start as int, i as int).push(lv[i as int]));
        i += 1;
    }
    let nl = ['\n'];
    assert(nl@ == seq!['\n']);
    string_of(&join(&sel, &nl))
}

pub open spec fn offset_error(content: Seq<char>, offset: Option<usize>) -> Option<Seq<char>> {
    let total = split_spec(content, '\n').len() as int;
    if start_line(offset) >= total {
        Some("Offset "@ + num(match offset { Some(o) => o as int, None => 0 }) + " is beyond end of file ("@ + num(total)
            + " lines total)"@)
    } else {
        None
    }
}

proof fn lemma_split_count(s: Seq<char>, c: char)
    ensures
        split_spec(s, c).len() <= s.len() + 1,
    decreases s.len(),
{
    if s.len() > 0 {
        lemma_split_count(s.drop_last(), c);
        crate::text::lemma_split_len(s.drop_last(), c);
    }
}

/// The text shown for lines `offset..` (1-based, at most `limit` of them)
/// of `content`, head-truncated, and the truncation when it matters.
pub fn read_text_file(content: &str, path: &str, offset: Option<usize>, limit: Option<usize>) -> (r: Result<(String, Option<TruncationResult>), String>)
    requires
        content@.len() <= usize::MAX / 2,
        limit matches Some(l) ==> start_line(offset) + l <= usize::MAX,
    ensures
        match r {
            Err(e) => offset_error(content@, offset) == Some(e@),
            Ok(out) => offset_error(content@, offset) is None && exists|t: TruncationResult|
                #[trigger] head_truncation(window(content@, offset, limit), default_options(), t) && read_output(
                    content@,
                    path@,
                    offset,
                    limit,
                    t,
                ) == (out.0@, out.1 is Some) && (out.1 matches Some(d) ==> d == t),
        },
{
    let lines = split_char(&chars_of(content), '\n');
    let ghost lv = views(lines@);
    proof {
        lemma_split_count(content@, '\n');
    }
    let total = lines.len();
    let start = match offset {
        Some(o) => if o >= 1 {
            o - 1
        } else {
            0
        },
        None => 0,
    };
    if start >= total {
        let shown = match offset {
            Some(o) => o,
            None => 0,
        };
        return Err(offset_msg(shown, total));
    }
    let end = match limit {
        Some(l) => if start + l < total {
            start + l
        } else {
            total
        },
        None => total,
    };
    let selected = window_text(&lines, start, end);
    assert(selected@ == window(content@, offset, limit)) by {
        reveal(window);
    }
    let t = truncate_head(selected.as_str(), TruncationOptions { max_lines: None, max_bytes: None });
    let sd = start + 1;
    if t.first_line_exceeds_limit {
        let fb = str_bytes_len(string_of(&lines[start]).as_str());
        assert(lines@[start as int]@ == lv[start as int]);
        let m = too_long_msg(sd, fb, path);
        assert(read_output(content@, path@, offset, limit, t) == (m@, true)) by {
            reveal(read_output);
        }
        return Ok((m, Some(t)));
    }
    if t.truncated {
        assert(t.output_lines <= 2000) by {
            reveal(head_truncation);
        }
        let ed = sd + t.output_lines - 1;
        let by_lines = match t.truncated_by {
            Some(TruncatedBy::Lines) => true,
            _ => false,
        };
        let m = showing_msg(t.content.as_str(), sd, ed, total, by_lines);
        assert(read_output(content@, path@, offset, limit, t) == (m@, true)) by {
            reveal(read_output);
        }
        return Ok((m, Some(t)));
    }
    if limit.is_some() && end < total {
        let m = more_msg(t.content.as_str(), total - end, end + 1);
        assert(read_output(content@, path@, offset, limit, t) == (m@, false)) by {
            reveal(read_output);
        }
        return Ok((m, None));
    }
    assert(read_output(content@, path@, offset, limit, t) == (t.content@, false)) by {
        reveal(read_output);
    }
    Ok((t.content, None))
}


/// The first `k` lines of a window of `content` with `k` no more than
/// the window's line count are the file's lines from the window start on.
proof fn lemma_window_head(content: Seq<char>, offset: Option<usize>, limit: Option<usize>, k: int)
    requires
        offset_error(content, offset) is None,
        0 <= k <= crate::text::lines_spec(window(content, offset, limit)).len(),
    ensures
        ({
            let lines = split_spec(content, '\n');
            let s = start_line(offset);
            &&& s + k <= lines.len()
            &&& crate::text::lines_spec(window(content, offset, limit)).take(k) == lines.subrange(s, s + k)
        }),
{
    reveal(window);
    let lines = split_spec(content, '\n');
    let s = start_line(offset);
    let e = end_line(s, limit, lines.len() as int);
    let parts = lines.subrange(s, e);
    let w = window(content, offset, limit);
    if parts.len() == 0 {
        assert(w == Seq::<char>::empty());
    } else {
        crate::edit_laws::lemma_split_parts(content, '\n');
        assert forall|i: int| 0 <= i < parts.len() implies !(#[trigger] parts[i]).contains('\n') by {
            assert(parts[i] == lines[s + i]);
        }
        crate::edit_laws::lemma_split_join(parts, '\n');
        let ls = crate::text::lines_spec(w);
        assert(ls.take(k) =~= parts.take(k));
        assert(parts.take(k) =~= lines.subrange(s, s + k));
    }
}

/// When the window is cut, the text shown is exactly the file's lines
/// `first..=last` (1-based), where `first` is the requested offset (1 when
/// there is none) and `last` is `first + output_lines - 1`; the note after
/// it names that range, and ends by offering `last + 1`, the first line not
/// shown, as the offset to continue from.
pub proof fn lemma_cut_window_names_shown_lines(
    content: Seq<char>,
    path: Seq<char>,
    offset: Option<usize>,
    limit: Option<usize>,
    t: TruncationResult,
)
    requires
        offset_error(content, offset) is None,
        head_truncation(window(content, offset, limit), default_options(), t),
        t.truncated,
        !t.first_line_exceeds_limit,
    ensures
        ({
            let lines = split_spec(content, '\n');
            let first: int = match offset {
                Some(o) => if o >= 1 {
                    o as int
                } else {
                    1
                },
                None => 1,
            };
            let last = first + t.output_lines - 1;
            let out = read_output(content, path, offset, limit, t).0;
            &&& first <= last + 1 <= lines.len() + 1
            &&& t.content@ == join_spec(lines.subrange(first - 1, last), seq!['\n'])
            &&& (t.content@ + "\n\n[Showing lines "@ + num(first) + "-"@ + num(last) + " of "@ + num(
                lines.len() as int,
            )).is_prefix_of(out)
            &&& ("Use offset="@ + num(last + 1) + " to continue.]"@).is_suffix_of(out)
        }),
{
    let w = window(content, offset, limit);
    let k = t.output_lines as int;
    assert(k <= crate::text::lines_spec(w).len() && t.content@ == join_spec(
        crate::text::lines_spec(w).take(k),
        seq!['\n'],
    )) by {
        reveal(head_truncation);
        if w.len() > 0 {
            crate::text::lemma_split_len(w, '\n');
            crate::text::lemma_split_len(w.drop_last(), '\n');
        } else {
            assert(bytes_len(w) == 0);
        }
    }
    lemma_window_head(content, offset, limit, k);
    let lines = split_spec(content, '\n');
    let s = start_line(offset);
    let by_lines = t.truncated_by == Some(TruncatedBy::Lines);
    assert(read_output(content, path, offset, limit, t).0 == showing_note(
        t.content@,
        s + 1,
        s + k,
        lines.len() as int,
        by_lines,
    )) by {
        reveal(read_output);
    }
    lemma_showing_note_shape(t.content@, s + 1, s + k, lines.len() as int, by_lines);
    assert(lines.subrange(s, s + k) == lines.subrange((s + 1) - 1, s + 1 + k - 1));
}

/// A showing note names the range and, at its end, the next offset.
proof fn lemma_showing_note_shape(text: Seq<char>, sd: int, ed: int, total: int, by_lines: bool)
    ensures
        (text + "\n\n[Showing lines "@ + num(sd) + "-"@ + num(ed) + " of "@ + num(total)).is_prefix_of(
            showing_note(text, sd, ed, total, by_lines),
        ),
        ("Use offset="@ + num(ed + 1) + " to continue.]"@).is_suffix_of(showing_note(text, sd, ed, total, by_lines)),
{
    let out = showing_note(text, sd, ed, total, by_lines);
    let head = text + "\n\n[Showing lines "@ + num(sd) + "-"@ + num(ed) + " of "@ + num(total);
    let tail = "Use offset="@ + num(ed + 1) + " to continue.]"@;
    reveal_strlit(". Use offset=");
    reveal_strlit(" limit). Use offset=");
    reveal_strlit("Use offset=");
    if by_lines {
        let mid = "."@ + " "@;
        assert(". Use offset="@ =~= mid + "Use offset="@) by {
            reveal_strlit(".");
            reveal_strlit(" ");
        }
        assert(out =~= head + mid + tail);
    } else {
        let mid = " ("@ + format_size_spec(DEFAULT_MAX_BYTES as nat) + " limit). "@;
        assert(" limit). Use offset="@ =~= " limit). "@ + "Use offset="@) by {
            reveal_strlit(" limit). ");
        }
        assert(out =~= head + mid + tail);
    }
}

/// When the window fits and a limit stops it before the end of the file,
/// the output is the file's lines `first..first + limit - 1` (1-based)
/// followed by a note giving how many lines remain after them and the
/// first of those as the offset to continue from.
pub proof fn lemma_limited_window_counts_rest(
    content: Seq<char>,
    path: Seq<char>,
    offset: Option<usize>,
    l: usize,
    t: TruncationResult,
)
    requires
        offset_error(content, offset) is None,
        head_truncation(window(content, offset, Some(l)), default_options(), t),
        !t.truncated,
        start_line(offset) + l < split_spec(content, '\n').len(),
    ensures
        ({
            let lines = split_spec(content, '\n');
            let first: int = match offset {
                Some(o) => if o >= 1 {
                    o as int
                } else {
                    1
                },
                None => 1,
            };
            let next = first + l;
            read_output(content, path, offset, Some(l), t).0 == join_spec(lines.subrange(first - 1, next - 1), seq!['\n'])
                + "\n\n["@ + num(lines.len() - (next - 1)) + " more lines in file. Use offset="@ + num(next)
                + " to continue.]"@
        }),
{
    reveal(head_truncation);
    reveal(window);
    reveal(read_output);
    let lines = split_spec(content, '\n');
    let s = start_line(offset);
    assert(t.content@ == window(content, offset, Some(l)));
    assert(lines.subrange(s, s + l) == lines.subrange(s + 1 - 1, s + 1 + l - 1));
}

} // verus!
