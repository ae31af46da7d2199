//! Line diffs of an edit: a unified patch, and the numbered, context-limited
//! rendering shown to the model.
//!
//! The diff itself (which lines are kept, inserted or deleted) comes from
//! the `similar` crate; the rendering is this library's.

use vstd::prelude::*;
use crate::text::{chars_of, decimal, decimal_spec, join, join_spec, push_all, split_spec, string_of, views};

verus! {

/// The line changes `similar::TextDiff::from_lines(old, new)` yields, in
/// order: a tag (0 kept, 1 inserted, 2 deleted) and the line's text with
/// its line ending.
pub uninterp spec fn line_changes(old: Seq<char>, new: Seq<char>) -> Seq<(u8, Seq<char>)>;

/// The unified patch `similar` renders for `old` to `new` with the given
/// context radius and `path` as both headers.
pub uninterp spec fn unified_patch(path: Seq<char>, old: Seq<char>, new: Seq<char>, context: usize) -> Seq<char>;

pub open spec fn change_views(v: Seq<(u8, String)>) -> Seq<(u8, Seq<char>)> {
    v.map_values(|c: (u8, String)| (c.0, c.1@))
}

/// `TextDiff::from_lines(old, new).iter_all_changes()`, each change as its
/// tag and text.
#[verifier::external_body]
fn diff_line_changes(old: &str, new: &str) -> (r: Vec<(u8, String)>)
    ensures
        change_views(r@) == line_changes(old@, new@),
{
    similar::TextDiff::from_lines(old, new).iter_all_changes().map(|c| {
        let tag: u8 = match c.tag() {
            similar::ChangeTag::Equal => 0,
            similar::ChangeTag::Insert => 1,
            similar::ChangeTag::Delete => 2,
        };
        (tag, c.value().to_string())
    }).collect()
}

/// A unified patch of `old_content` to `new_content` with `path` in both
/// headers (`similar`'s `unified_diff`).
#[verifier::external_body]
pub fn generate_unified_patch(path: &str, old_content: &str, new_content: &str, context_lines: usize) -> (r: String)
    requires
        context_lines <= usize::MAX / 2,
    ensures
        r@ == unified_patch(path@, old_content@, new_content@, context_lines),
{
    similar::TextDiff::from_lines(old_content, new_content).unified_diff().context_radius(context_lines).header(
        path,
        path,
    ).to_string()
}

#[derive(Debug, Clone, PartialEq, Eq)]
pub struct DiffString {
    pub diff: String,
    /// Line number of the first change in the new file.
    pub first_changed_line: Option<usize>,
}

/// `s` without trailing newlines.
pub open spec fn trim_newlines(s: Seq<char>) -> Seq<char>
    decreases s.len(),
{
    if s.len() > 0 && s.last() == '\n' {
        trim_newlines(s.drop_last())
    } else {
        s
    }
}

/// The changes grouped into runs of one tag, each line without its
/// newline, over the first `k` changes.
pub open spec fn group_changes(ch: Seq<(u8, Seq<char>)>, k: int) -> Seq<(u8, Seq<Seq<char>>)>
    decreases k,
{
    if k <= 0 {
        Seq::empty()
    } else {
        let prev = group_changes(ch, k - 1);
        let line = trim_newlines(ch[k - 1].1);
        if prev.len() > 0 && prev.last().0 == ch[k - 1].0 {
            prev.update(prev.len() - 1, (prev.last().0, prev.last().1.push(line)))
        } else {
            prev.push((ch[k - 1].0, seq![line]))
        }
    }
}

pub open spec fn spaces(n: int) -> Seq<char> {
    Seq::new(if n > 0 { n as nat } else { 0 }, |i: int| ' ')
}

/// `n` right-aligned in `width` columns.
pub open spec fn num_spec(n: int, width: int) -> Seq<char> {
    let d = decimal_spec(n as nat);
    spaces(width - d.len()) + d
}

/// Each line prefixed by `mark`, its number (counting from `start`) and a
/// space.
pub open spec fn numbered(mark: char, lines: Seq<Seq<char>>, start: int, width: int) -> Seq<Seq<char>> {
    Seq::new(lines.len(), |j: int| seq![mark] + num_spec(start + j, width) + seq![' '] + lines[j])
}

/// The line standing for skipped context.
pub open spec fn marker(width: int) -> Seq<char> {
    seq![' '] + spaces(width) + " ..."@
}

/// Rendering state: next old and new line numbers, whether the previous
/// run was a change, the first changed line, and the lines so far.
pub type DiffState = (int, int, bool, Option<int>, Seq<Seq<char>>);

pub open spec fn render_step(st: DiffState, tag: u8, lines: Seq<Seq<char>>, next_is_change: bool, c: int, w: int) -> DiffState {
    let (old, new, last, first, out) = st;
    let n = lines.len() as int;
    if tag != 0 {
        let f = if first is None { Some(new) } else { first };
        if tag == 1 {
            (old, new + n, true, f, out + numbered('+', lines, new, w))
        } else {
            (old + n, new, true, f, out + numbered('-', lines, old, w))
        }
    } else if last && next_is_change {
        if n <= 2 * c {
            (old + n, new + n, false, first, out + numbered(' ', lines, old, w))
        } else {
            (old + n, new + n, false, first, out + numbered(' ', lines.take(c), old, w) + seq![marker(w)]
                + numbered(' ', lines.skip(n - c), old + n - c, w))
        }
    } else if last {
        let shown = if n < c { n } else { c };
        (old + n, new + n, false, first, out + numbered(' ', lines.take(shown), old, w) + if n - shown > 0 {
            seq![marker(w)]
        } else {
            Seq::empty()
        })
    } else if next_is_change {
        let skipped = if n > c { n - c } else { 0 };
        (old + n, new + n, false, first, out + (if skipped > 0 {
            seq![marker(w)]
        } else {
            Seq::empty()
        }) + numbered(' ', lines.skip(skipped), old + skipped, w))
    } else {
        (old + n, new + n, false, first, out)
    }
}

/// The state after rendering the first `k` runs.
pub open spec fn render_runs(parts: Seq<(u8, Seq<Seq<char>>)>, k: int, c: int, w: int) -> DiffState
    decreases k,
{
    if k <= 0 {
        (1, 1, false, None, Seq::empty())
    } else {
        render_step(
            render_runs(parts, k - 1, c, w),
            parts[k - 1].0,
            parts[k - 1].1,
            k < parts.len() && parts[k].0 != 0,
            c,
            w,
        )
    }
}

/// The rendering of a list of changes: `old_lines` and `new_lines` count
/// the `\n`-separated pieces of the two texts (they set the number width).
pub open spec fn diff_render_spec(ch: Seq<(u8, Seq<char>)>, old_lines: int, new_lines: int, c: int) -> (Seq<char>, Option<int>) {
    let w = decimal_spec((if old_lines > new_lines { old_lines } else { new_lines }) as nat).len() as int;
    let parts = group_changes(ch, ch.len() as int);
    let st = render_runs(parts, parts.len() as int, c, w);
    (join_spec(st.4, seq!['\n']), st.3)
}

fn trim_newlines_exec(v: &[char]) -> (r: Vec<char>)
    ensures
        r@ == trim_newlines(v@),
{
    let mut e = v.len();
    assert(v@.take(e as int) =~= v@);
    while e > 0 && v[e - 1] == '\n'
        invariant
            e <= v@.len(),
            trim_newlines(v@) == trim_newlines(v@.take(e as int)),
        decreases e,
    {
        assert(v@.take(e as int).drop_last() =~= v@.take(e - 1));
        e -= 1;
    }
    let r = crate::text::slice_of(v, 0, e);
    assert(r@ =~= v@.take(e as int));
    r
}

pub open spec fn run_views(p: Seq<(u8, Vec<Vec<char>>)>) -> Seq<(u8, Seq<Seq<char>>)> {
    p.map_values(|x: (u8, Vec<Vec<char>>)| (x.0, views(x.1@)))
}

fn group_exec(changes: &Vec<(u8, String)>) -> (r: Vec<(u8, Vec<Vec<char>>)>)
    ensures
        run_views(r@) == group_changes(change_views(changes@), changes@.len() as int),
{
    let ghost ch = change_views(changes@);
    let mut parts: Vec<(u8, Vec<Vec<char>>)> = Vec::new();
    let mut i: usize = 0;
    assert(run_views(parts@) =~= Seq::<(u8, Seq<Seq<char>>)>::empty());
    while i < changes.len()
        invariant
            i <= changes@.len(),
            ch == change_views(changes@),
            run_views(parts@) == group_changes(ch, i as int),
        decreases changes.len() - i,
    {
        let tag = changes[i].0;
        let line = trim_newlines_exec(&chars_of(changes[i].1.as_str()));
        assert(ch[i as int] == (tag, changes@[i as int].1@));
        let ghost before = run_views(parts@);
        let np = parts.len();
        if np > 0 && parts[np - 1].0 == tag {
            let mut last = parts.pop().unwrap();
            let ghost lv = views(last.1@);
            last.1.push(line);
            assert(views(last.1@) =~= lv.push(line@));
            parts.push(last);
            assert(run_views(parts@) =~= before.update(before.len() - 1, (before.last().0, before.last().1.push(line@))));
        } else {
            let mut v: Vec<Vec<char>> = Vec::new();
            v.push(line);
            assert(views(v@) =~= seq![line@]);
            parts.push((tag, v));
            assert(run_views(parts@) =~= before.push((tag, seq![line@])));
        }
        i += 1;
    }
    parts
}


/// Lines in all runs.
pub open spec fn run_lines(p: Seq<(u8, Seq<Seq<char>>)>) -> int
    decreases p.len(),
{
    if p.len() == 0 {
        0
    } else {
        run_lines(p.drop_last()) + p.last().1.len()
    }
}

proof fn lemma_group_lines(ch: Seq<(u8, Seq<char>)>, k: int)
    requires
        0 <= k <= ch.len(),
    ensures
        run_lines(group_changes(ch, k)) == k,
        forall|j: int| 0 <= j < group_changes(ch, k).len() ==> #[trigger] group_changes(ch, k)[j].1.len() > 0,
    decreases k,
{
    if k > 0 {
        lemma_group_lines(ch, k - 1);
        let prev = group_changes(ch, k - 1);
        let line = trim_newlines(ch[k - 1].1);
        if prev.len() > 0 && prev.last().0 == ch[k - 1].0 {
            let u = prev.update(prev.len() - 1, (prev.last().0, prev.last().1.push(line)));
            assert(u.drop_last() =~= prev.drop_last());
            assert forall|j: int| 0 <= j < u.len() implies #[trigger] u[j].1.len() > 0 by {
                if j < prev.len() - 1 {
                    assert(u[j] == prev[j]);
                }
            }
        } else {
            let u = prev.push((ch[k - 1].0, seq![line]));
            assert(u.drop_last() =~= prev);
            assert forall|j: int| 0 <= j < u.len() implies #[trigger] u[j].1.len() > 0 by {
                if j < prev.len() {
                    assert(u[j] == prev[j]);
                }
            }
        }
    }
}

proof fn lemma_run_lines_take(p: Seq<(u8, Seq<Seq<char>>)>, i: int)
    requires
        0 <= i < p.len(),
    ensures
        run_lines(p.take(i + 1)) == run_lines(p.take(i)) + p[i].1.len(),
        run_lines(p.take(i + 1)) <= run_lines(p),
    decreases p.len() - i,
{
    assert(p.take(i + 1).drop_last() =~= p.take(i));
    if i + 1 < p.len() {
        lemma_run_lines_take(p, i + 1);
    } else {
        assert(p.take(i + 1) =~= p);
    }
}

fn num_exec(n: u64, width: usize) -> (r: Vec<char>)
    ensures
        r@ == num_spec(n as int, width as int),
{
    let d = decimal(n);
    let mut out: Vec<char> = Vec::new();
    let mut k: usize = 0;
    let pad = if d.len() < width {
        width - d.len()
    } else {
        0
    };
    while k < pad
        invariant
            k <= pad,
            out@ == spaces(k as int),
        decreases pad - k,
    {
        out.push(' ');
        assert(out@ =~= spaces(k + 1));
        k += 1;
    }
    push_all(&mut out, &d);
    assert(out@ =~= num_spec(n as int, width as int));
    out
}

fn marker_exec(width: usize) -> (r: Vec<char>)
    ensures
        r@ == marker(width as int),
{
    let mut out = vec![' '];
    let mut k: usize = 0;
    while k < width
        invariant
            k <= width,
            out@ == seq![' '] + spaces(k as int),
        decreases width - k,
    {
        out.push(' ');
        assert(out@ =~= seq![' '] + spaces(k + 1));
        k += 1;
    }
    crate::text::push_str(&mut out, " ...");
    out
}

fn push_numbered(out: &mut Vec<Vec<char>>, mark: char, lines: &Vec<Vec<char>>, from: usize, to: usize, start: u128, width: usize)
    requires
        from <= to <= lines@.len(),
        start + (to - from) <= u64::MAX + 1,
    ensures
        views(final(out)@) == views(old(out)@) + numbered(mark, views(lines@).subrange(from as int, to as int), start as int, width as int),
{
    let ghost sub = views(lines@).subrange(from as int, to as int);
    let ghost base = views(out@);
    let mut j: usize = from;
    while j < to
        invariant
            from <= j <= to,
            to <= lines@.len(),
            start + (to - from) <= u64::MAX + 1,
            sub == views(lines@).subrange(from as int, to as int),
            views(out@) == base + numbered(mark, sub, start as int, width as int).take(j - from),
        decreases to - j,
    {
        let num = (start + (j - from) as u128) as u64;
        let mut line = vec![mark];
        push_all(&mut line, &num_exec(num, width));
        line.push(' ');
        push_all(&mut line, &lines[j]);
        let ghost before = views(out@);
        out.push(line);
        proof {
            assert(sub[j - from] == lines@[j as int]@);
            assert(line@ =~= numbered(mark, sub, start as int, width as int)[j - from]);
            assert(views(out@) =~= before.push(line@));
            assert(numbered(mark, sub, start as int, width as int).take(j + 1 - from) =~= numbered(mark, sub, start as int, width as int).take(j - from).push(line@));
        }
        j += 1;
    }
    assert(numbered(mark, sub, start as int, width as int).take(to - from) =~= numbered(mark, sub, start as int, width as int));
}

/// The numbered rendering of `changes` with `context_lines` lines of
/// context around each change; `old_lines`/`new_lines` count the
/// `\n`-separated pieces of the two texts.
pub fn diff_string_from_changes(changes: &Vec<(u8, String)>, old_lines: usize, new_lines: usize, context_lines: usize) -> (r: DiffString)
    ensures
        ({
            let (d, f) = diff_render_spec(change_views(changes@), old_lines as int, new_lines as int, context_lines as int);
            &&& r.diff@ == d
            &&& match r.first_changed_line {
                Some(x) => f == Some(x as int),
                None => f is None,
            }
        }),
{
    let parts = group_exec(changes);
    let nch = changes.len();
    let ghost pv = run_views(parts@);
    let ghost total = changes@.len() as int;
    proof {
        lemma_group_lines(change_views(changes@), total);
    }
    let maxl = if old_lines > new_lines {
        old_lines
    } else {
        new_lines
    };
    let w = decimal(maxl as u64).len();
    let c = context_lines;
    let mut old_line: u128 = 1;
    let mut new_line: u128 = 1;
    let mut last = false;
    let mut first: Option<usize> = None;
    let mut out: Vec<Vec<char>> = Vec::new();
    let mut i: usize = 0;
    assert(views(out@) =~= Seq::<Seq<char>>::empty());
    assert(pv.take(0) =~= Seq::<(u8, Seq<Seq<char>>)>::empty());
    while i < parts.len()
        invariant
            i <= parts@.len(),
            pv == run_views(parts@),
            pv == group_changes(change_views(changes@), total),
            total == changes@.len(),
            total <= usize::MAX,
            run_lines(pv) == total,
            forall|j: int| 0 <= j < pv.len() ==> #[trigger] pv[j].1.len() > 0,
            w == decimal_spec(maxl as nat).len(),
            old_line <= 1 + run_lines(pv.take(i as int)),
            new_line <= 1 + run_lines(pv.take(i as int)),
            run_lines(pv.take(i as int)) <= total,
            (old_line as int, new_line as int, last, match first {
                Some(x) => Some(x as int),
                None => None,
            }, views(out@)) == render_runs(pv, i as int, c as int, w as int),
        decreases parts.len() - i,
    {
        proof {
            lemma_run_lines_take(pv, i as int);
        }
        let tag = parts[i].0;
        let lines = &parts[i].1;
        let n = lines.len();
        assert(pv[i as int] == (tag, views(lines@)));
        let next_is_change = i + 1 < parts.len() && parts[i + 1].0 != 0;
        proof {
            if i + 1 < parts@.len() {
                assert(pv[i + 1].0 == parts@[i + 1].0);
            }
        }
        let ghost lv = views(lines@);
        assert(lv.subrange(0, n as int) =~= lv);
        if tag != 0 {
            if first.is_none() {
                first = Some(new_line as usize);
            }
            if tag == 1 {
                push_numbered(&mut out, '+', lines, 0, n, new_line, w);
                new_line = new_line + n as u128;
            } else {
                push_numbered(&mut out, '-', lines, 0, n, old_line, w);
                old_line = old_line + n as u128;
            }
            last = true;
        } else {
            if last && next_is_change {
                if n <= c || n - c <= c {
                    push_numbered(&mut out, ' ', lines, 0, n, old_line, w);
                } else {
                    push_numbered(&mut out, ' ', lines, 0, c, old_line, w);
                    out.push(marker_exec(w));
                    push_numbered(&mut out, ' ', lines, n - c, n, old_line + (n - c) as u128, w);
                    assert(lv.subrange(0, c as int) =~= lv.take(c as int));
                    assert(lv.subrange(n - c, n as int) =~= lv.skip(n - c));
                }
            } else if last {
                let shown = if n < c {
                    n
                } else {
                    c
                };
                push_numbered(&mut out, ' ', lines, 0, shown, old_line, w);
                assert(lv.subrange(0, shown as int) =~= lv.take(shown as int));
                if n - shown > 0 {
                    out.push(marker_exec(w));
                }
            } else if next_is_change {
                let skipped = if n > c {
                    n - c
                } else {
                    0
                };
                if skipped > 0 {
                    out.push(marker_exec(w));
                }
                push_numbered(&mut out, ' ', lines, skipped, n, old_line + skipped as u128, w);
                assert(lv.subrange(skipped as int, n as int) =~= lv.skip(skipped as int));
            }
            old_line = old_line + n as u128;
            new_line = new_line + n as u128;
            last = false;
        }
        assert(views(out@) =~= render_runs(pv, i + 1, c as int, w as int).4);
        i += 1;
    }
    assert(pv.take(pv.len() as int) =~= pv);
    let nl = ['\n'];
    assert(nl@ == seq!['\n']);
    DiffString { diff: string_of(&join(&out, &nl)), first_changed_line: first }
}

/// Display-oriented diff of `old_content` to `new_content`: numbered
/// lines, changes marked `+`/`-`, at most `context_lines` lines of context
/// around each change.
pub fn generate_diff_string(old_content: &str, new_content: &str, context_lines: usize) -> (r: DiffString)
    ensures
        ({
            let (d, f) = diff_render_spec(
                line_changes(old_content@, new_content@),
                split_spec(old_content@, '\n').len() as int,
                split_spec(new_content@, '\n').len() as int,
                context_lines as int,
            );
            &&& r.diff@ == d
            &&& match r.first_changed_line {
                Some(x) => f == Some(x as int),
                None => f is None,
            }
        }),
{
    let changes = diff_line_changes(old_content, new_content);
    let old_pieces = crate::text::split_char(&chars_of(old_content), '\n');
    let new_pieces = crate::text::split_char(&chars_of(new_content), '\n');
    diff_string_from_changes(&changes, old_pieces.len(), new_pieces.len(), context_lines)
}

} // verus!
