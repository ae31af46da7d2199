//! Agent skills: `SKILL.md` frontmatter parsing, validation, and the
//! prompt blocks that list skills for the model.
//!
//! Frontmatter is a small YAML subset: `key: value` scalars, quoted
//! strings, and `|` / `>` block scalars.

use vstd::prelude::*;
use crate::assoc::{assoc_get, insert_str, position_str, sorted_insert, str_pairs};
use crate::text::{
    bytes_len, decimal, decimal_spec, str_bytes_len,
    chars_of, eq_chars, find_char, find_first, find_spec, join, join_spec, lines_of, lines_spec,
    push_all, push_str, replace, replace_spec, slice_of, starts_with, string_of, trim, trim_spec,
    views,
};
use crate::edit_diff::{normalize_to_lf_spec};

verus! {

pub const MAX_NAME_LENGTH: usize = 64;

pub const MAX_DESCRIPTION_LENGTH: usize = 1024;

/// Name of the per-project config directory.
pub const CONFIG_DIR_NAME: &'static str = ".zwork";

#[derive(Debug, Clone)]
pub struct Skill {
    pub name: String,
    pub description: String,
    pub file_path: String,
    pub base_dir: String,
    /// "user" | "project" | "path" | custom
    pub source: String,
    pub disable_model_invocation: bool,
}

#[derive(Debug, Clone)]
pub enum SkillDiagnostic {
    Warning { message: String, path: String },
    Collision { message: String, path: String, name: String, winner_path: String, loser_path: String },
}

#[derive(Debug, Clone)]
pub struct LoadSkillsResult {
    pub skills: Vec<Skill>,
    pub diagnostics: Vec<SkillDiagnostic>,
}

/// Which tool the prompt tells the model to load skill files with.
#[derive(Debug, Clone, Copy, PartialEq, Eq, Structural)]
pub enum SkillFileReadTool {
    Read,
    Bash,
}

#[derive(Debug, Clone)]
pub struct Frontmatter {
    /// Fields in key order, one entry per key.
    pub fields: Vec<(String, String)>,
    pub body: String,
}

// ---------------------------------------------------------------------------
// Frontmatter
// ---------------------------------------------------------------------------

/// `s` without any leading BOMs.
pub open spec fn strip_boms(s: Seq<char>) -> Seq<char>
    decreases s.len(),
{
    if s.len() > 0 && s[0] == '\u{feff}' {
        strip_boms(s.drop_first())
    } else {
        s
    }
}

pub open spec fn is_indented(l: Seq<char>) -> bool {
    l.len() > 0 && (l[0] == ' ' || l[0] == '\t')
}

/// Lines from `i` on that continue a value of the given kind: 0 = block
/// scalar (indented or blank), 1 = empty-value continuation (indented), 2 =
/// plain-scalar wrap (indented and not blank).
pub open spec fn continues(l: Seq<char>, kind: int) -> bool {
    if kind == 0 {
        is_indented(l) || trim_spec(l).len() == 0
    } else if kind == 1 {
        is_indented(l)
    } else {
        is_indented(l) && trim_spec(l).len() > 0
    }
}

/// Number of consecutive lines from `i` that continue a value.
pub open spec fn run_len(lines: Seq<Seq<char>>, i: int, kind: int) -> nat
    decreases lines.len() - i,
{
    if i < 0 || i >= lines.len() || !continues(lines[i], kind) {
        0
    } else {
        1 + run_len(lines, i + 1, kind)
    }
}

/// `s` without trailing empty entries.
pub open spec fn drop_trailing_empty(s: Seq<Seq<char>>) -> Seq<Seq<char>>
    decreases s.len(),
{
    if s.len() > 0 && s.last().len() == 0 {
        drop_trailing_empty(s.drop_last())
    } else {
        s
    }
}

pub open spec fn trimmed(s: Seq<Seq<char>>) -> Seq<Seq<char>> {
    s.map_values(|l: Seq<char>| trim_spec(l))
}

/// A quoted scalar's contents with its escapes resolved; other text trimmed.
pub open spec fn unquote_spec(value: Seq<char>) -> Seq<char> {
    let v = trim_spec(value);
    if v.len() >= 2 && v[0] == '"' && v.last() == '"' {
        replace_spec(
            replace_spec(v.subrange(1, v.len() - 1), seq!['\\', '"'], seq!['"']),
            seq!['\\', 'n'],
            seq!['\n'],
        )
    } else if v.len() >= 2 && v[0] == '\'' && v.last() == '\'' {
        replace_spec(v.subrange(1, v.len() - 1), seq!['\'', '\''], seq!['\''])
    } else {
        v
    }
}

pub open spec fn is_block_marker(raw: Seq<char>) -> bool {
    raw == seq!['|'] || raw == seq!['>'] || raw == seq!['|', '-'] || raw == seq!['>', '-']
}

/// The value introduced by `raw` on the line before `i`, and the index of
/// the first line after it.
pub open spec fn value_of(lines: Seq<Seq<char>>, i: int, raw: Seq<char>) -> (Seq<char>, int) {
    if is_block_marker(raw) {
        let n = run_len(lines, i, 0);
        let items = drop_trailing_empty(trimmed(lines.subrange(i, i + n)));
        (join_spec(items, if raw[0] == '|' { seq!['\n'] } else { seq![' '] }), i + n)
    } else if raw.len() == 0 {
        let n = run_len(lines, i, 1);
        (join_spec(trimmed(lines.subrange(i, i + n)), seq![' ']), i + n)
    } else if raw[0] != '"' && raw[0] != '\'' {
        let n = run_len(lines, i, 2);
        (join_spec(seq![unquote_spec(raw)] + trimmed(lines.subrange(i, i + n)), seq![' ']), i + n)
    } else {
        (unquote_spec(raw), i)
    }
}

pub open spec fn indented_msg(t: Seq<char>) -> Seq<char> {
    "unexpected indented line in frontmatter: "@ + t
}

pub open spec fn invalid_line_msg(t: Seq<char>) -> Seq<char> {
    "invalid frontmatter line: "@ + t
}

/// Fields parsed from `lines[i..]` into `acc`, or the first error.
pub open spec fn parse_fields(
    lines: Seq<Seq<char>>,
    i: int,
    acc: Seq<(Seq<char>, Seq<char>)>,
) -> Result<Seq<(Seq<char>, Seq<char>)>, Seq<char>>
    decreases lines.len() - i,
{
    if i < 0 || i >= lines.len() {
        Ok(acc)
    } else {
        let line = lines[i];
        let t = trim_spec(line);
        if t.len() == 0 || t[0] == '#' {
            parse_fields(lines, i + 1, acc)
        } else if is_indented(line) {
            Err(indented_msg(t))
        } else {
            match find_spec(line, seq![':']) {
                None => Err(invalid_line_msg(t)),
                Some(c) => {
                    let key = trim_spec(line.take(c));
                    let raw = trim_spec(line.subrange(c + 1, line.len() as int));
                    let (value, next) = value_of(lines, i + 1, raw);
                    if next <= i || next > lines.len() {
                        Ok(acc)
                    } else {
                        parse_fields(lines, next, sorted_insert(acc, key, value))
                    }
                },
            }
        }
    }
}

/// Normalized text the frontmatter is read from.
pub open spec fn fm_text(content: Seq<char>) -> Seq<char> {
    normalize_to_lf_spec(strip_boms(content))
}

/// Position (within the text after the opening `---`) of the closing
/// `\n---`, when the text opens with `---`.
pub open spec fn fm_close(content: Seq<char>) -> Option<int> {
    let n = fm_text(content);
    if !(seq!['-', '-', '-'].is_prefix_of(n)) {
        None
    } else {
        find_spec(n.subrange(3, n.len() as int), seq!['\n', '-', '-', '-'])
    }
}

/// Inputs whose block is empty or whose fourth character is not ASCII: the
/// YAML slice would not start on a character boundary after the opening
/// dashes.
pub open spec fn frontmatter_rejects(content: Seq<char>) -> bool {
    match fm_close(content) {
        Some(e) => e == 0 || (fm_text(content)[3] as u32) >= 0x80,
        None => false,
    }
}

/// Parsed frontmatter fields and body, or a parse error.
pub open spec fn frontmatter_spec(content: Seq<char>) -> Result<
    (Seq<(Seq<char>, Seq<char>)>, Seq<char>),
    Seq<char>,
> {
    let n = fm_text(content);
    match fm_close(content) {
        None => Ok((Seq::empty(), n)),
        Some(e) => {
            let yaml = n.subrange(4, 3 + e);
            let body = trim_spec(n.subrange(3 + e + 4, n.len() as int));
            match parse_fields(lines_spec(yaml), 0, Seq::empty()) {
                Err(m) => Err(m),
                Ok(f) => Ok((f, body)),
            }
        },
    }
}


fn strip_boms_exec(v: &[char]) -> (r: Vec<char>)
    ensures
        r@ == strip_boms(v@),
{
    let mut i: usize = 0;
    assert(v@.subrange(0, v@.len() as int) == v@);
    while i < v.len() && v[i] == '\u{feff}'
        invariant
            i <= v.len(),
            strip_boms(v@) == strip_boms(v@.subrange(i as int, v@.len() as int)),
        decreases v.len() - i,
    {
        assert(v@.subrange(i as int, v@.len() as int).drop_first() == v@.subrange(i + 1, v@.len() as int));
        i += 1;
    }
    slice_of(v, i, v.len())
}

fn is_indented_exec(l: &[char]) -> (r: bool)
    ensures
        r == is_indented(l@),
{
    l.len() > 0 && (l[0] == ' ' || l[0] == '\t')
}

fn continues_exec(l: &[char], kind: u8) -> (r: bool)
    ensures
        r == continues(l@, kind as int),
{
    if kind == 0 {
        is_indented_exec(l) || trim(l).len() == 0
    } else if kind == 1 {
        is_indented_exec(l)
    } else {
        is_indented_exec(l) && trim(l).len() > 0
    }
}

fn run_len_exec(lines: &Vec<Vec<char>>, i: usize, kind: u8) -> (n: usize)
    requires
        i <= lines@.len(),
    ensures
        n == run_len(views(lines@), i as int, kind as int),
        i + n <= lines@.len(),
{
    let ghost ls = views(lines@);
    let mut j = i;
    while j < lines.len() && continues_exec(&lines[j], kind)
        invariant
            i <= j <= lines@.len(),
            ls == views(lines@),
            run_len(ls, i as int, kind as int) == (j - i) + run_len(ls, j as int, kind as int),
        decreases lines.len() - j,
    {
        assert(ls[j as int] == lines@[j as int]@);
        j += 1;
    }
    proof {
        if j < lines.len() {
            assert(ls[j as int] == lines@[j as int]@);
        }
    }
    j - i
}

fn trimmed_lines(lines: &Vec<Vec<char>>, a: usize, b: usize) -> (r: Vec<Vec<char>>)
    requires
        a <= b <= lines@.len(),
    ensures
        views(r@) == trimmed(views(lines@).subrange(a as int, b as int)),
{
    let mut r: Vec<Vec<char>> = Vec::new();
    let mut k = a;
    while k < b
        invariant
            a <= k <= b <= lines@.len(),
            views(r@) == trimmed(views(lines@).subrange(a as int, k as int)),
        decreases b - k,
    {
        let t = trim(&lines[k]);
        let ghost old = views(r@);
        r.push(t);
        proof {
            assert(views(r@) == old.push(t@));
            assert(views(lines@)[k as int] == lines@[k as int]@);
            assert(trimmed(views(lines@).subrange(a as int, k + 1)) =~= trimmed(views(lines@).subrange(a as int, k as int)).push(trim_spec(lines@[k as int]@)));
        }
        k += 1;
    }
    r
}

fn drop_trailing_empty_exec(v: &mut Vec<Vec<char>>)
    ensures
        views(final(v)@) == drop_trailing_empty(views(old(v)@)),
{
    while v.len() > 0 && v[v.len() - 1].len() == 0
        invariant
            drop_trailing_empty(views(old(v)@)) == drop_trailing_empty(views(v@)),
        decreases v.len(),
    {
        let ghost before = views(v@);
        v.pop();
        assert(views(v@) =~= before.drop_last());
    }
}

fn unquote(value: &[char]) -> (r: Vec<char>)
    ensures
        r@ == unquote_spec(value@),
{
    let v = trim(value);
    let n = v.len();
    if n >= 2 && v[0] == '"' && v[n - 1] == '"' {
        let inner = slice_of(&v, 1, n - 1);
        let a = replace(&inner, &['\\', '"'], &['"']);
        assert((['\\', '"'])@ == seq!['\\', '"']);
        assert((['"'])@ == seq!['"']);
        assert((['\\', 'n'])@ == seq!['\\', 'n']);
        assert((['\n'])@ == seq!['\n']);
        replace(&a, &['\\', 'n'], &['\n'])
    } else if n >= 2 && v[0] == '\'' && v[n - 1] == '\'' {
        let inner = slice_of(&v, 1, n - 1);
        assert((['\'', '\''])@ == seq!['\'', '\'']);
        assert((['\''])@ == seq!['\'']);
        replace(&inner, &['\'', '\''], &['\''])
    } else {
        v
    }
}

fn is_block_marker_exec(raw: &[char]) -> (r: bool)
    ensures
        r == is_block_marker(raw@),
{
    let r = (raw.len() == 1 && (raw[0] == '|' || raw[0] == '>')) || (raw.len() == 2 && (raw[0] == '|'
        || raw[0] == '>') && raw[1] == '-');
    proof {
        if raw@.len() == 1 {
            if raw@[0] == '|' {
                assert(raw@ =~= seq!['|']);
            }
            if raw@[0] == '>' {
                assert(raw@ =~= seq!['>']);
            }
        }
        if raw@.len() == 2 && raw@[1] == '-' {
            if raw@[0] == '|' {
                assert(raw@ =~= seq!['|', '-']);
            }
            if raw@[0] == '>' {
                assert(raw@ =~= seq!['>', '-']);
            }
        }
    }
    r
}

fn value_of_exec(lines: &Vec<Vec<char>>, i: usize, raw: &[char]) -> (r: (Vec<char>, usize))
    requires
        i <= lines@.len(),
    ensures
        (r.0@, r.1 as int) == value_of(views(lines@), i as int, raw@),
        i <= r.1 <= lines@.len(),
{
    let nl = ['\n'];
    let sp = [' '];
    assert(nl@ == seq!['\n']);
    assert(sp@ == seq![' ']);
    if is_block_marker_exec(raw) {
        let n = run_len_exec(lines, i, 0);
        let total = lines.len();
        assert(i + n <= total);
        let mut items = trimmed_lines(lines, i, i + n);
        drop_trailing_empty_exec(&mut items);
        let v = if raw[0] == '|' {
            join(&items, &nl)
        } else {
            join(&items, &sp)
        };
        assert(v@ == value_of(views(lines@), i as int, raw@).0);
        (v, i + n)
    } else if raw.len() == 0 {
        let n = run_len_exec(lines, i, 1);
        let total = lines.len();
        assert(i + n <= total);
        let items = trimmed_lines(lines, i, i + n);
        (join(&items, &sp), i + n)
    } else if raw[0] != '"' && raw[0] != '\'' {
        let n = run_len_exec(lines, i, 2);
        let total = lines.len();
        assert(i + n <= total);
        let rest = trimmed_lines(lines, i, i + n);
        let mut items: Vec<Vec<char>> = Vec::new();
        let uq = unquote(raw);
        items.push(uq);
        let mut k: usize = 0;
        let ghost first = views(items@);
        assert(first =~= seq![unquote_spec(raw@)]);
        while k < rest.len()
            invariant
                k <= rest@.len(),
                views(items@) == first + views(rest@).take(k as int),
            decreases rest.len() - k,
        {
            let c = slice_of(&rest[k], 0, rest[k].len());
            let ghost before = views(items@);
            items.push(c);
            proof {
                assert(c@ == rest@[k as int]@);
                assert(views(items@) == before.push(c@));
                assert(views(rest@).take(k + 1) =~= views(rest@).take(k as int).push(c@));
            }
            k += 1;
        }
        assert(views(rest@).take(rest@.len() as int) == views(rest@));
        let v = join(&items, &sp);
        assert(v@ == value_of(views(lines@), i as int, raw@).0);
        (v, i + n)
    } else {
        (unquote(raw), i)
    }
}

/// Whether parsing the frontmatter of `content` would fail on a character
/// boundary: the inputs `parse_frontmatter` does not take.
pub fn frontmatter_would_panic(content: &str) -> (r: bool)
    ensures
        r == frontmatter_rejects(content@),
{
    let cs = chars_of(content);
    let stripped = strip_boms_exec(&cs);
    let n = crate::edit_diff::normalize_to_lf_vec(&stripped);
    let dashes = ['-', '-', '-'];
    assert(dashes@ == seq!['-', '-', '-']);
    if !starts_with(&n, &dashes) {
        return false;
    }
    let after = slice_of(&n, 3, n.len());
    let close = ['\n', '-', '-', '-'];
    assert(close@ == seq!['\n', '-', '-', '-']);
    match find_first(&after, &close) {
        None => false,
        Some(e) => {
            proof {
                assert(after@.subrange(e as int, e + 4) == close@);
            }
            assert(fm_close(content@) == Some(e as int));
            e == 0 || (n[3] as u32) >= 0x80
        },
    }
}

/// Parse a YAML-ish frontmatter block. Returns no fields (and the whole text
/// as body) when there is no `---` block.
pub fn parse_frontmatter(content: &str) -> (r: Result<Frontmatter, String>)
    requires
        !frontmatter_rejects(content@),
    ensures
        match r {
            Ok(fm) => frontmatter_spec(content@) == Ok::<(Seq<(Seq<char>, Seq<char>)>, Seq<char>), Seq<char>>(
                (str_pairs(fm.fields@), fm.body@),
            ),
            Err(e) => frontmatter_spec(content@) == Err::<(Seq<(Seq<char>, Seq<char>)>, Seq<char>), Seq<char>>(e@),
        },
{
    let cs = chars_of(content);
    let stripped = strip_boms_exec(&cs);
    let n = crate::edit_diff::normalize_to_lf_vec(&stripped);
    let dashes = ['-', '-', '-'];
    assert(dashes@ == seq!['-', '-', '-']);
    let empty_fields: Vec<(String, String)> = Vec::new();
    assert(str_pairs(empty_fields@) =~= Seq::<(Seq<char>, Seq<char>)>::empty());
    if !starts_with(&n, &dashes) {
        return Ok(Frontmatter { fields: empty_fields, body: string_of(&n) });
    }
    let after = slice_of(&n, 3, n.len());
    let close = ['\n', '-', '-', '-'];
    assert(close@ == seq!['\n', '-', '-', '-']);
    let end = match find_first(&after, &close) {
        None => {
            return Ok(Frontmatter { fields: empty_fields, body: string_of(&n) });
        },
        Some(e) => e,
    };
    proof {
        assert(after@.subrange(end as int, end + 4) == close@);
    }
    assert(fm_close(content@) == Some(end as int));
    let yaml = slice_of(&n, 4, 3 + end);
    let body_chars = trim(&slice_of(&n, 3 + end + 4, n.len()));
    let lines = lines_of(&yaml);
    let ghost ls = views(lines@);
    let mut fields: Vec<(String, String)> = Vec::new();
    let mut i: usize = 0;
    assert(str_pairs(fields@) =~= Seq::<(Seq<char>, Seq<char>)>::empty());
    while i < lines.len()
        invariant
            i <= lines@.len(),
            ls == views(lines@),
            ls == lines_spec(yaml@),
            yaml@ == fm_text(content@).subrange(4, 3 + end),
            fm_close(content@) == Some(end as int),
            body_chars@ == trim_spec(fm_text(content@).subrange(3 + end + 4, fm_text(content@).len() as int)),
            parse_fields(ls, 0, Seq::empty()) == parse_fields(ls, i as int, str_pairs(fields@)),
        decreases lines.len() - i,
    {
        let line = &lines[i];
        assert(ls[i as int] == line@);
        let t = trim(line);
        if t.len() == 0 || t[0] == '#' {
            i += 1;
        } else if is_indented_exec(line) {
            let mut msg: Vec<char> = Vec::new();
            push_str(&mut msg, "unexpected indented line in frontmatter: ");
            push_all(&mut msg, &t);
            assert(parse_fields(ls, i as int, str_pairs(fields@)) == Err::<Seq<(Seq<char>, Seq<char>)>, Seq<char>>(msg@));
            return Err(string_of(&msg));
        } else {
            let colon = [':'];
            assert(colon@ == seq![':']);
            match find_first(line, &colon) {
                None => {
                    let mut msg: Vec<char> = Vec::new();
                    push_str(&mut msg, "invalid frontmatter line: ");
                    push_all(&mut msg, &t);
                    assert(parse_fields(ls, i as int, str_pairs(fields@)) == Err::<Seq<(Seq<char>, Seq<char>)>, Seq<char>>(msg@));
                    return Err(string_of(&msg));
                },
                Some(c) => {
                    let key = trim(&slice_of(line, 0, c));
                    let raw = trim(&slice_of(line, c + 1, line.len()));
                    let (value, next) = value_of_exec(&lines, i + 1, &raw);
                    insert_str(&mut fields, string_of(&key), string_of(&value));
                    i = next;
                },
            }
        }
    }
    Ok(Frontmatter { fields, body: string_of(&body_chars) })
}


impl Frontmatter {
    /// The value of `key`, if present.
    pub fn get(&self, key: &str) -> (r: Option<&str>)
        ensures
            match r {
                Some(v) => assoc_get(str_pairs(self.fields@), key@) == Some(v@),
                None => assoc_get(str_pairs(self.fields@), key@) is None,
            },
    {
        match position_str(&self.fields, key) {
            Some(i) => Some(self.fields[i].1.as_str()),
            None => None,
        }
    }

    /// The value of `key` read as a boolean (`true`/`True`/`TRUE`/`yes`,
    /// `false`/`False`/`FALSE`/`no`), if present and one of those.
    pub fn get_bool(&self, key: &str) -> (r: Option<bool>)
        ensures
            r == match assoc_get(str_pairs(self.fields@), key@) {
                Some(v) => bool_word(trim_spec(v)),
                None => None,
            },
    {
        match self.get(key) {
            Some(v) => {
                let t = crate::text::trim_str(v);
                bool_word_exec(&t)
            },
            None => None,
        }
    }
}

/// The boolean a frontmatter word spells, if any.
pub open spec fn bool_word(t: Seq<char>) -> Option<bool> {
    if t == "true"@ || t == "True"@ || t == "TRUE"@ || t == "yes"@ {
        Some(true)
    } else if t == "false"@ || t == "False"@ || t == "FALSE"@ || t == "no"@ {
        Some(false)
    } else {
        None
    }
}

fn is_word(t: &[char], w: &str) -> (r: bool)
    ensures
        r == (t@ == w@),
{
    let wc = chars_of(w);
    eq_chars(t, &wc)
}

fn bool_word_exec(t: &[char]) -> (r: Option<bool>)
    ensures
        r == bool_word(t@),
{
    if is_word(t, "true") || is_word(t, "True") || is_word(t, "TRUE") || is_word(t, "yes") {
        Some(true)
    } else if is_word(t, "false") || is_word(t, "False") || is_word(t, "FALSE") || is_word(t, "no") {
        Some(false)
    } else {
        None
    }
}

// ---------------------------------------------------------------------------
// Validation
// ---------------------------------------------------------------------------

pub open spec fn name_char_ok(c: char) -> bool {
    ('a' <= c && c <= 'z') || ('0' <= c && c <= '9') || c == '-'
}

/// Validation errors for a skill name, in order.
pub open spec fn name_errors(name: Seq<char>) -> Seq<Seq<char>> {
    let e1: Seq<Seq<char>> = if bytes_len(name) > MAX_NAME_LENGTH {
        seq!["name exceeds 64 characters ("@ + decimal_spec(bytes_len(name)) + ")"@]
    } else {
        Seq::empty()
    };
    let e2: Seq<Seq<char>> = if name.len() == 0 || !(forall|i: int| 0 <= i < name.len() ==> name_char_ok(#[trigger] name[i])) {
        seq!["name contains invalid characters (must be lowercase a-z, 0-9, hyphens only)"@]
    } else {
        Seq::empty()
    };
    let e3: Seq<Seq<char>> = if (name.len() > 0 && (name[0] == '-' || name.last() == '-')) {
        seq!["name must not start or end with a hyphen"@]
    } else {
        Seq::empty()
    };
    let e4: Seq<Seq<char>> = if find_spec(name, seq!['-', '-']) is Some {
        seq!["name must not contain consecutive hyphens"@]
    } else {
        Seq::empty()
    };
    e1 + e2 + e3 + e4
}

pub open spec fn string_views(v: Seq<String>) -> Seq<Seq<char>> {
    v.map_values(|s: String| s@)
}

fn push_msg(out: &mut Vec<String>, v: &[char])
    ensures
        string_views(final(out)@) == string_views(old(out)@).push(v@),
{
    let s = string_of(v);
    out.push(s);
    assert(string_views(out@) =~= string_views(old(out)@).push(v@));
}

pub(crate) fn validate_name(name: &str) -> (r: Vec<String>)
    ensures
        string_views(r@) == name_errors(name@),
{
    let cs = chars_of(name);
    let nb = str_bytes_len(name);
    let mut errors: Vec<String> = Vec::new();
    assert(string_views(errors@) =~= Seq::<Seq<char>>::empty());
    if nb > MAX_NAME_LENGTH {
        let mut m: Vec<char> = Vec::new();
        push_str(&mut m, "name exceeds 64 characters (");
        push_all(&mut m, &decimal(nb as u64));
        push_str(&mut m, ")");
        push_msg(&mut errors, &m);
    }
    let ghost g1 = string_views(errors@);
    let mut all_ok = true;
    let mut i: usize = 0;
    while i < cs.len()
        invariant
            i <= cs.len(),
            all_ok == (forall|j: int| 0 <= j < i ==> name_char_ok(#[trigger] cs@[j])),
        decreases cs.len() - i,
    {
        let c = cs[i];
        if !(('a' <= c && c <= 'z') || ('0' <= c && c <= '9') || c == '-') {
            all_ok = false;
        }
        i += 1;
    }
    if cs.len() == 0 || !all_ok {
        let mut m: Vec<char> = Vec::new();
        push_str(&mut m, "name contains invalid characters (must be lowercase a-z, 0-9, hyphens only)");
        push_msg(&mut errors, &m);
    }
    let ghost g2 = string_views(errors@);
    if cs.len() > 0 && (cs[0] == '-' || cs[cs.len() - 1] == '-') {
        let mut m: Vec<char> = Vec::new();
        push_str(&mut m, "name must not start or end with a hyphen");
        push_msg(&mut errors, &m);
    }
    let ghost g3 = string_views(errors@);
    let hh = ['-', '-'];
    assert(hh@ == seq!['-', '-']);
    if find_first(&cs, &hh).is_some() {
        let mut m: Vec<char> = Vec::new();
        push_str(&mut m, "name must not contain consecutive hyphens");
        push_msg(&mut errors, &m);
    }
    assert(string_views(errors@) =~= name_errors(name@));
    errors
}

/// Validation errors for a skill description.
pub open spec fn description_errors(description: Option<Seq<char>>) -> Seq<Seq<char>> {
    match description {
        Some(d) => if trim_spec(d).len() > 0 {
            if bytes_len(d) > MAX_DESCRIPTION_LENGTH {
                seq!["description exceeds 1024 characters ("@ + decimal_spec(bytes_len(d)) + ")"@]
            } else {
                Seq::empty()
            }
        } else {
            seq!["description is required"@]
        },
        None => seq!["description is required"@],
    }
}

pub(crate) fn validate_description(description: Option<&str>) -> (r: Vec<String>)
    ensures
        string_views(r@) == description_errors(
            match description {
                Some(d) => Some(d@),
                None => None,
            },
        ),
{
    let mut errors: Vec<String> = Vec::new();
    assert(string_views(errors@) =~= Seq::<Seq<char>>::empty());
    match description {
        Some(d) => {
            if crate::text::trim_str(d).len() > 0 {
                let nb = str_bytes_len(d);
                if nb > MAX_DESCRIPTION_LENGTH {
                    let mut m: Vec<char> = Vec::new();
                    push_str(&mut m, "description exceeds 1024 characters (");
                    push_all(&mut m, &decimal(nb as u64));
                    push_str(&mut m, ")");
                    push_msg(&mut errors, &m);
                }
                return errors;
            }
        },
        None => {},
    }
    let mut m: Vec<char> = Vec::new();
    push_str(&mut m, "description is required");
    push_msg(&mut errors, &m);
    errors
}

// ---------------------------------------------------------------------------
// Prompt formatting
// ---------------------------------------------------------------------------

/// `s` with XML special characters escaped.
pub open spec fn escape_xml_spec(s: Seq<char>) -> Seq<char> {
    replace_spec(
        replace_spec(
            replace_spec(
                replace_spec(replace_spec(s, seq!['&'], "&amp;"@), seq!['<'], "&lt;"@),
                seq!['>'],
                "&gt;"@,
            ),
            seq!['"'],
            "&quot;"@,
        ),
        seq!['\''],
        "&apos;"@,
    )
}

fn escape_xml_chars(s: &[char]) -> (r: Vec<char>)
    ensures
        r@ == escape_xml_spec(s@),
{
    let amp = ['&'];
    let lt = ['<'];
    let gt = ['>'];
    let qt = ['"'];
    let ap = ['\''];
    assert(amp@ == seq!['&']);
    assert(lt@ == seq!['<']);
    assert(gt@ == seq!['>']);
    assert(qt@ == seq!['"']);
    assert(ap@ == seq!['\'']);
    let a = replace(s, &amp, &chars_of("&amp;"));
    let b = replace(&a, &lt, &chars_of("&lt;"));
    let c = replace(&b, &gt, &chars_of("&gt;"));
    let d = replace(&c, &qt, &chars_of("&quot;"));
    replace(&d, &ap, &chars_of("&apos;"))
}

pub fn escape_xml(s: &str) -> (r: String)
    ensures
        r@ == escape_xml_spec(s@),
{
    string_of(&escape_xml_chars(&chars_of(s)))
}

/// One skill invocation as sent to the model. `content` is the SKILL.md body.
pub fn format_skill_invocation(skill: &Skill, content: &str, additional_instructions: Option<&str>) -> (r: String)
    ensures
        ({
            let block = "<skill name=\""@ + skill.name@ + "\" location=\""@ + skill.file_path@
                + "\">\nReferences are relative to "@ + skill.base_dir@ + ".\n\n"@ + content@
                + "\n</skill>"@;
            r@ == match additional_instructions {
                Some(extra) => block + "\n\n"@ + extra@,
                None => block,
            }
        }),
{
    let mut out: Vec<char> = Vec::new();
    push_str(&mut out, "<skill name=\"");
    push_str(&mut out, skill.name.as_str());
    push_str(&mut out, "\" location=\"");
    push_str(&mut out, skill.file_path.as_str());
    push_str(&mut out, "\">\nReferences are relative to ");
    push_str(&mut out, skill.base_dir.as_str());
    push_str(&mut out, ".\n\n");
    push_str(&mut out, content);
    push_str(&mut out, "\n</skill>");
    match additional_instructions {
        Some(extra) => {
            push_str(&mut out, "\n\n");
            push_str(&mut out, extra);
        },
        None => {},
    }
    string_of(&out)
}

pub open spec fn skill_lines(s: Skill) -> Seq<Seq<char>> {
    seq![
        "  <skill>"@,
        "    <name>"@ + escape_xml_spec(s.name@) + "</name>"@,
        "    <description>"@ + escape_xml_spec(s.description@) + "</description>"@,
        "    <location>"@ + escape_xml_spec(s.file_path@) + "</location>"@,
        "  </skill>"@,
    ]
}

/// Prompt lines for the visible skills among `skills[..k]`.
pub open spec fn visible_skill_lines(skills: Seq<Skill>, k: int) -> Seq<Seq<char>>
    decreases k,
{
    if k <= 0 {
        Seq::empty()
    } else if skills[k - 1].disable_model_invocation {
        visible_skill_lines(skills, k - 1)
    } else {
        visible_skill_lines(skills, k - 1) + skill_lines(skills[k - 1])
    }
}

pub open spec fn skills_header(tool: SkillFileReadTool) -> Seq<Seq<char>> {
    seq![
        "\n\nThe following skills provide specialized instructions for specific tasks."@,
        match tool {
            SkillFileReadTool::Read => "Use the read tool to load a skill's file when the task matches its description."@,
            SkillFileReadTool::Bash => "Use bash to load a skill's file when the task matches its description."@,
        },
        "When a skill file references a relative path, resolve it against the skill directory (parent of SKILL.md / dirname of the path) and use that absolute path in tool commands."@,
        Seq::empty(),
        "<available_skills>"@,
    ]
}

/// The `<available_skills>` block; empty when no skill is visible.
pub open spec fn skills_prompt_spec(skills: Seq<Skill>, tool: SkillFileReadTool) -> Seq<char> {
    let body = visible_skill_lines(skills, skills.len() as int);
    if body.len() == 0 {
        Seq::empty()
    } else {
        join_spec(skills_header(tool) + body + seq!["</available_skills>"@], seq!['\n'])
    }
}

fn push_line(lines: &mut Vec<Vec<char>>, parts: Vec<char>)
    ensures
        views(final(lines)@) == views(old(lines)@).push(parts@),
{
    let ghost v = parts@;
    lines.push(parts);
    assert(views(lines@) =~= views(old(lines)@).push(v));
}

fn tagged(open: &str, body: &[char], close: &str) -> (r: Vec<char>)
    ensures
        r@ == open@ + escape_xml_spec(body@) + close@,
{
    let mut out = chars_of(open);
    push_all(&mut out, &escape_xml_chars(body));
    push_str(&mut out, close);
    out
}

pub fn format_skills_for_prompt(skills: &[Skill], file_read_tool: SkillFileReadTool) -> (r: String)
    ensures
        r@ == skills_prompt_spec(skills@, file_read_tool),
{
    let mut body: Vec<Vec<char>> = Vec::new();
    let mut k: usize = 0;
    assert(views(body@) =~= Seq::<Seq<char>>::empty());
    while k < skills.len()
        invariant
            k <= skills@.len(),
            views(body@) == visible_skill_lines(skills@, k as int),
        decreases skills.len() - k,
    {
        let s = &skills[k];
        if !s.disable_model_invocation {
            let ghost before = views(body@);
            push_line(&mut body, chars_of("  <skill>"));
            push_line(&mut body, tagged("    <name>", &chars_of(s.name.as_str()), "</name>"));
            push_line(&mut body, tagged("    <description>", &chars_of(s.description.as_str()), "</description>"));
            push_line(&mut body, tagged("    <location>", &chars_of(s.file_path.as_str()), "</location>"));
            push_line(&mut body, chars_of("  </skill>"));
            assert(views(body@) =~= before + skill_lines(*s));
        }
        k += 1;
    }
    if body.len() == 0 {
        return String::new();
    }
    let mut lines: Vec<Vec<char>> = Vec::new();
    push_line(&mut lines, chars_of("\n\nThe following skills provide specialized instructions for specific tasks."));
    match file_read_tool {
        SkillFileReadTool::Read => push_line(&mut lines, chars_of("Use the read tool to load a skill's file when the task matches its description.")),
        SkillFileReadTool::Bash => push_line(&mut lines, chars_of("Use bash to load a skill's file when the task matches its description.")),
    }
    push_line(&mut lines, chars_of("When a skill file references a relative path, resolve it against the skill directory (parent of SKILL.md / dirname of the path) and use that absolute path in tool commands."));
    push_line(&mut lines, Vec::new());
    push_line(&mut lines, chars_of("<available_skills>"));
    assert(views(lines@) =~= skills_header(file_read_tool));
    let mut k: usize = 0;
    let ghost head = views(lines@);
    while k < body.len()
        invariant
            k <= body@.len(),
            views(lines@) == head + views(body@).take(k as int),
            views(body@) == visible_skill_lines(skills@, skills@.len() as int),
            head == skills_header(file_read_tool),
        decreases body.len() - k,
    {
        let line = slice_of(&body[k], 0, body[k].len());
        assert(line@ == body@[k as int]@);
        push_line(&mut lines, line);
        assert(views(body@).take(k + 1) =~= views(body@).take(k as int).push(body@[k as int]@));
        k += 1;
    }
    assert(views(body@).take(body@.len() as int) == views(body@));
    push_line(&mut lines, chars_of("</available_skills>"));
    assert(views(lines@) =~= skills_header(file_read_tool) + visible_skill_lines(skills@, skills@.len() as int) + seq!["</available_skills>"@]);
    let nl = ['\n'];
    assert(nl@ == seq!['\n']);
    string_of(&join(&lines, &nl))
}

} // verus!
