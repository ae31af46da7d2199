//! Globs compiled to anchored regular expressions, and `.gitignore` rules.
//!
//! A glob supports `*`, `**`, `?`, `[...]` and `{a,b}`; `*` and `?` do not
//! cross `/`. Ignore files follow git: later rules win, `!` negates, a
//! trailing `/` applies to directories only, and a slash elsewhere anchors
//! the pattern to the ignore file's directory.

use vstd::prelude::*;
use crate::path_utils::{file_name, file_name_spec, relative_posix, relative_spec};
use crate::text::{chars_of, contains_char, eq_chars, lines_of, lines_spec, push_char, push_str, slice_of, string_of, to_string, trim_end, trim_end_spec, views};

verus! {

// ---------------------------------------------------------------------------
// The regex engine
// ---------------------------------------------------------------------------

#[verifier::external_type_specification]
#[verifier::external_body]
pub struct ExRegex(regex::Regex);

/// What `regex::RegexBuilder` reports for `pattern`, case-insensitive or
/// not: `None` when it compiles, else the text of its error.
pub uninterp spec fn regex_compile_error(pattern: Seq<char>, ignore_case: bool) -> Option<Seq<char>>;

/// Whether the regex built from `pattern` (case-insensitive or not)
/// matches somewhere in `haystack`.
pub uninterp spec fn regex_matches(pattern: Seq<char>, ignore_case: bool, haystack: Seq<char>) -> bool;

/// Characters with a meaning in regex syntax (`regex_syntax::is_meta_character`).
pub open spec fn meta_char(c: char) -> bool {
    c == '\\' || c == '.' || c == '+' || c == '*' || c == '?' || c == '(' || c == ')' || c == '|'
        || c == '[' || c == ']' || c == '{' || c == '}' || c == '^' || c == '$' || c == '#' || c
        == '&' || c == '-' || c == '~'
}

/// One character as a regex literal.
pub open spec fn escape_char(c: char) -> Seq<char> {
    if meta_char(c) {
        seq!['\\', c]
    } else {
        seq![c]
    }
}

/// `regex::escape`: every meta character preceded by a backslash.
pub open spec fn escape_spec(s: Seq<char>) -> Seq<char>
    decreases s.len(),
{
    if s.len() == 0 {
        Seq::empty()
    } else {
        escape_spec(s.drop_last()) + escape_char(s.last())
    }
}

/// `regex::escape`, which puts a backslash before each meta character and
/// keeps every other character as it is.
#[verifier::external_body]
pub(crate) fn regex_escape(s: &str) -> (r: String)
    ensures
        r@ == escape_spec(s@),
{
    regex::escape(s)
}

/// `RegexBuilder::new(pattern).case_insensitive(ignore_case).build()` (with
/// `ignore_case` false, what `Regex::new` does); the error is taken as its
/// display text.
#[verifier::external_body]
fn regex_new(pattern: &str, ignore_case: bool) -> (r: Result<regex::Regex, String>)
    ensures
        match r {
            Ok(_) => regex_compile_error(pattern@, ignore_case) is None,
            Err(e) => regex_compile_error(pattern@, ignore_case) == Some(e@),
        },
{
    match regex::RegexBuilder::new(pattern).case_insensitive(ignore_case).build() {
        Ok(re) => Ok(re),
        Err(e) => Err(e.to_string()),
    }
}

/// A compiled regex with the pattern and case setting it was built from.
/// Only [`CompiledRegex::build`] makes one, so `regex` always comes from
/// `source` and `ignore_case`.
pub struct CompiledRegex {
    source: String,
    ignore_case: bool,
    regex: regex::Regex,
}

/// `regex::Regex::is_match` on the regex of `re`; its result is named over
/// the pattern and case setting that regex was built from.
#[verifier::external_body]
fn regex_is_match(re: &CompiledRegex, haystack: &str) -> (r: bool)
    ensures
        r == regex_matches(re.source@, re.ignore_case, haystack@),
{
    re.regex.is_match(haystack)
}

impl CompiledRegex {
    pub closed spec fn source_spec(&self) -> Seq<char> {
        self.source@
    }

    pub closed spec fn case_spec(&self) -> bool {
        self.ignore_case
    }

    /// Compile `pattern`, case-sensitive; the error text of the regex
    /// engine on failure.
    pub fn new(pattern: &str) -> (r: Result<CompiledRegex, String>)
        ensures
            match r {
                Ok(c) => regex_compile_error(pattern@, false) is None && c.source_spec() == pattern@ && !c.case_spec(),
                Err(e) => regex_compile_error(pattern@, false) == Some(e@),
            },
    {
        CompiledRegex::build(pattern, false)
    }

    /// Compile `pattern`, case-insensitive when `ignore_case`.
    pub fn build(pattern: &str, ignore_case: bool) -> (r: Result<CompiledRegex, String>)
        ensures
            match r {
                Ok(c) => regex_compile_error(pattern@, ignore_case) is None && c.source_spec() == pattern@
                    && c.case_spec() == ignore_case,
                Err(e) => regex_compile_error(pattern@, ignore_case) == Some(e@),
            },
    {
        match regex_new(pattern, ignore_case) {
            Ok(regex) => Ok(CompiledRegex { source: to_string(pattern), ignore_case, regex }),
            Err(e) => Err(e),
        }
    }

    /// The pattern this regex was compiled from.
    pub fn as_str(&self) -> (r: &str)
        ensures
            r@ == self.source_spec(),
    {
        self.source.as_str()
    }

    /// Whether the regex matches somewhere in `haystack`.
    pub fn is_match(&self, haystack: &str) -> (r: bool)
        ensures
            r == regex_matches(self.source_spec(), self.case_spec(), haystack@),
    {
        regex_is_match(self, haystack)
    }
}

// ---------------------------------------------------------------------------
// Globs
// ---------------------------------------------------------------------------

/// `end` is the first `]` at or after `from`.
pub open spec fn close_at(g: Seq<char>, from: int, end: int) -> bool {
    &&& from <= end < g.len()
    &&& g[end] == ']'
    &&& forall|k: int| from <= k < end ==> g[k] != ']'
}

/// The members of a bracket class between `j` and `end`, with `\` and `[`
/// escaped.
pub open spec fn class_body(g: Seq<char>, j: int, end: int) -> Seq<char>
    decreases end - j,
{
    if j >= end {
        Seq::empty()
    } else {
        (if g[j] == '\\' || g[j] == '[' {
            seq!['\\', g[j]]
        } else {
            seq![g[j]]
        }) + class_body(g, j + 1, end)
    }
}

/// The class opened at `i` and closed at `end`; a leading `!` negates it.
pub open spec fn class_spec(g: Seq<char>, i: int, end: int) -> Seq<char> {
    if i + 1 < end && g[i + 1] == '!' {
        seq!['[', '^'] + class_body(g, i + 2, end) + seq![']']
    } else {
        seq!['['] + class_body(g, i + 1, end) + seq![']']
    }
}

/// The regex for the glob from position `i` on, inside `depth` open braces.
pub open spec fn glob_body(g: Seq<char>, i: int, depth: nat) -> Seq<char>
    decreases g.len() - i,
{
    if i < 0 || i >= g.len() {
        Seq::empty()
    } else {
        let c = g[i];
        if c == '*' {
            if i + 1 < g.len() && g[i + 1] == '*' {
                if i + 2 < g.len() && g[i + 2] == '/' {
                    seq!['(', '?', ':', '.', '*', '/', ')', '?'] + glob_body(g, i + 3, depth)
                } else {
                    seq!['.', '*'] + glob_body(g, i + 2, depth)
                }
            } else {
                seq!['[', '^', '/', ']', '*'] + glob_body(g, i + 1, depth)
            }
        } else if c == '?' {
            seq!['[', '^', '/', ']'] + glob_body(g, i + 1, depth)
        } else if c == '[' {
            if exists|end: int| #[trigger] close_at(g, i + 1, end) {
                let end = choose|end: int| #[trigger] close_at(g, i + 1, end);
                class_spec(g, i, end) + glob_body(g, end + 1, depth)
            } else {
                seq!['\\', '['] + glob_body(g, i + 1, depth)
            }
        } else if c == '{' {
            seq!['(', '?', ':'] + glob_body(g, i + 1, depth + 1)
        } else if c == '}' && depth > 0 {
            seq![')'] + glob_body(g, i + 1, (depth - 1) as nat)
        } else if c == ',' && depth > 0 {
            seq!['|'] + glob_body(g, i + 1, depth)
        } else if c == '\\' && i + 1 < g.len() {
            escape_char(g[i + 1]) + glob_body(g, i + 2, depth)
        } else {
            escape_char(c) + glob_body(g, i + 1, depth)
        }
    }
}

/// The anchored regex for a glob; `(?i)` in front when case does not matter.
pub open spec fn glob_regex_spec(g: Seq<char>, case_insensitive: bool) -> Seq<char> {
    let re = seq!['^'] + glob_body(g, 0, 0) + seq!['$'];
    if case_insensitive {
        seq!['(', '?', 'i', ')'] + re
    } else {
        re
    }
}

fn push_all_chars(out: &mut Vec<char>, s: &Vec<char>)
    ensures
        final(out)@ == old(out)@ + s@,
{
    let mut i: usize = 0;
    while i < s.len()
        invariant
            i <= s@.len(),
            out@ == old(out)@ + s@.take(i as int),
        decreases s.len() - i,
    {
        out.push(s[i]);
        assert(s@.take(i + 1) =~= s@.take(i as int).push(s@[i as int]));
        i += 1;
    }
    assert(s@.take(s@.len() as int) =~= s@);
}

fn push_escaped(out: &mut Vec<char>, c: char)
    ensures
        final(out)@ == old(out)@ + escape_char(c),
{
    let mut buf = String::new();
    push_char(&mut buf, c);
    proof {
        assert(buf@ =~= seq![c]);
        assert(seq![c].drop_last() =~= Seq::<char>::empty());
    }
    let e = regex_escape(buf.as_str());
    let v = chars_of(e.as_str());
    assert(escape_spec(seq![c]) =~= escape_char(c)) by {
        assert(escape_spec(Seq::<char>::empty()) =~= Seq::<char>::empty());
    }
    push_all_chars(out, &v);
}

fn find_close(g: &Vec<char>, from: usize) -> (r: Option<usize>)
    ensures
        match r {
            Some(end) => close_at(g@, from as int, end as int),
            None => !exists|end: int| #[trigger] close_at(g@, from as int, end),
        },
{
    let mut k = from;
    while k < g.len()
        invariant
            from <= k,
            forall|m: int| from <= m < k ==> g@[m] != ']',
        decreases g.len() - k,
    {
        if g[k] == ']' {
            return Some(k);
        }
        k += 1;
    }
    assert forall|end: int| !close_at(g@, from as int, end) by {
        if close_at(g@, from as int, end) {
            assert(g@[end] == ']');
        }
    }
    None
}

proof fn lemma_class_body_step(g: Seq<char>, j: int, end: int)
    requires
        j < end,
    ensures
        class_body(g, j, end) == (if g[j] == '\\' || g[j] == '[' {
            seq!['\\', g[j]]
        } else {
            seq![g[j]]
        }) + class_body(g, j + 1, end),
{
}

fn push_class(out: &mut Vec<char>, g: &Vec<char>, i: usize, end: usize)
    requires
        i < end <= g@.len(),
    ensures
        final(out)@ == old(out)@ + class_spec(g@, i as int, end as int),
{
    let mut j = i + 1;
    out.push('[');
    if j < end && g[j] == '!' {
        out.push('^');
        j += 1;
    }
    let ghost start = j as int;
    let ghost mid = out@;
    while j < end
        invariant
            start <= j <= end,
            end <= g@.len(),
            out@ + class_body(g@, j as int, end as int) == mid + class_body(g@, start, end as int),
        decreases end - j,
    {
        proof {
            lemma_class_body_step(g@, j as int, end as int);
        }
        let ghost before = out@;
        if g[j] == '\\' || g[j] == '[' {
            out.push('\\');
        }
        out.push(g[j]);
        assert(out@ =~= before + (if g@[j as int] == '\\' || g@[j as int] == '[' {
            seq!['\\', g@[j as int]]
        } else {
            seq![g@[j as int]]
        }));
        j += 1;
    }
    out.push(']');
    assert(class_body(g@, end as int, end as int) =~= Seq::<char>::empty());
}

fn push_lit(out: &mut Vec<char>, lit: &[char])
    ensures
        final(out)@ == old(out)@ + lit@,
{
    let mut i: usize = 0;
    while i < lit.len()
        invariant
            i <= lit@.len(),
            out@ == old(out)@ + lit@.take(i as int),
        decreases lit.len() - i,
    {
        out.push(lit[i]);
        assert(lit@.take(i + 1) =~= lit@.take(i as int).push(lit@[i as int]));
        i += 1;
    }
    assert(lit@.take(lit@.len() as int) =~= lit@);
}

/// The anchored regex source for `glob`.
pub fn glob_regex_source(glob: &str, case_insensitive: bool) -> (r: String)
    ensures
        r@ == glob_regex_spec(glob@, case_insensitive),
{
    let g = chars_of(glob);
    let ghost total = glob_body(g@, 0, 0);
    let mut out: Vec<char> = Vec::new();
    if case_insensitive {
        push_lit(&mut out, &['(', '?', 'i', ')']);
    }
    let ghost head = out@;
    out.push('^');
    let mut i: usize = 0;
    let mut depth: usize = 0;
    while i < g.len()
        invariant
            i <= g@.len(),
            depth <= i,
            out@ + glob_body(g@, i as int, depth as nat) == head + seq!['^'] + total,
        decreases g.len() - i,
    {
        let ghost before = out@;
        let ghost rest = glob_body(g@, i as int, depth as nat);
        let c = g[i];
        if c == '*' {
            if i + 1 < g.len() && g[i + 1] == '*' {
                if i + 2 < g.len() && g[i + 2] == '/' {
                    push_lit(&mut out, &['(', '?', ':', '.', '*', '/', ')', '?']);
                    i += 3;
                } else {
                    push_lit(&mut out, &['.', '*']);
                    i += 2;
                }
            } else {
                push_lit(&mut out, &['[', '^', '/', ']', '*']);
                i += 1;
            }
        } else if c == '?' {
            push_lit(&mut out, &['[', '^', '/', ']']);
            i += 1;
        } else if c == '[' {
            match find_close(&g, i + 1) {
                Some(end) => {
                    push_class(&mut out, &g, i, end);
                    i = end + 1;
                },
                None => {
                    push_lit(&mut out, &['\\', '[']);
                    i += 1;
                },
            }
        } else if c == '{' {
            push_lit(&mut out, &['(', '?', ':']);
            depth += 1;
            i += 1;
        } else if c == '}' && depth > 0 {
            out.push(')');
            depth -= 1;
            i += 1;
        } else if c == ',' && depth > 0 {
            out.push('|');
            i += 1;
        } else if c == '\\' && i + 1 < g.len() {
            push_escaped(&mut out, g[i + 1]);
            i += 2;
        } else {
            push_escaped(&mut out, c);
            i += 1;
        }
        assert(out@ + glob_body(g@, i as int, depth as nat) =~= before + rest);
    }
    out.push('$');
    assert(out@ =~= head + seq!['^'] + total + seq!['$']);
    string_of(&out)
}

/// Compile a glob into an anchored regex.
pub fn glob_to_regex(glob: &str, case_insensitive: bool) -> (r: Result<CompiledRegex, String>)
    ensures
        match r {
            Ok(re) => re.source_spec() == glob_regex_spec(glob@, case_insensitive) && !re.case_spec()
                && regex_compile_error(glob_regex_spec(glob@, case_insensitive), false) is None,
            Err(e) => exists|err: Seq<char>|
                regex_compile_error(glob_regex_spec(glob@, case_insensitive), false) == Some(err) && e@
                    == "invalid glob '"@ + glob@ + "': "@ + err,
        },
{
    let pattern = glob_regex_source(glob, case_insensitive);
    match CompiledRegex::new(pattern.as_str()) {
        Ok(re) => Ok(re),
        Err(e) => {
            let mut msg: Vec<char> = Vec::new();
            push_str(&mut msg, "invalid glob '");
            push_str(&mut msg, glob);
            push_str(&mut msg, "': ");
            push_str(&mut msg, e.as_str());
            Err(string_of(&msg))
        },
    }
}

// ---------------------------------------------------------------------------
// Ignore files
// ---------------------------------------------------------------------------

/// One rule of an ignore file.
pub struct IgnoreRule {
    pub regex: CompiledRegex,
    pub negate: bool,
    pub dir_only: bool,
    /// Pattern is anchored to the ignore file's own directory.
    pub anchored: bool,
}

/// The rules of one ignore file.
pub struct IgnoreFile {
    /// Directory holding the ignore file.
    pub base: String,
    pub rules: Vec<IgnoreRule>,
}

pub struct RuleView {
    pub pattern: Seq<char>,
    pub ignore_case: bool,
    pub negate: bool,
    pub dir_only: bool,
    pub anchored: bool,
}

impl View for IgnoreRule {
    type V = RuleView;

    open spec fn view(&self) -> RuleView {
        RuleView {
            pattern: self.regex.source_spec(),
            ignore_case: self.regex.case_spec(),
            negate: self.negate,
            dir_only: self.dir_only,
            anchored: self.anchored,
        }
    }
}

pub open spec fn rules_view(rules: Seq<IgnoreRule>) -> Seq<RuleView> {
    rules.map_values(|r: IgnoreRule| r@)
}

/// The rule a line of an ignore file gives, if any: blank lines, comments
/// and patterns the regex engine refuses give none.
pub open spec fn parse_line(raw: Seq<char>) -> Option<RuleView> {
    let line = trim_end_spec(raw);
    if line.len() == 0 || line[0] == '#' {
        None
    } else {
        let negate = line[0] == '!';
        let l1 = if negate {
            line.drop_first()
        } else {
            line
        };
        let l2 = if l1.len() > 0 && l1[0] == '\\' {
            l1.drop_first()
        } else {
            l1
        };
        let dir_only = l2.len() > 0 && l2.last() == '/';
        let l3 = if dir_only {
            l2.drop_last()
        } else {
            l2
        };
        let anchored = l3.contains('/');
        let l4 = if l3.len() > 0 && l3[0] == '/' {
            l3.drop_first()
        } else {
            l3
        };
        let pattern = glob_regex_spec(l4, false);
        if regex_compile_error(pattern, false) is None {
            Some(RuleView { pattern, ignore_case: false, negate, dir_only, anchored })
        } else {
            None
        }
    }
}

/// The rules of the first `k` lines.
pub open spec fn parse_lines_upto(lines: Seq<Seq<char>>, k: int) -> Seq<RuleView>
    decreases k,
{
    if k <= 0 {
        Seq::empty()
    } else {
        match parse_line(lines[k - 1]) {
            Some(r) => parse_lines_upto(lines, k - 1).push(r),
            None => parse_lines_upto(lines, k - 1),
        }
    }
}

pub open spec fn parse_gitignore_spec(content: Seq<char>) -> Seq<RuleView> {
    parse_lines_upto(lines_spec(content), lines_spec(content).len() as int)
}

fn strip_first(v: Vec<char>, c: char) -> (r: (bool, Vec<char>))
    ensures
        r.0 == (v@.len() > 0 && v@[0] == c),
        r.1@ == if r.0 {
            v@.drop_first()
        } else {
            v@
        },
{
    if v.len() > 0 && v[0] == c {
        let rest = slice_of(&v, 1, v.len());
        assert(rest@ =~= v@.drop_first());
        (true, rest)
    } else {
        (false, v)
    }
}

fn parse_rule(raw: &Vec<char>) -> (r: Option<IgnoreRule>)
    ensures
        match r {
            Some(rule) => parse_line(raw@) == Some(rule@),
            None => parse_line(raw@) is None,
        },
{
    let line = trim_end(raw);
    if line.len() == 0 || line[0] == '#' {
        return None;
    }
    let (negate, l1) = strip_first(line, '!');
    let (_, l2) = strip_first(l1, '\\');
    let dir_only = l2.len() > 0 && l2[l2.len() - 1] == '/';
    let l3 = if dir_only {
        let t = slice_of(&l2, 0, l2.len() - 1);
        assert(t@ =~= l2@.drop_last());
        t
    } else {
        l2
    };
    let anchored = contains_char(&l3, '/');
    let (_, l4) = strip_first(l3, '/');
    let glob = string_of(&l4);
    match glob_to_regex(glob.as_str(), false) {
        Ok(regex) => Some(IgnoreRule { regex, negate, dir_only, anchored }),
        Err(_) => None,
    }
}

/// The rules of an ignore file in directory `base`.
pub fn parse_gitignore(base: &str, content: &str) -> (r: IgnoreFile)
    ensures
        r.base@ == base@,
        rules_view(r.rules@) == parse_gitignore_spec(content@),
{
    let lines = lines_of(&chars_of(content));
    let ghost ls = views(lines@);
    let mut rules: Vec<IgnoreRule> = Vec::new();
    let mut k: usize = 0;
    while k < lines.len()
        invariant
            k <= lines@.len(),
            ls == views(lines@),
            ls == lines_spec(content@),
            rules_view(rules@) == parse_lines_upto(ls, k as int),
        decreases lines.len() - k,
    {
        let ghost before = rules_view(rules@);
        assert(ls[k as int] == lines@[k as int]@);
        match parse_rule(&lines[k]) {
            Some(rule) => {
                let ghost rv = rule@;
                rules.push(rule);
                assert(rules_view(rules@) =~= before.push(rv));
            },
            None => {},
        }
        k += 1;
    }
    IgnoreFile { base: to_string(base), rules }
}

/// Whether a rule matches: an anchored one the path relative to its file;
/// another one the base name, any trailing run of directories, or the
/// relative path.
pub open spec fn rule_matches(pattern: Seq<char>, ic: bool, anchored: bool, name: Seq<char>, rel: Seq<char>) -> bool {
    if anchored {
        regex_matches(pattern, ic, rel)
    } else {
        ||| regex_matches(pattern, ic, name)
        ||| exists|i: int| 0 <= i < rel.len() && rel[i] == '/' && #[trigger] regex_matches(pattern, ic, rel.skip(i + 1))
        ||| regex_matches(pattern, ic, rel)
    }
}

/// The verdict after a rule: a rule for directories says nothing of a
/// file; a matching rule ignores, or un-ignores when negated.
pub open spec fn apply_rule_spec(ignored: bool, negate: bool, dir_only: bool, is_dir: bool, matched: bool) -> bool {
    if dir_only && !is_dir {
        ignored
    } else if matched {
        !negate
    } else {
        ignored
    }
}

/// The verdict after one rule, given whether its pattern matched.
pub fn apply_rule(ignored: bool, rule: &IgnoreRule, is_dir: bool, matched: bool) -> (r: bool)
    ensures
        r == apply_rule_spec(ignored, rule.negate, rule.dir_only, is_dir, matched),
{
    if rule.dir_only && !is_dir {
        ignored
    } else if matched {
        !rule.negate
    } else {
        ignored
    }
}

pub open spec fn rules_verdict(
    rules: Seq<RuleView>,
    name: Seq<char>,
    rel: Seq<char>,
    is_dir: bool,
    start: bool,
    k: int,
) -> bool
    decreases k,
{
    if k <= 0 {
        start
    } else {
        let r = rules[k - 1];
        apply_rule_spec(
            rules_verdict(rules, name, rel, is_dir, start, k - 1),
            r.negate,
            r.dir_only,
            is_dir,
            !(r.dir_only && !is_dir) && rule_matches(r.pattern, r.ignore_case, r.anchored, name, rel),
        )
    }
}

pub struct IgnoreFileView {
    pub base: Seq<char>,
    pub rules: Seq<RuleView>,
}

pub open spec fn files_view(files: Seq<IgnoreFile>) -> Seq<IgnoreFileView> {
    files.map_values(|f: IgnoreFile| IgnoreFileView { base: f.base@, rules: rules_view(f.rules@) })
}

/// Whether the first `k` ignore files ignore `path`: each file whose
/// directory holds the path applies its rules in order, the last match
/// deciding.
pub open spec fn ignored_upto(files: Seq<IgnoreFileView>, path: Seq<char>, is_dir: bool, k: int) -> bool
    decreases k,
{
    if k <= 0 {
        false
    } else {
        let prev = ignored_upto(files, path, is_dir, k - 1);
        match relative_spec(path, files[k - 1].base) {
            None => prev,
            Some(rel) => rules_verdict(
                files[k - 1].rules,
                file_name_spec(path),
                rel,
                is_dir,
                prev,
                files[k - 1].rules.len() as int,
            ),
        }
    }
}

fn rule_matches_exec(rule: &IgnoreRule, name: &String, rel: &String) -> (r: bool)
    ensures
        r == rule_matches(rule@.pattern, rule@.ignore_case, rule.anchored, name@, rel@),
{
    if rule.anchored {
        return rule.regex.is_match(rel.as_str());
    }
    if rule.regex.is_match(name.as_str()) {
        return true;
    }
    let rc = chars_of(rel.as_str());
    let mut i: usize = 0;
    while i < rc.len()
        invariant
            i <= rc@.len(),
            rc@ == rel@,
            !rule.anchored,
            forall|j: int|
                0 <= j < i && rc@[j] == '/' ==> !#[trigger] regex_matches(rule@.pattern, rule@.ignore_case, rel@.skip(j + 1)),
        decreases rc.len() - i,
    {
        if rc[i] == '/' {
            let tail = slice_of(&rc, i + 1, rc.len());
            assert(tail@ =~= rel@.skip(i + 1));
            let t = string_of(&tail);
            if rule.regex.is_match(t.as_str()) {
                assert(rel@[i as int] == '/' && regex_matches(rule@.pattern, rule@.ignore_case, rel@.skip(i + 1)));
                return true;
            }
        }
        i += 1;
    }
    rule.regex.is_match(rel.as_str())
}

/// Whether the ignore files in `stack` (outermost first) ignore `path`.
pub fn is_ignored(stack: &[IgnoreFile], path: &str, is_dir: bool) -> (r: bool)
    ensures
        r == ignored_upto(files_view(stack@), path@, is_dir, stack@.len() as int),
{
    let ghost fv = files_view(stack@);
    let name = file_name(path);
    let mut ignored = false;
    let mut k: usize = 0;
    while k < stack.len()
        invariant
            k <= stack@.len(),
            fv == files_view(stack@),
            name@ == file_name_spec(path@),
            ignored == ignored_upto(fv, path@, is_dir, k as int),
        decreases stack.len() - k,
    {
        let file = &stack[k];
        assert(fv[k as int].rules == rules_view(file.rules@));
        match relative_posix(path, file.base.as_str()) {
            None => {},
            Some(rel) => {
                let ghost start = ignored;
                let mut j: usize = 0;
                while j < file.rules.len()
                    invariant
                        j <= file.rules@.len(),
                        fv[k as int].rules == rules_view(file.rules@),
                        name@ == file_name_spec(path@),
                        ignored == rules_verdict(fv[k as int].rules, name@, rel@, is_dir, start, j as int),
                    decreases file.rules.len() - j,
                {
                    let rule = &file.rules[j];
                    assert(fv[k as int].rules[j as int] == rule@);
                    let matched = if rule.dir_only && !is_dir {
                        false
                    } else {
                        rule_matches_exec(rule, &name, &rel)
                    };
                    ignored = apply_rule(ignored, rule, is_dir, matched);
                    j += 1;
                }
            },
        }
        k += 1;
    }
    ignored
}

} // verus!
