//! The system prompt, assembled from named sections.
//!
//! Every section other than `preamble` is rendered as
//! `<name>\ncontent\n</name>`; the ordered section list is kept so later
//! turns can send only the sections that changed.

use vstd::prelude::*;
use crate::assoc::{
    assoc_get, assoc_of, copy_string, insert_opt, map_of_pairs, opt_pairs, position_str, sorted_insert,
    str_pairs,
};
use crate::skills::{format_skills_for_prompt, skills_prompt_spec, Skill, SkillFileReadTool};
use crate::text::{
    chars_of, eq_chars, join, join_spec, push_all, push_str, replace, replace_spec, slice_of,
    string_of, to_string, trim, trim_spec, trim_str, views,
};

verus! {

#[derive(Debug, Clone)]
pub struct ContextFile {
    pub path: String,
    pub content: String,
}

/// Inputs to the prompt builder. Maps are given as key/value lists; the
/// `sections` list is an ordered map (keys strictly increasing).
pub struct BuildSystemPromptOptions<'a> {
    /// Replaces the default preamble.
    pub custom_prompt: Option<&'a str>,
    /// Bypasses section assembly entirely and uses this exact text.
    pub force_system_prompt: Option<&'a str>,
    /// Tools the model has access to. Defaults to read/bash/edit/write.
    pub selected_tools: Option<&'a [String]>,
    /// One-line description per tool for the `tools` section.
    pub tool_snippets: &'a [(String, String)],
    /// Extra rules per tool for the `rules` section.
    pub tool_guidelines: &'a [(String, Vec<String>)],
    /// Extra global rules.
    pub prompt_guidelines: &'a [String],
    /// Text for the `addendum` section.
    pub append_system_prompt: Option<&'a str>,
    /// Custom sections appended after the built-in ones.
    pub sections: &'a [(String, String)],
    pub cwd: Option<&'a str>,
    /// Project instruction files (ZWORK.md, AGENTS.md, ...).
    pub context_files: &'a [ContextFile],
    pub skills: &'a [Skill],
}

pub const DEFAULT_PREAMBLE: &'static str = "You are an expert assistant operating inside zWork, an agent harness. You help users by reading files, executing commands, editing code, writing new files, and operating the connected tools and integrations on their behalf.";

pub open spec fn sv(v: Seq<String>) -> Seq<Seq<char>> {
    v.map_values(|s: String| s@)
}

pub open spec fn default_tools() -> Seq<Seq<char>> {
    seq!["read"@, "bash"@, "edit"@, "write"@]
}

pub open spec fn selected_spec(o: BuildSystemPromptOptions) -> Seq<Seq<char>> {
    match o.selected_tools {
        Some(s) => sv(s@),
        None => default_tools(),
    }
}

pub open spec fn guideline_pairs(g: Seq<(String, Vec<String>)>) -> Seq<(Seq<char>, Seq<Seq<char>>)> {
    g.map_values(|p: (String, Vec<String>)| (p.0@, sv(p.1@)))
}

// ---------------------------------------------------------------------------
// Section names
// ---------------------------------------------------------------------------

pub open spec fn name_tail_ok(c: char) -> bool {
    ('a' <= c && c <= 'z') || ('0' <= c && c <= '9') || c == '_' || c == '-'
}

pub open spec fn valid_section_name(name: Seq<char>) -> bool {
    &&& name.len() > 0
    &&& 'a' <= name[0] && name[0] <= 'z'
    &&& forall|i: int| 1 <= i < name.len() ==> name_tail_ok(#[trigger] name[i])
}

pub fn is_valid_section_name(name: &str) -> (r: bool)
    ensures
        r == valid_section_name(name@),
{
    let cs = chars_of(name);
    if cs.len() == 0 || !('a' <= cs[0] && cs[0] <= 'z') {
        return false;
    }
    let mut i: usize = 1;
    while i < cs.len()
        invariant
            1 <= i <= cs.len(),
            cs@ == name@,
            forall|j: int| 1 <= j < i ==> name_tail_ok(#[trigger] cs@[j]),
        decreases cs.len() - i,
    {
        let c = cs[i];
        if !(('a' <= c && c <= 'z') || ('0' <= c && c <= '9') || c == '_' || c == '-') {
            return false;
        }
        i += 1;
    }
    true
}

pub open spec fn invalid_section_msg(name: Seq<char>) -> Seq<char> {
    "Invalid system prompt section name: "@ + name
}

fn validate_section_name(name: &str) -> (r: Result<(), Vec<char>>)
    ensures
        match r {
            Ok(()) => valid_section_name(name@) && name@ != "preamble"@,
            Err(m) => !(valid_section_name(name@) && name@ != "preamble"@) && m@ == invalid_section_msg(name@),
        },
{
    let cs = chars_of(name);
    if !is_valid_section_name(name) || eq_chars(&cs, &chars_of("preamble")) {
        let mut m = chars_of("Invalid system prompt section name: ");
        push_all(&mut m, &cs);
        return Err(m);
    }
    Ok(())
}

// ---------------------------------------------------------------------------
// Rules
// ---------------------------------------------------------------------------

pub open spec fn bash_hint() -> Seq<char> {
    "Use bash for file operations like ls, rg, find"@
}

pub open spec fn wants_bash_hint(sel: Seq<Seq<char>>) -> bool {
    (sel.contains("bash"@) || sel.contains("powershell"@)) && !sel.contains("grep"@) && !sel.contains(
        "find"@,
    ) && !sel.contains("ls"@)
}

/// Guidelines of the first `k` selected tools, in selection order.
pub open spec fn tool_rules(sel: Seq<Seq<char>>, g: Seq<(Seq<char>, Seq<Seq<char>>)>, k: int) -> Seq<
    Seq<char>,
>
    decreases k,
{
    if k <= 0 {
        Seq::empty()
    } else {
        tool_rules(sel, g, k - 1) + match assoc_get(g, sel[k - 1]) {
            Some(v) => v,
            None => Seq::empty(),
        }
    }
}

pub open spec fn raw_rules(o: BuildSystemPromptOptions) -> Seq<Seq<char>> {
    let sel = selected_spec(o);
    (if wants_bash_hint(sel) {
        seq![bash_hint()]
    } else {
        Seq::empty()
    }) + tool_rules(sel, guideline_pairs(o.tool_guidelines@), sel.len() as int) + sv(
        o.prompt_guidelines@,
    ) + seq!["Be concise in your responses"@, "Show file paths clearly when working with files"@]
}

/// The first `k` rules trimmed, without empty ones and without repeats
/// (first occurrence kept).
pub open spec fn clean_rules(rules: Seq<Seq<char>>, k: int) -> Seq<Seq<char>>
    decreases k,
{
    if k <= 0 {
        Seq::empty()
    } else {
        let prev = clean_rules(rules, k - 1);
        let t = trim_spec(rules[k - 1]);
        if t.len() == 0 || prev.contains(t) {
            prev
        } else {
            prev.push(t)
        }
    }
}

pub open spec fn rules_spec(o: BuildSystemPromptOptions) -> Seq<Seq<char>> {
    clean_rules(raw_rules(o), raw_rules(o).len() as int)
}

fn contains_str(v: &[String], t: &str) -> (r: bool)
    ensures
        r == sv(v@).contains(t@),
{
    let tc = chars_of(t);
    let mut i: usize = 0;
    while i < v.len()
        invariant
            i <= v@.len(),
            tc@ == t@,
            forall|j: int| 0 <= j < i ==> sv(v@)[j] != t@,
        decreases v.len() - i,
    {
        if eq_chars(&chars_of(v[i].as_str()), &tc) {
            assert(sv(v@)[i as int] == t@);
            return true;
        }
        i += 1;
    }
    false
}

fn contains_chars(v: &Vec<Vec<char>>, t: &[char]) -> (r: bool)
    ensures
        r == views(v@).contains(t@),
{
    let mut i: usize = 0;
    while i < v.len()
        invariant
            i <= v@.len(),
            forall|j: int| 0 <= j < i ==> views(v@)[j] != t@,
        decreases v.len() - i,
    {
        if eq_chars(&v[i], t) {
            assert(views(v@)[i as int] == t@);
            return true;
        }
        i += 1;
    }
    false
}

fn default_tool_list() -> (r: Vec<String>)
    ensures
        sv(r@) == default_tools(),
{
    let mut v: Vec<String> = Vec::new();
    v.push(to_string("read"));
    v.push(to_string("bash"));
    v.push(to_string("edit"));
    v.push(to_string("write"));
    assert(sv(v@) =~= default_tools());
    v
}

fn copy_strings(v: &[String]) -> (r: Vec<String>)
    ensures
        sv(r@) == sv(v@),
{
    let mut out: Vec<String> = Vec::new();
    let mut i: usize = 0;
    while i < v.len()
        invariant
            i <= v@.len(),
            sv(out@) == sv(v@).take(i as int),
        decreases v.len() - i,
    {
        push_string(&mut out, copy_string(&v[i]));
        assert(sv(v@).take(i + 1) =~= sv(v@).take(i as int).push(v@[i as int]@));
        i += 1;
    }
    assert(sv(v@).take(v@.len() as int) == sv(v@));
    out
}

fn selected_list(o: &BuildSystemPromptOptions) -> (r: Vec<String>)
    ensures
        sv(r@) == selected_spec(*o),
{
    match o.selected_tools {
        Some(s) => copy_strings(s),
        None => default_tool_list(),
    }
}

/// Guidelines registered for `tool`, if any.
fn guidelines_for(g: &[(String, Vec<String>)], tool: &str) -> (r: Option<Vec<String>>)
    ensures
        match r {
            Some(v) => assoc_get(guideline_pairs(g@), tool@) == Some(sv(v@)),
            None => assoc_get(guideline_pairs(g@), tool@) is None,
        },
{
    let ghost s = guideline_pairs(g@);
    let tc = chars_of(tool);
    let mut i: usize = 0;
    assert(s.skip(0) == s);
    while i < g.len()
        invariant
            i <= g@.len(),
            s == guideline_pairs(g@),
            tc@ == tool@,
            assoc_get(s, tool@) == assoc_get(s.skip(i as int), tool@),
        decreases g.len() - i,
    {
        assert(s.skip(i as int)[0] == s[i as int]);
        if eq_chars(&chars_of(g[i].0.as_str()), &tc) {
            return Some(copy_strings(&g[i].1));
        }
        assert(s.skip(i as int).drop_first() == s.skip(i + 1));
        i += 1;
    }
    None
}

fn push_string(v: &mut Vec<String>, s: String)
    ensures
        sv(final(v)@) == sv(old(v)@).push(s@),
{
    let ghost x = s@;
    v.push(s);
    assert(sv(v@) =~= sv(old(v)@).push(x));
}

fn build_rules(selected: &Vec<String>, options: &BuildSystemPromptOptions) -> (r: Vec<Vec<char>>)
    requires
        sv(selected@) == selected_spec(*options),
    ensures
        views(r@) == rules_spec(*options),
{
    let ghost sel = sv(selected@);
    let mut rules: Vec<String> = Vec::new();
    assert(sv(rules@) =~= Seq::<Seq<char>>::empty());
    if (contains_str(selected, "bash") || contains_str(selected, "powershell")) && !contains_str(
        selected,
        "grep",
    ) && !contains_str(selected, "find") && !contains_str(selected, "ls") {
        push_string(&mut rules, to_string("Use bash for file operations like ls, rg, find"));
    }
    let ghost head = sv(rules@);
    let mut k: usize = 0;
    while k < selected.len()
        invariant
            k <= selected@.len(),
            sel == sv(selected@),
            sv(rules@) == head + tool_rules(sel, guideline_pairs(options.tool_guidelines@), k as int),
        decreases selected.len() - k,
    {
        assert(sel[k as int] == selected@[k as int]@);
        match guidelines_for(options.tool_guidelines, selected[k].as_str()) {
            Some(gs) => {
                let mut j: usize = 0;
                let ghost before = sv(rules@);
                while j < gs.len()
                    invariant
                        j <= gs@.len(),
                        sv(rules@) == before + sv(gs@).take(j as int),
                    decreases gs.len() - j,
                {
                    push_string(&mut rules, copy_string(&gs[j]));
                    assert(sv(gs@).take(j + 1) =~= sv(gs@).take(j as int).push(gs@[j as int]@));
                    j += 1;
                }
                assert(sv(gs@).take(gs@.len() as int) == sv(gs@));
            },
            None => {},
        }
        k += 1;
    }
    let ghost mid = sv(rules@);
    let pg = options.prompt_guidelines;
    let mut j: usize = 0;
    while j < pg.len()
        invariant
            j <= pg@.len(),
            pg@ == options.prompt_guidelines@,
            sv(rules@) == mid + sv(pg@).take(j as int),
        decreases pg.len() - j,
    {
        push_string(&mut rules, copy_string(&pg[j]));
        assert(sv(pg@).take(j + 1) =~= sv(pg@).take(j as int).push(pg@[j as int]@));
        j += 1;
    }
    assert(sv(pg@).take(pg@.len() as int) == sv(pg@));
    push_string(&mut rules, to_string("Be concise in your responses"));
    push_string(&mut rules, to_string("Show file paths clearly when working with files"));
    let ghost raw = sv(rules@);
    assert(raw =~= raw_rules(*options));
    let mut out: Vec<Vec<char>> = Vec::new();
    let mut i: usize = 0;
    assert(views(out@) =~= Seq::<Seq<char>>::empty());
    while i < rules.len()
        invariant
            i <= rules@.len(),
            raw == sv(rules@),
            views(out@) == clean_rules(raw, i as int),
        decreases rules.len() - i,
    {
        let t = trim_str(rules[i].as_str());
        assert(raw[i as int] == rules@[i as int]@);
        if t.len() > 0 && !contains_chars(&out, &t) {
            let ghost before = views(out@);
            out.push(t);
            assert(views(out@) =~= before.push(t@));
        }
        i += 1;
    }
    out
}

// ---------------------------------------------------------------------------
// Tools, project context, skills
// ---------------------------------------------------------------------------

/// `- tool: snippet` for the first `k` selected tools that have a snippet.
pub open spec fn tool_lines(sel: Seq<Seq<char>>, snippets: Seq<(Seq<char>, Seq<char>)>, k: int) -> Seq<
    Seq<char>,
>
    decreases k,
{
    if k <= 0 {
        Seq::empty()
    } else {
        let prev = tool_lines(sel, snippets, k - 1);
        match assoc_get(snippets, sel[k - 1]) {
            Some(sn) => prev.push("- "@ + sel[k - 1] + ": "@ + sn),
            None => prev,
        }
    }
}

pub open spec fn tools_section_spec(sel: Seq<Seq<char>>, snippets: Seq<(Seq<char>, Seq<char>)>) -> Seq<
    char,
> {
    let lines = tool_lines(sel, snippets, sel.len() as int);
    (if lines.len() == 0 {
        "(none)"@
    } else {
        join_spec(lines, seq!['\n'])
    }) + "\n\nIn addition to the tools above, you may have access to other custom tools depending on the project."@
}

fn build_tools_section(selected: &Vec<String>, snippets: &[(String, String)]) -> (r: Vec<char>)
    ensures
        r@ == tools_section_spec(sv(selected@), str_pairs(snippets@)),
{
    let ghost sel = sv(selected@);
    let snip: Vec<(String, String)> = copy_pairs(snippets);
    let mut lines: Vec<Vec<char>> = Vec::new();
    let mut k: usize = 0;
    assert(views(lines@) =~= Seq::<Seq<char>>::empty());
    while k < selected.len()
        invariant
            k <= selected@.len(),
            sel == sv(selected@),
            str_pairs(snip@) == str_pairs(snippets@),
            views(lines@) == tool_lines(sel, str_pairs(snippets@), k as int),
        decreases selected.len() - k,
    {
        assert(sel[k as int] == selected@[k as int]@);
        match position_str(&snip, selected[k].as_str()) {
            Some(p) => {
                let mut line = chars_of("- ");
                push_str(&mut line, selected[k].as_str());
                push_str(&mut line, ": ");
                push_str(&mut line, snip[p].1.as_str());
                let ghost before = views(lines@);
                lines.push(line);
                assert(views(lines@) =~= before.push(line@));
            },
            None => {},
        }
        k += 1;
    }
    let mut out = if lines.len() == 0 {
        chars_of("(none)")
    } else {
        let nl = ['\n'];
        assert(nl@ == seq!['\n']);
        join(&lines, &nl)
    };
    push_str(&mut out, "\n\nIn addition to the tools above, you may have access to other custom tools depending on the project.");
    out
}

fn copy_pairs(p: &[(String, String)]) -> (r: Vec<(String, String)>)
    ensures
        str_pairs(r@) == str_pairs(p@),
{
    let mut out: Vec<(String, String)> = Vec::new();
    let mut i: usize = 0;
    while i < p.len()
        invariant
            i <= p@.len(),
            str_pairs(out@) == str_pairs(p@).take(i as int),
        decreases p.len() - i,
    {
        let ghost before = str_pairs(out@);
        let a = copy_string(&p[i].0);
        let b = copy_string(&p[i].1);
        out.push((a, b));
        assert(str_pairs(out@) =~= before.push((p@[i as int].0@, p@[i as int].1@)));
        assert(str_pairs(p@).take(i + 1) =~= str_pairs(p@).take(i as int).push((p@[i as int].0@, p@[i as int].1@)));
        i += 1;
    }
    assert(str_pairs(p@).take(p@.len() as int) == str_pairs(p@));
    out
}

pub open spec fn ctx_block(f: ContextFile) -> Seq<char> {
    "<project_instructions path=\""@ + f.path@ + "\">\n"@ + f.content@ + "\n</project_instructions>"@
}

pub open spec fn project_context_spec(files: Seq<ContextFile>) -> Option<Seq<char>> {
    if files.len() == 0 {
        None
    } else {
        Some(
            "Project-specific instructions and guidelines:\n\n"@ + join_spec(
                files.map_values(|f: ContextFile| ctx_block(f)),
                "\n\n"@,
            ),
        )
    }
}

fn build_project_context(files: &[ContextFile]) -> (r: Option<Vec<char>>)
    ensures
        match r {
            Some(v) => project_context_spec(files@) == Some(v@),
            None => project_context_spec(files@) is None,
        },
{
    if files.len() == 0 {
        return None;
    }
    let mut blocks: Vec<Vec<char>> = Vec::new();
    let mut i: usize = 0;
    while i < files.len()
        invariant
            i <= files@.len(),
            views(blocks@) == files@.map_values(|f: ContextFile| ctx_block(f)).take(i as int),
        decreases files.len() - i,
    {
        let mut b = chars_of("<project_instructions path=\"");
        push_str(&mut b, files[i].path.as_str());
        push_str(&mut b, "\">\n");
        push_str(&mut b, files[i].content.as_str());
        push_str(&mut b, "\n</project_instructions>");
        let ghost before = views(blocks@);
        assert(b@ == ctx_block(files@[i as int]));
        blocks.push(b);
        assert(views(blocks@) =~= before.push(b@));
        assert(files@.map_values(|f: ContextFile| ctx_block(f)).take(i + 1) =~= files@.map_values(|f: ContextFile| ctx_block(f)).take(i as int).push(ctx_block(files@[i as int])));
        i += 1;
    }
    assert(files@.map_values(|f: ContextFile| ctx_block(f)).take(files@.len() as int) == files@.map_values(|f: ContextFile| ctx_block(f)));
    let mut out = chars_of("Project-specific instructions and guidelines:\n\n");
    let sep = chars_of("\n\n");
    push_all(&mut out, &join(&blocks, &sep));
    Some(out)
}


// ---------------------------------------------------------------------------
// Assembling the sections
// ---------------------------------------------------------------------------

pub open spec fn preamble_spec(o: BuildSystemPromptOptions) -> Seq<char> {
    match o.custom_prompt {
        Some(p) => p@,
        None => DEFAULT_PREAMBLE@,
    }
}

pub open spec fn rule_lines(rules: Seq<Seq<char>>) -> Seq<Seq<char>> {
    rules.map_values(|r: Seq<char>| "- "@ + r)
}

pub open spec fn rules_content(o: BuildSystemPromptOptions) -> Option<Seq<char>> {
    let r = rules_spec(o);
    if r.len() == 0 {
        None
    } else {
        Some(join_spec(rule_lines(r), seq!['\n']))
    }
}

pub open spec fn addendum_content(o: BuildSystemPromptOptions) -> Option<Seq<char>> {
    match o.append_system_prompt {
        Some(a) => if trim_spec(a@).len() > 0 {
            Some(trim_spec(a@))
        } else {
            None
        },
        None => None,
    }
}

/// The tool the skills section tells the model to read skill files with.
pub open spec fn skills_tool(sel: Seq<Seq<char>>) -> Option<SkillFileReadTool> {
    if sel.contains("read"@) {
        Some(SkillFileReadTool::Read)
    } else if sel.contains("bash"@) {
        Some(SkillFileReadTool::Bash)
    } else {
        None
    }
}

pub open spec fn skills_content(o: BuildSystemPromptOptions) -> Option<Seq<char>> {
    if o.skills@.len() == 0 {
        None
    } else {
        match skills_tool(selected_spec(o)) {
            Some(t) => {
                let f = trim_spec(skills_prompt_spec(o.skills@, t));
                if f.len() > 0 {
                    Some(f)
                } else {
                    None
                }
            },
            None => None,
        }
    }
}

pub open spec fn cwd_content(o: BuildSystemPromptOptions) -> Option<Seq<char>> {
    match o.cwd {
        Some(c) => Some(replace_spec(c@, seq!['\\'], "/"@)),
        None => None,
    }
}

pub open spec fn opt_section(name: Seq<char>, content: Option<Seq<char>>) -> Seq<(Seq<char>, Seq<char>)> {
    match content {
        Some(c) => seq![(name, c)],
        None => Seq::empty(),
    }
}

/// The built-in sections, in order.
pub open spec fn builtin_sections(o: BuildSystemPromptOptions) -> Seq<(Seq<char>, Seq<char>)> {
    seq![
        ("preamble"@, preamble_spec(o)),
        ("tools"@, tools_section_spec(selected_spec(o), str_pairs(o.tool_snippets@))),
    ] + opt_section("rules"@, rules_content(o)) + opt_section("addendum"@, addendum_content(o))
        + opt_section("project_context"@, project_context_spec(o.context_files@)) + opt_section(
        "skills"@,
        skills_content(o),
    ) + opt_section("cwd"@, cwd_content(o))
}

/// Replaces the content of the first section named `n`, or appends `(n, c)`.
pub open spec fn set_or_push(s: Seq<(Seq<char>, Seq<char>)>, n: Seq<char>, c: Seq<char>) -> Seq<
    (Seq<char>, Seq<char>),
>
    decreases s.len(),
{
    if s.len() == 0 {
        seq![(n, c)]
    } else if s[0].0 == n {
        s.update(0, (n, c))
    } else {
        seq![s[0]] + set_or_push(s.drop_first(), n, c)
    }
}

pub open spec fn section_name_ok(n: Seq<char>) -> bool {
    valid_section_name(n) && n != "preamble"@
}

/// `base` with the first `k` custom sections applied in order; the first
/// invalid name is reported.
pub open spec fn with_custom(
    base: Seq<(Seq<char>, Seq<char>)>,
    custom: Seq<(Seq<char>, Seq<char>)>,
    k: int,
) -> Result<Seq<(Seq<char>, Seq<char>)>, Seq<char>>
    decreases k,
{
    if k <= 0 {
        Ok(base)
    } else {
        match with_custom(base, custom, k - 1) {
            Err(e) => Err(e),
            Ok(s) => if section_name_ok(custom[k - 1].0) {
                Ok(set_or_push(s, custom[k - 1].0, custom[k - 1].1))
            } else {
                Err(invalid_section_msg(custom[k - 1].0))
            },
        }
    }
}

pub open spec fn sections_spec(o: BuildSystemPromptOptions) -> Result<Seq<(Seq<char>, Seq<char>)>, Seq<char>> {
    with_custom(builtin_sections(o), str_pairs(o.sections@), o.sections@.len() as int)
}

proof fn lemma_with_custom_err(
    base: Seq<(Seq<char>, Seq<char>)>,
    custom: Seq<(Seq<char>, Seq<char>)>,
    i: int,
    k: int,
)
    requires
        0 <= i <= k,
        with_custom(base, custom, i) is Err,
    ensures
        with_custom(base, custom, k) == with_custom(base, custom, i),
    decreases k - i,
{
    if k > i {
        lemma_with_custom_err(base, custom, i, k - 1);
    }
}

proof fn lemma_set_or_push_prefix(s: Seq<(Seq<char>, Seq<char>)>, n: Seq<char>, c: Seq<char>, i: int)
    requires
        0 <= i <= s.len(),
        forall|j: int| 0 <= j < i ==> s[j].0 != n,
    ensures
        set_or_push(s, n, c) == s.take(i) + set_or_push(s.skip(i), n, c),
    decreases i,
{
    if i > 0 {
        lemma_set_or_push_prefix(s.drop_first(), n, c, i - 1);
        assert(s.drop_first().take(i - 1) == s.take(i).drop_first());
        assert(s.drop_first().skip(i - 1) == s.skip(i));
        assert(s.take(i) == seq![s[0]] + s.take(i).drop_first());
    } else {
        assert(s.skip(0) == s);
    }
}

fn push_pair(v: &mut Vec<(String, String)>, n: String, c: String)
    ensures
        str_pairs(final(v)@) == str_pairs(old(v)@).push((n@, c@)),
{
    let ghost x = (n@, c@);
    v.push((n, c));
    assert(str_pairs(v@) =~= str_pairs(old(v)@).push(x));
}

fn set_or_push_exec(v: &mut Vec<(String, String)>, n: String, c: String)
    ensures
        str_pairs(final(v)@) == set_or_push(str_pairs(old(v)@), n@, c@),
{
    let ghost s = str_pairs(v@);
    let nc = chars_of(n.as_str());
    let mut i: usize = 0;
    while i < v.len()
        invariant
            i <= v@.len(),
            s == str_pairs(v@),
            s == str_pairs(old(v)@),
            nc@ == n@,
            forall|j: int| 0 <= j < i ==> s[j].0 != n@,
        decreases v.len() - i,
    {
        assert(s[i as int].0 == v@[i as int].0@);
        if eq_chars(&chars_of(v[i].0.as_str()), &nc) {
            proof {
                lemma_set_or_push_prefix(s, n@, c@, i as int);
                assert(s.skip(i as int)[0] == s[i as int]);
            }
            let ghost x = (n@, c@);
            assert(s.skip(i as int)[0].0 == n@);
            assert(set_or_push(s.skip(i as int), n@, c@) == s.skip(i as int).update(0, x));
            v.set(i, (n, c));
            assert(str_pairs(v@) =~= s.take(i as int) + s.skip(i as int).update(0, x));
            return;
        }
        i += 1;
    }
    proof {
        lemma_set_or_push_prefix(s, n@, c@, i as int);
        assert(s.skip(i as int) == Seq::<(Seq<char>, Seq<char>)>::empty());
    }
    push_pair(v, n, c);
    assert(str_pairs(v@) =~= s.take(i as int) + seq![(n@, c@)]);
}

fn rules_section(selected: &Vec<String>, options: &BuildSystemPromptOptions) -> (r: Option<Vec<char>>)
    requires
        sv(selected@) == selected_spec(*options),
    ensures
        match r {
            Some(v) => rules_content(*options) == Some(v@),
            None => rules_content(*options) is None,
        },
{
    let rules = build_rules(selected, options);
    if rules.len() == 0 {
        return None;
    }
    let ghost rs = views(rules@);
    let mut lines: Vec<Vec<char>> = Vec::new();
    let mut j: usize = 0;
    assert(views(lines@) =~= rule_lines(rs).take(0));
    while j < rules.len()
        invariant
            j <= rules@.len(),
            rs == views(rules@),
            views(lines@) == rule_lines(rs).take(j as int),
        decreases rules.len() - j,
    {
        let mut line = chars_of("- ");
        push_all(&mut line, &rules[j]);
        let ghost before = views(lines@);
        lines.push(line);
        assert(views(lines@) =~= before.push(line@));
        assert(rule_lines(rs).take(j + 1) =~= rule_lines(rs).take(j as int).push("- "@ + rs[j as int]));
        j += 1;
    }
    assert(rule_lines(rs).take(rules@.len() as int) == rule_lines(rs));
    let nl = ['\n'];
    assert(nl@ == seq!['\n']);
    Some(join(&lines, &nl))
}

fn skills_section(selected: &Vec<String>, options: &BuildSystemPromptOptions) -> (r: Option<Vec<char>>)
    requires
        sv(selected@) == selected_spec(*options),
    ensures
        match r {
            Some(v) => skills_content(*options) == Some(v@),
            None => skills_content(*options) is None,
        },
{
    if options.skills.len() == 0 {
        return None;
    }
    let tool = if contains_str(selected, "read") {
        SkillFileReadTool::Read
    } else if contains_str(selected, "bash") {
        SkillFileReadTool::Bash
    } else {
        return None;
    };
    let f = format_skills_for_prompt(options.skills, tool);
    let t = trim_str(f.as_str());
    if t.len() > 0 {
        Some(t)
    } else {
        None
    }
}

fn push_opt(v: &mut Vec<(String, String)>, name: &str, c: Option<Vec<char>>)
    ensures
        str_pairs(final(v)@) == str_pairs(old(v)@) + opt_section(
            name@,
            match c {
                Some(x) => Some(x@),
                None => None,
            },
        ),
{
    match c {
        Some(x) => {
            push_pair(v, to_string(name), string_of(&x));
        },
        None => {
            assert(str_pairs(v@) =~= str_pairs(v@) + Seq::<(Seq<char>, Seq<char>)>::empty());
        },
    }
}

#[verifier::rlimit(40)]
fn builtin_sections_exec(options: &BuildSystemPromptOptions) -> (r: Vec<(String, String)>)
    ensures
        str_pairs(r@) == builtin_sections(*options),
{
    let selected = selected_list(options);
    let mut secs: Vec<(String, String)> = Vec::new();
    let pre = match options.custom_prompt {
        Some(p) => to_string(p),
        None => to_string(DEFAULT_PREAMBLE),
    };
    push_pair(&mut secs, to_string("preamble"), pre);
    let tools = build_tools_section(&selected, options.tool_snippets);
    push_pair(&mut secs, to_string("tools"), string_of(&tools));
    let ghost b0 = str_pairs(secs@);
    push_opt(&mut secs, "rules", rules_section(&selected, options));
    let ghost b1 = str_pairs(secs@);
    let addendum = match options.append_system_prompt {
        Some(a) => {
            let t = trim_str(a);
            if t.len() > 0 {
                Some(t)
            } else {
                None
            }
        },
        None => None,
    };
    push_opt(&mut secs, "addendum", addendum);
    let ghost b2 = str_pairs(secs@);
    push_opt(&mut secs, "project_context", build_project_context(options.context_files));
    let ghost b3 = str_pairs(secs@);
    push_opt(&mut secs, "skills", skills_section(&selected, options));
    let ghost b4 = str_pairs(secs@);
    let cwd = match options.cwd {
        Some(c) => {
            let cs = chars_of(c);
            let bs = ['\\'];
            let sl = chars_of("/");
            assert(bs@ == seq!['\\']);
            Some(replace(&cs, &bs, &sl))
        },
        None => None,
    };
    push_opt(&mut secs, "cwd", cwd);
    assert(str_pairs(secs@) =~= builtin_sections(*options));
    secs
}

/// The ordered `(name, content)` sections of the prompt. Custom sections
/// (taken in the order given) replace a section of the same name in place
/// or are appended; an invalid or reserved custom name is an error.
pub fn build_system_prompt_sections(options: &BuildSystemPromptOptions) -> (r: Result<Vec<(String, String)>, String>)
    ensures
        match r {
            Ok(v) => sections_spec(*options) == Ok::<Seq<(Seq<char>, Seq<char>)>, Seq<char>>(str_pairs(v@)),
            Err(e) => sections_spec(*options) == Err::<Seq<(Seq<char>, Seq<char>)>, Seq<char>>(e@),
        },
{
    let mut secs = builtin_sections_exec(options);
    let ghost base = builtin_sections(*options);
    let custom = options.sections;
    let ghost cs = str_pairs(custom@);
    let mut i: usize = 0;
    while i < custom.len()
        invariant
            i <= custom@.len(),
            custom@ == options.sections@,
            base == builtin_sections(*options),
            cs == str_pairs(custom@),
            with_custom(base, cs, i as int) == Ok::<Seq<(Seq<char>, Seq<char>)>, Seq<char>>(str_pairs(secs@)),
        decreases custom.len() - i,
    {
        assert(cs[i as int] == (custom@[i as int].0@, custom@[i as int].1@));
        match validate_section_name(custom[i].0.as_str()) {
            Err(m) => {
                proof {
                    lemma_with_custom_err(base, cs, i + 1, custom@.len() as int);
                }
                return Err(string_of(&m));
            },
            Ok(()) => {},
        }
        set_or_push_exec(&mut secs, copy_string(&custom[i].0), copy_string(&custom[i].1));
        i += 1;
    }
    Ok(secs)
}

// ---------------------------------------------------------------------------
// Rendering
// ---------------------------------------------------------------------------

pub open spec fn render_one(p: (Seq<char>, Seq<char>)) -> Seq<char> {
    if p.0 == "preamble"@ {
        trim_spec(p.1)
    } else {
        "<"@ + p.0 + ">\n"@ + trim_spec(p.1) + "\n</"@ + p.0 + ">"@
    }
}

/// The rendered form of each of the first `k` sections whose trimmed
/// content is not empty.
pub open spec fn rendered_parts(s: Seq<(Seq<char>, Seq<char>)>, k: int) -> Seq<Seq<char>>
    decreases k,
{
    if k <= 0 {
        Seq::empty()
    } else {
        let prev = rendered_parts(s, k - 1);
        if trim_spec(s[k - 1].1).len() == 0 {
            prev
        } else {
            prev.push(render_one(s[k - 1]))
        }
    }
}

pub open spec fn render_spec(s: Seq<(Seq<char>, Seq<char>)>) -> Seq<char> {
    join_spec(rendered_parts(s, s.len() as int), "\n\n"@)
}

/// The flat text the provider sees.
pub fn render_sections(sections: &[(String, String)]) -> (r: String)
    ensures
        r@ == render_spec(str_pairs(sections@)),
{
    let ghost s = str_pairs(sections@);
    let mut parts: Vec<Vec<char>> = Vec::new();
    let mut i: usize = 0;
    assert(views(parts@) =~= Seq::<Seq<char>>::empty());
    while i < sections.len()
        invariant
            i <= sections@.len(),
            s == str_pairs(sections@),
            views(parts@) == rendered_parts(s, i as int),
        decreases sections.len() - i,
    {
        assert(s[i as int] == (sections@[i as int].0@, sections@[i as int].1@));
        let t = trim_str(sections[i].1.as_str());
        if t.len() > 0 {
            let name = chars_of(sections[i].0.as_str());
            let part = if eq_chars(&name, &chars_of("preamble")) {
                t
            } else {
                let mut p = chars_of("<");
                push_all(&mut p, &name);
                push_str(&mut p, ">\n");
                push_all(&mut p, &t);
                push_str(&mut p, "\n</");
                push_all(&mut p, &name);
                push_str(&mut p, ">");
                p
            };
            let ghost before = views(parts@);
            assert(part@ == render_one(s[i as int]));
            parts.push(part);
            assert(views(parts@) =~= before.push(part@));
        }
        i += 1;
    }
    let sep = chars_of("\n\n");
    string_of(&join(&parts, &sep))
}


// ---------------------------------------------------------------------------
// Prompt state and section patches
// ---------------------------------------------------------------------------

/// State stored on the transcript's system message.
#[derive(Debug, Clone)]
pub struct SystemPromptState {
    /// Free-form text (used only when the prompt was forced).
    pub content: String,
    /// Ordered sections; `None` when forced.
    pub sections: Option<Vec<(String, String)>>,
}

pub open spec fn state_text(content: Seq<char>, sections: Option<Seq<(Seq<char>, Seq<char>)>>) -> Seq<char> {
    match sections {
        Some(s) => {
            let r = render_spec(s);
            if trim_spec(content).len() == 0 {
                r
            } else if r.len() == 0 {
                trim_spec(content)
            } else {
                trim_spec(content) + "\n\n"@ + r
            }
        },
        None => content,
    }
}

pub open spec fn opt_sections(s: Option<Vec<(String, String)>>) -> Option<Seq<(Seq<char>, Seq<char>)>> {
    match s {
        Some(v) => Some(str_pairs(v@)),
        None => None,
    }
}

/// Each section as a present entry of a patch.
pub open spec fn present(s: Seq<(Seq<char>, Seq<char>)>) -> Seq<(Seq<char>, Option<Seq<char>>)> {
    s.map_values(|p: (Seq<char>, Seq<char>)| (p.0, Some(p.1)))
}

impl SystemPromptState {
    pub open spec fn text_spec(&self) -> Seq<char> {
        state_text(self.content@, opt_sections(self.sections))
    }

    /// Flat prompt text.
    pub fn text(&self) -> (r: String)
        ensures
            r@ == self.text_spec(),
    {
        match &self.sections {
            Some(sections) => {
                let rendered = render_sections(sections.as_slice());
                let c = trim_str(self.content.as_str());
                if c.len() == 0 {
                    rendered
                } else if rendered.as_str().unicode_len() == 0 {
                    string_of(&c)
                } else {
                    let mut out = c;
                    push_str(&mut out, "\n\n");
                    push_str(&mut out, rendered.as_str());
                    string_of(&out)
                }
            },
            None => copy_string(&self.content),
        }
    }

    /// The sections as an ordered map whose entries are all present.
    pub fn section_map(&self) -> (r: Option<Vec<(String, Option<String>)>>)
        ensures
            match self.sections {
                Some(s) => r is Some && opt_pairs(r.unwrap()@) == assoc_of(
                    present(str_pairs(s@)),
                    s@.len() as int,
                ),
                None => r is None,
            },
    {
        match &self.sections {
            Some(s) => {
                let ghost ps = present(str_pairs(s@));
                let mut m: Vec<(String, Option<String>)> = Vec::new();
                let mut i: usize = 0;
                assert(opt_pairs(m@) =~= Seq::<(Seq<char>, Option<Seq<char>>)>::empty());
                while i < s.len()
                    invariant
                        i <= s@.len(),
                        ps == present(str_pairs(s@)),
                        opt_pairs(m@) == assoc_of(ps, i as int),
                    decreases s.len() - i,
                {
                    assert(ps[i as int] == (s@[i as int].0@, Some(s@[i as int].1@)));
                    insert_opt(&mut m, copy_string(&s[i].0), Some(copy_string(&s[i].1)));
                    i += 1;
                }
                Some(m)
            },
            None => None,
        }
    }
}

pub open spec fn state_spec(o: BuildSystemPromptOptions) -> Result<(Seq<char>, Option<Seq<(Seq<char>, Seq<char>)>>), Seq<char>> {
    match o.force_system_prompt {
        Some(f) => Ok((f@, None)),
        None => match sections_spec(o) {
            Ok(s) => Ok((Seq::empty(), Some(s))),
            Err(e) => Err(e),
        },
    }
}

/// The prompt state: the forced text alone, or the assembled sections.
pub fn build_system_prompt_state(options: &BuildSystemPromptOptions) -> (r: Result<SystemPromptState, String>)
    ensures
        match r {
            Ok(st) => state_spec(*options) == Ok::<(Seq<char>, Option<Seq<(Seq<char>, Seq<char>)>>), Seq<char>>(
                (st.content@, opt_sections(st.sections)),
            ),
            Err(e) => state_spec(*options) == Err::<(Seq<char>, Option<Seq<(Seq<char>, Seq<char>)>>), Seq<char>>(e@),
        },
{
    match options.force_system_prompt {
        Some(forced) => Ok(SystemPromptState { content: to_string(forced), sections: None }),
        None => match build_system_prompt_sections(options) {
            Ok(secs) => {
                let content = String::new();
                assert(content@ == Seq::<char>::empty());
                Ok(SystemPromptState { content, sections: Some(secs) })
            },
            Err(e) => Err(e),
        },
    }
}

pub open spec fn prompt_spec(o: BuildSystemPromptOptions) -> Result<Seq<char>, Seq<char>> {
    match state_spec(o) {
        Ok(st) => Ok(state_text(st.0, st.1)),
        Err(e) => Err(e),
    }
}

/// The flat prompt text.
pub fn build_system_prompt(options: &BuildSystemPromptOptions) -> (r: Result<String, String>)
    ensures
        match r {
            Ok(t) => prompt_spec(*options) == Ok::<Seq<char>, Seq<char>>(t@),
            Err(e) => prompt_spec(*options) == Err::<Seq<char>, Seq<char>>(e@),
        },
{
    match build_system_prompt_state(options) {
        Ok(st) => Ok(st.text()),
        Err(e) => Err(e),
    }
}

/// Changed or added sections of `cur` (the first `k` entries of the
/// ordered map) inserted into an ordered patch with their new content.
pub open spec fn changed_entries(
    prev: Seq<(Seq<char>, Seq<char>)>,
    cur: Seq<(Seq<char>, Seq<char>)>,
    k: int,
) -> Seq<(Seq<char>, Option<Seq<char>>)>
    decreases k,
{
    if k <= 0 {
        Seq::empty()
    } else {
        let p = changed_entries(prev, cur, k - 1);
        if assoc_get(prev, cur[k - 1].0) != Some(cur[k - 1].1) {
            sorted_insert(p, cur[k - 1].0, Some(cur[k - 1].1))
        } else {
            p
        }
    }
}

/// `patch` with each of the first `k` sections of `prev` that `cur` lacks
/// inserted as removed.
pub open spec fn removed_entries(
    prev: Seq<(Seq<char>, Seq<char>)>,
    cur: Seq<(Seq<char>, Seq<char>)>,
    patch: Seq<(Seq<char>, Option<Seq<char>>)>,
    k: int,
) -> Seq<(Seq<char>, Option<Seq<char>>)>
    decreases k,
{
    if k <= 0 {
        patch
    } else {
        let p = removed_entries(prev, cur, patch, k - 1);
        if assoc_get(cur, prev[k - 1].0) is None {
            sorted_insert(p, prev[k - 1].0, None)
        } else {
            p
        }
    }
}

pub open spec fn patch_spec(previous: Seq<(Seq<char>, Seq<char>)>, current: Seq<(Seq<char>, Seq<char>)>) -> Seq<
    (Seq<char>, Option<Seq<char>>),
> {
    let prev = assoc_of(previous, previous.len() as int);
    let cur = assoc_of(current, current.len() as int);
    removed_entries(prev, cur, changed_entries(prev, cur, cur.len() as int), prev.len() as int)
}

/// The sections that changed between two section lists: changed or added
/// sections with their new content, removed ones as `None`, in name order;
/// `None` when nothing changed.
pub fn diff_system_prompt_sections(previous: &[(String, String)], current: &[(String, String)]) -> (r: Option<
    Vec<(String, Option<String>)>,
>)
    ensures
        match r {
            Some(p) => opt_pairs(p@) == patch_spec(str_pairs(previous@), str_pairs(current@)) && p@.len() > 0,
            None => patch_spec(str_pairs(previous@), str_pairs(current@)).len() == 0,
        },
{
    let prev = map_of_pairs(previous);
    let cur = map_of_pairs(current);
    let ghost pm = str_pairs(prev@);
    let ghost cm = str_pairs(cur@);
    let mut patch: Vec<(String, Option<String>)> = Vec::new();
    let mut i: usize = 0;
    assert(opt_pairs(patch@) =~= Seq::<(Seq<char>, Option<Seq<char>>)>::empty());
    while i < cur.len()
        invariant
            i <= cur@.len(),
            pm == str_pairs(prev@),
            cm == str_pairs(cur@),
            opt_pairs(patch@) == changed_entries(pm, cm, i as int),
        decreases cur.len() - i,
    {
        assert(cm[i as int] == (cur@[i as int].0@, cur@[i as int].1@));
        let same = match position_str(&prev, cur[i].0.as_str()) {
            Some(p) => eq_chars(&chars_of(prev[p].1.as_str()), &chars_of(cur[i].1.as_str())),
            None => false,
        };
        if !same {
            insert_opt(&mut patch, copy_string(&cur[i].0), Some(copy_string(&cur[i].1)));
        }
        i += 1;
    }
    let mut j: usize = 0;
    let ghost base = opt_pairs(patch@);
    while j < prev.len()
        invariant
            j <= prev@.len(),
            pm == str_pairs(prev@),
            cm == str_pairs(cur@),
            opt_pairs(patch@) == removed_entries(pm, cm, base, j as int),
        decreases prev.len() - j,
    {
        assert(pm[j as int] == (prev@[j as int].0@, prev@[j as int].1@));
        if position_str(&cur, prev[j].0.as_str()).is_none() {
            insert_opt(&mut patch, copy_string(&prev[j].0), None);
        }
        j += 1;
    }
    if patch.len() == 0 {
        None
    } else {
        Some(patch)
    }
}

} // verus!
