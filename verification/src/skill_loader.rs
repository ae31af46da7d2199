//! Skill discovery over a listing of the filesystem.
//!
//! Discovery rules: a directory holding `SKILL.md` is a skill root and is
//! not searched further; otherwise direct `.md` children of the root are
//! loaded when they carry a description, and subdirectories are searched
//! for `SKILL.md`. Dot-entries and `node_modules` are skipped. Skills from
//! several locations are merged: the same file reached twice is dropped
//! silently, and of two skills with one name the first wins and the other
//! is reported.
//!
//! The listing ([`FsNode`]) is read by the caller: directories with their
//! entries in path order, files with their real_path path and, for markdown
//! files, their text.

use vstd::prelude::*;
use crate::assoc::{assoc_get, str_pairs};
use crate::path_utils::{file_name, file_name_spec, is_abs, join_path, parent_of, path_join, path_parent, relative_posix, relative_spec};
use crate::skills::{
    description_errors, frontmatter_rejects, frontmatter_spec, name_errors, parse_frontmatter, string_views,
    validate_description, validate_name, bool_word, LoadSkillsResult, Skill, SkillDiagnostic, CONFIG_DIR_NAME,
};
use crate::text::{chars_of, ends_with, push_str, string_of, to_string, trim_spec, trim_str};

verus! {

// ---------------------------------------------------------------------------
// Views
// ---------------------------------------------------------------------------

pub struct SkillView {
    pub name: Seq<char>,
    pub description: Seq<char>,
    pub file_path: Seq<char>,
    pub base_dir: Seq<char>,
    pub source: Seq<char>,
    pub disable_model_invocation: bool,
}

pub enum DiagView {
    Warning { message: Seq<char>, path: Seq<char> },
    Collision {
        message: Seq<char>,
        path: Seq<char>,
        name: Seq<char>,
        winner_path: Seq<char>,
        loser_path: Seq<char>,
    },
}

impl View for Skill {
    type V = SkillView;

    open spec fn view(&self) -> SkillView {
        SkillView {
            name: self.name@,
            description: self.description@,
            file_path: self.file_path@,
            base_dir: self.base_dir@,
            source: self.source@,
            disable_model_invocation: self.disable_model_invocation,
        }
    }
}

impl View for SkillDiagnostic {
    type V = DiagView;

    open spec fn view(&self) -> DiagView {
        match self {
            SkillDiagnostic::Warning { message, path } => DiagView::Warning { message: message@, path: path@ },
            SkillDiagnostic::Collision { message, path, name, winner_path, loser_path } => DiagView::Collision {
                message: message@,
                path: path@,
                name: name@,
                winner_path: winner_path@,
                loser_path: loser_path@,
            },
        }
    }
}

pub open spec fn skills_view(s: Seq<Skill>) -> Seq<SkillView> {
    s.map_values(|x: Skill| x@)
}

pub open spec fn diags_view(d: Seq<SkillDiagnostic>) -> Seq<DiagView> {
    d.map_values(|x: SkillDiagnostic| x@)
}

pub open spec fn opt_skill_view(s: Option<Skill>) -> Option<SkillView> {
    match s {
        Some(x) => Some(x@),
        None => None,
    }
}

pub open spec fn read_view(r: Result<String, String>) -> Result<Seq<char>, Seq<char>> {
    match r {
        Ok(s) => Ok(s@),
        Err(e) => Err(e@),
    }
}

// ---------------------------------------------------------------------------
// One skill file
// ---------------------------------------------------------------------------

pub open spec fn warn(message: Seq<char>, path: Seq<char>) -> DiagView {
    DiagView::Warning { message, path }
}

pub open spec fn warns(messages: Seq<Seq<char>>, path: Seq<char>) -> Seq<DiagView> {
    messages.map_values(|m: Seq<char>| warn(m, path))
}

/// A description that is present and not blank.
pub open spec fn has_text(d: Option<Seq<char>>) -> bool {
    d matches Some(x) && trim_spec(x).len() > 0
}

/// The declared name, trimmed, or the directory's name when it is blank.
pub open spec fn skill_name(fields: Seq<(Seq<char>, Seq<char>)>, dir_name: Seq<char>) -> Seq<char> {
    match assoc_get(fields, "name"@) {
        Some(n) => if trim_spec(n).len() > 0 {
            trim_spec(n)
        } else {
            dir_name
        },
        None => dir_name,
    }
}

pub open spec fn parent_or_empty(p: Seq<char>) -> Seq<char> {
    match parent_of(p) {
        Some(d) => d,
        None => Seq::empty(),
    }
}

/// A skill file's skill and warnings. A file named `SKILL.md` is a declared
/// skill: its read and parse errors are reported, and it is validated even
/// without a description. Another markdown file counts only when it has a
/// description. A skill without a description is never returned.
pub open spec fn load_skill_spec(
    file_path: Seq<char>,
    source: Seq<char>,
    content: Result<Seq<char>, Seq<char>>,
) -> (Option<SkillView>, Seq<DiagView>) {
    let declared = file_name_spec(file_path) == "SKILL.md"@;
    match content {
        Err(e) => (None, seq![warn(e, file_path)]),
        Ok(raw) => match frontmatter_spec(raw) {
            Err(e) => (
                None,
                if declared {
                    seq![warn(e, file_path)]
                } else {
                    Seq::empty()
                },
            ),
            Ok(parsed) => {
                let fields = parsed.0;
                let description = assoc_get(fields, "description"@);
                if !declared && !has_text(description) {
                    (None, Seq::empty())
                } else {
                    let dir = parent_or_empty(file_path);
                    let name = skill_name(fields, file_name_spec(dir));
                    let diags = warns(description_errors(description), file_path) + warns(
                        name_errors(name),
                        file_path,
                    );
                    if !has_text(description) {
                        (None, diags)
                    } else {
                        (
                            Some(
                                SkillView {
                                    name,
                                    description: description.unwrap(),
                                    file_path,
                                    base_dir: dir,
                                    source,
                                    disable_model_invocation: match assoc_get(fields, "disable-model-invocation"@) {
                                        Some(v) => bool_word(trim_spec(v)) == Some(true),
                                        None => false,
                                    },
                                },
                            ),
                            diags,
                        )
                    }
                }
            },
        },
    }
}

fn warning(message: String, path: &str) -> (r: SkillDiagnostic)
    ensures
        r@ == warn(message@, path@),
{
    SkillDiagnostic::Warning { message, path: to_string(path) }
}

fn push_warnings(out: &mut Vec<SkillDiagnostic>, messages: Vec<String>, path: &str)
    ensures
        diags_view(final(out)@) == diags_view(old(out)@) + warns(string_views(messages@), path@),
{
    let ghost start = diags_view(out@);
    let ghost ms = string_views(messages@);
    for m in it: messages
        invariant
            it.seq() == messages@,
            ms == string_views(messages@),
            diags_view(out@) == start + warns(ms.take(it.index() as int), path@),
    {
        let ghost before = diags_view(out@);
        let ghost i = it.index() as int;
        assert(ms[i] == m@);
        let w = warning(m, path);
        out.push(w);
        assert(warns(ms.take(i + 1), path@) =~= warns(ms.take(i), path@).push(warn(ms[i], path@)));
        assert(diags_view(out@) =~= before.push(warn(ms[i], path@)));
    }
    assert(ms.take(ms.len() as int) =~= ms);
}

/// Load one skill file from its text (or the error reading it).
pub fn load_skill_from_file(file_path: &str, source: &str, content: Result<String, String>) -> (r: (
    Option<Skill>,
    Vec<SkillDiagnostic>,
))
    requires
        content matches Ok(c) ==> !frontmatter_rejects(c@),
    ensures
        (opt_skill_view(r.0), diags_view(r.1@)) == load_skill_spec(file_path@, source@, read_view(content)),
{
    let mut diagnostics: Vec<SkillDiagnostic> = Vec::new();
    let skill_md = to_string("SKILL.md");
    let is_declared_skill = file_name(file_path) == skill_md;
    let raw = match content {
        Ok(s) => s,
        Err(e) => {
            diagnostics.push(warning(e, file_path));
            assert(diags_view(diagnostics@) =~= load_skill_spec(file_path@, source@, read_view(content)).1);
            return (None, diagnostics);
        },
    };
    let fm = match parse_frontmatter(raw.as_str()) {
        Ok(fm) => fm,
        Err(e) => {
            if is_declared_skill {
                diagnostics.push(warning(e, file_path));
            }
            assert(diags_view(diagnostics@) =~= load_skill_spec(file_path@, source@, read_view(content)).1);
            return (None, diagnostics);
        },
    };
    let description = fm.get("description");
    let has_description = match description {
        Some(d) => trim_str(d).len() > 0,
        None => false,
    };
    if !is_declared_skill && !has_description {
        assert(diags_view(diagnostics@) =~= Seq::<DiagView>::empty());
        return (None, diagnostics);
    }
    let skill_dir = match path_parent(file_path) {
        Some(d) => d,
        None => String::new(),
    };
    let parent_dir_name = file_name(skill_dir.as_str());
    push_warnings(&mut diagnostics, validate_description(description), file_path);
    let name = match fm.get("name") {
        Some(n) => {
            let t = trim_str(n);
            if t.len() > 0 {
                string_of(&t)
            } else {
                parent_dir_name
            }
        },
        None => parent_dir_name,
    };
    push_warnings(&mut diagnostics, validate_name(name.as_str()), file_path);
    assert(diags_view(diagnostics@) =~= Seq::<DiagView>::empty() + warns(
        description_errors(
            match description {
                Some(d) => Some(d@),
                None => None,
            },
        ),
        file_path@,
    ) + warns(name_errors(name@), file_path@));
    if !has_description {
        return (None, diagnostics);
    }
    let desc = match description {
        Some(d) => to_string(d),
        None => String::new(),
    };
    let disable = match fm.get_bool("disable-model-invocation") {
        Some(b) => b,
        None => false,
    };
    let skill = Skill {
        name,
        description: desc,
        file_path: to_string(file_path),
        base_dir: skill_dir,
        source: to_string(source),
        disable_model_invocation: disable,
    };
    (Some(skill), diagnostics)
}

// ---------------------------------------------------------------------------
// Directories
// ---------------------------------------------------------------------------

/// An entry of a filesystem listing.
pub enum FsNode {
    /// A directory and its entries, in path order (empty when unreadable).
    Dir { path: String, children: Vec<FsNode> },
    /// A regular file (links followed), its canonical path, and its text or
    /// the error reading it. Only markdown files need their text.
    File { path: String, real_path: String, content: Result<String, String> },
    /// Anything else: a broken link, a socket, a missing path.
    Other { path: String },
}

pub open spec fn node_children_len(n: FsNode) -> int {
    match n {
        FsNode::Dir { children, .. } => children@.len() as int,
        _ => 0,
    }
}

impl FsNode {
    pub open spec fn path_spec(self) -> Seq<char> {
        match self {
            FsNode::Dir { path, .. } => path@,
            FsNode::File { path, .. } => path@,
            FsNode::Other { path } => path@,
        }
    }

    fn path(&self) -> (r: &String)
        ensures
            r@ == self.path_spec(),
    {
        match self {
            FsNode::Dir { path, .. } => path,
            FsNode::File { path, .. } => path,
            FsNode::Other { path } => path,
        }
    }
}

/// Every file text in the listing can be parsed without panicking.
pub open spec fn listing_ok(n: FsNode) -> bool
    decreases n, node_children_len(n) + 1,
{
    match n {
        FsNode::Dir { children, .. } => children_ok(n, children@.len() as int),
        FsNode::File { content, .. } => content matches Ok(c) ==> !frontmatter_rejects(c@),
        FsNode::Other { .. } => true,
    }
}

/// The first `k` entries of directory `n` are parseable listings.
pub open spec fn children_ok(n: FsNode, k: int) -> bool
    decreases n, k,
{
    match n {
        FsNode::Dir { children, .. } => if k <= 0 || k > children@.len() {
            true
        } else {
            children_ok(n, k - 1) && listing_ok(children@[k - 1])
        },
        _ => true,
    }
}

proof fn lemma_listing_child(n: FsNode, children: Vec<FsNode>, i: int)
    requires
        listing_ok(n),
        n matches FsNode::Dir { children: cs, .. } && cs == children,
        0 <= i < children@.len(),
    ensures
        listing_ok(children@[i]),
{
    lemma_children_ok(n, children, children@.len() as int, i);
}

proof fn lemma_children_ok(n: FsNode, children: Vec<FsNode>, k: int, i: int)
    requires
        n matches FsNode::Dir { children: cs, .. } && cs == children,
        children_ok(n, k),
        0 <= i < k <= children@.len(),
    ensures
        listing_ok(children@[i]),
    decreases k,
{
    if i < k - 1 {
        lemma_children_ok(n, children, k - 1, i);
    }
}

/// Skills, warnings and the real_path paths of the skills, in order.
pub struct Loaded {
    pub skills: Seq<SkillView>,
    pub diagnostics: Seq<DiagView>,
    pub reals: Seq<Seq<char>>,
}

pub open spec fn loaded_empty() -> Loaded {
    Loaded { skills: Seq::empty(), diagnostics: Seq::empty(), reals: Seq::empty() }
}

pub open spec fn loaded_concat(a: Loaded, b: Loaded) -> Loaded {
    Loaded { skills: a.skills + b.skills, diagnostics: a.diagnostics + b.diagnostics, reals: a.reals + b.reals }
}

/// One skill file as a `Loaded`.
pub open spec fn loaded_file(path: Seq<char>, real_path: Seq<char>, source: Seq<char>, content: Result<Seq<char>, Seq<char>>) -> Loaded {
    let r = load_skill_spec(path, source, content);
    match r.0 {
        Some(s) => Loaded { skills: seq![s], diagnostics: r.1, reals: seq![real_path] },
        None => Loaded { skills: Seq::empty(), diagnostics: r.1, reals: Seq::empty() },
    }
}

/// The first entry named `SKILL.md` among the first `k`.
pub open spec fn skill_md_upto(children: Seq<FsNode>, k: int) -> Option<int>
    decreases k,
{
    if k <= 0 {
        None
    } else {
        match skill_md_upto(children, k - 1) {
            Some(i) => Some(i),
            None => if file_name_spec(children[k - 1].path_spec()) == "SKILL.md"@ {
                Some(k - 1)
            } else {
                None
            },
        }
    }
}

pub open spec fn skipped_name(name: Seq<char>) -> bool {
    (name.len() > 0 && name[0] == '.') || name == "node_modules"@
}

/// What a directory yields: the `SKILL.md` file if it has one; else its
/// markdown files (when `include_root`) and what its subdirectories yield.
pub open spec fn load_dir_spec(n: FsNode, source: Seq<char>, include_root: bool) -> Loaded
    decreases n, node_children_len(n) + 1,
{
    match n {
        FsNode::Dir { children, .. } => match skill_md_upto(children@, children@.len() as int) {
            Some(k) if children@[k] is File => match children@[k] {
                FsNode::File { path, real_path, content } => loaded_file(path@, real_path@, source, read_view(content)),
                _ => loaded_empty(),
            },
            _ => load_children_upto(n, source, include_root, children@.len() as int),
        },
        _ => loaded_empty(),
    }
}

/// What the first `j` entries of directory `n` yield when it is no skill root.
pub open spec fn load_children_upto(n: FsNode, source: Seq<char>, include_root: bool, j: int) -> Loaded
    decreases n, j,
{
    match n {
        FsNode::Dir { children, .. } => if j <= 0 || j > children@.len() {
            loaded_empty()
        } else {
            let prev = load_children_upto(n, source, include_root, j - 1);
            let c = children@[j - 1];
            let name = file_name_spec(c.path_spec());
            if skipped_name(name) {
                prev
            } else {
                match c {
                    FsNode::Dir { .. } => loaded_concat(prev, load_dir_spec(c, source, false)),
                    FsNode::File { path, real_path, content } => if include_root && name.len() >= 3 && name.subrange(
                        name.len() - 3,
                        name.len() as int,
                    ) == ".md"@ {
                        loaded_concat(prev, loaded_file(path@, real_path@, source, read_view(content)))
                    } else {
                        prev
                    },
                    FsNode::Other { .. } => prev,
                }
            }
        },
        _ => loaded_empty(),
    }
}

pub open spec fn result_loaded(r: LoadSkillsResult, reals: Seq<String>) -> Loaded {
    Loaded { skills: skills_view(r.skills@), diagnostics: diags_view(r.diagnostics@), reals: string_views(reals) }
}

fn append_result(acc: &mut LoadSkillsResult, reals: &mut Vec<String>, more: LoadSkillsResult, more_reals: Vec<String>)
    ensures
        final(reals)@.len() == old(reals)@.len() + more_reals@.len(),
        final(acc).skills@.len() == old(acc).skills@.len() + more.skills@.len(),
        result_loaded(*final(acc), final(reals)@) == loaded_concat(
            result_loaded(*old(acc), old(reals)@),
            result_loaded(more, more_reals@),
        ),
{
    let LoadSkillsResult { skills: mut s, diagnostics: mut d } = more;
    let mut r = more_reals;
    let ghost a0 = skills_view(acc.skills@);
    let ghost d0 = diags_view(acc.diagnostics@);
    let ghost r0 = string_views(reals@);
    let ghost a1 = skills_view(s@);
    let ghost d1 = diags_view(d@);
    let ghost r1 = string_views(r@);
    acc.skills.append(&mut s);
    acc.diagnostics.append(&mut d);
    reals.append(&mut r);
    assert(skills_view(acc.skills@) =~= a0 + a1);
    assert(diags_view(acc.diagnostics@) =~= d0 + d1);
    assert(string_views(reals@) =~= r0 + r1);
}

fn load_file_node(path: &String, real_path: &String, source: &str, content: &Result<String, String>) -> (r: (
    LoadSkillsResult,
    Vec<String>,
))
    requires
        content matches Ok(c) ==> !frontmatter_rejects(c@),
    ensures
        result_loaded(r.0, r.1@) == loaded_file(path@, real_path@, source@, read_view(*content)),
        r.1@.len() == r.0.skills@.len(),
{
    let text = match content {
        Ok(c) => Ok(c.clone()),
        Err(e) => Err(e.clone()),
    };
    let (skill, diagnostics) = load_skill_from_file(path.as_str(), source, text);
    let mut skills: Vec<Skill> = Vec::new();
    let mut reals: Vec<String> = Vec::new();
    match skill {
        Some(s) => {
            let ghost sv = s@;
            skills.push(s);
            reals.push(real_path.clone());
            assert(skills_view(skills@) =~= seq![sv]);
            assert(string_views(reals@) =~= seq![real_path@]);
        },
        None => {
            assert(skills_view(skills@) =~= Seq::<SkillView>::empty());
            assert(string_views(reals@) =~= Seq::<Seq<char>>::empty());
        },
    }
    (LoadSkillsResult { skills, diagnostics }, reals)
}

fn load_dir(n: &FsNode, source: &str, include_root: bool) -> (r: (LoadSkillsResult, Vec<String>))
    requires
        listing_ok(*n),
    ensures
        result_loaded(r.0, r.1@) == load_dir_spec(*n, source@, include_root),
        r.1@.len() == r.0.skills@.len(),
    decreases n, node_children_len(*n) + 1,
{
    let mut result = LoadSkillsResult { skills: Vec::new(), diagnostics: Vec::new() };
    let mut reals: Vec<String> = Vec::new();
    assert(result_loaded(result, reals@) =~= loaded_empty()) by {
        assert(skills_view(result.skills@) =~= Seq::<SkillView>::empty());
        assert(diags_view(result.diagnostics@) =~= Seq::<DiagView>::empty());
        assert(string_views(reals@) =~= Seq::<Seq<char>>::empty());
    }
    match n {
        FsNode::Dir { children, .. } => {
            let skill_md = to_string("SKILL.md");
            let mut k: usize = 0;
            let mut found: Option<usize> = None;
            while k < children.len()
                invariant
                    k <= children@.len(),
                    skill_md@ == "SKILL.md"@,
                    found matches Some(i) ==> i < k && skill_md_upto(children@, k as int) == Some(i as int),
                    found is None ==> skill_md_upto(children@, k as int) is None,
                decreases children.len() - k,
            {
                if found.is_none() && file_name(children[k].path().as_str()) == skill_md {
                    found = Some(k);
                }
                k += 1;
            }
            match found {
                Some(i) => match &children[i] {
                    FsNode::File { path, real_path, content } => {
                        proof {
                            lemma_listing_child(*n, *children, i as int);
                        }
                        return load_file_node(path, real_path, source, content);
                    },
                    _ => {},
                },
                None => {},
            }
            let mut j: usize = 0;
            while j < children.len()
                invariant
                    j <= children@.len(),
                    listing_ok(*n),
                    *n matches FsNode::Dir { children: cs, .. } && cs == *children,
                    result_loaded(result, reals@) == load_children_upto(*n, source@, include_root, j as int),
                    reals@.len() == result.skills@.len(),
                decreases children.len() - j,
            {
                let c = &children[j];
                proof {
                    lemma_listing_child(*n, *children, j as int);
                }
                let name = file_name(c.path().as_str());
                let nv = chars_of(name.as_str());
                let skip = (nv.len() > 0 && nv[0] == '.') || name == to_string("node_modules");
                if !skip {
                    match c {
                        FsNode::Dir { .. } => {
                            let (sub, sub_reals) = load_dir(c, source, false);
                            append_result(&mut result, &mut reals, sub, sub_reals);
                        },
                        FsNode::File { path, real_path, content } => {
                            let md = ['.', 'm', 'd'];
                            assert(md@ == ".md"@) by {
                                reveal_strlit(".md");
                            }
                            if include_root && ends_with(&nv, &md) {
                                let (sub, sub_reals) = load_file_node(path, real_path, source, content);
                                append_result(&mut result, &mut reals, sub, sub_reals);
                            }
                        },
                        FsNode::Other { .. } => {},
                    }
                }
                j += 1;
            }
            (result, reals)
        },
        _ => (result, reals),
    }
}

/// Whether every file text in the listing can be parsed: the listings the
/// loaders take.
pub fn listing_parseable(n: &FsNode) -> (r: bool)
    ensures
        r == listing_ok(*n),
    decreases n, node_children_len(*n) + 1,
{
    match n {
        FsNode::Dir { children, .. } => {
            let mut k: usize = 0;
            while k < children.len()
                invariant
                    k <= children@.len(),
                    *n matches FsNode::Dir { children: cs, .. } && cs == *children,
                    children_ok(*n, k as int),
                decreases children.len() - k,
            {
                if !listing_parseable(&children[k]) {
                    proof {
                        if listing_ok(*n) {
                            lemma_listing_child(*n, *children, k as int);
                        }
                    }
                    return false;
                }
                k += 1;
            }
            true
        },
        FsNode::File { content, .. } => match content {
            Ok(c) => !crate::skills::frontmatter_would_panic(c.as_str()),
            Err(_) => true,
        },
        FsNode::Other { .. } => true,
    }
}

/// Whether a probed path can be loaded: the probes `load_skills` takes.
pub fn probe_parseable(p: &SkillPathProbe) -> (r: bool)
    ensures
        r == probe_ok(*p),
{
    match p {
        SkillPathProbe::Dir(n) => listing_parseable(n),
        SkillPathProbe::File { content, .. } => match content {
            Ok(c) => !crate::skills::frontmatter_would_panic(c.as_str()),
            Err(_) => true,
        },
        _ => true,
    }
}

/// The skills under directory `dir`, searched from its root.
pub fn load_skills_from_dir(dir: &FsNode, source: &str) -> (r: LoadSkillsResult)
    requires
        listing_ok(*dir),
    ensures
        skills_view(r.skills@) == load_dir_spec(*dir, source@, true).skills,
        diags_view(r.diagnostics@) == load_dir_spec(*dir, source@, true).diagnostics,
{
    load_dir(dir, source, true).0
}

// ---------------------------------------------------------------------------
// Merging locations
// ---------------------------------------------------------------------------

/// Skills merged from several locations, with the real_path paths already seen.
pub struct Accumulator {
    pub skills: Vec<Skill>,
    pub real_paths: Vec<String>,
    pub diagnostics: Vec<SkillDiagnostic>,
    pub collisions: Vec<SkillDiagnostic>,
}

pub struct AccView {
    pub skills: Seq<SkillView>,
    pub reals: Seq<Seq<char>>,
    pub diagnostics: Seq<DiagView>,
    pub collisions: Seq<DiagView>,
}

impl View for Accumulator {
    type V = AccView;

    open spec fn view(&self) -> AccView {
        AccView {
            skills: skills_view(self.skills@),
            reals: string_views(self.real_paths@),
            diagnostics: diags_view(self.diagnostics@),
            collisions: diags_view(self.collisions@),
        }
    }
}

/// The first of the first `k` skills named `name`.
pub open spec fn first_named(skills: Seq<SkillView>, name: Seq<char>, k: int) -> Option<int>
    decreases k,
{
    if k <= 0 {
        None
    } else {
        match first_named(skills, name, k - 1) {
            Some(i) => Some(i),
            None => if skills[k - 1].name == name {
                Some(k - 1)
            } else {
                None
            },
        }
    }
}

pub open spec fn collision_message(name: Seq<char>) -> Seq<char> {
    "name \""@ + name + "\" collision"@
}

/// One more skill: dropped when its real_path path was seen, reported when its
/// name is taken (the first skill of a name wins), kept otherwise.
pub open spec fn add_skill_spec(acc: AccView, skill: SkillView, real_path: Seq<char>) -> AccView {
    if acc.reals.contains(real_path) {
        acc
    } else {
        match first_named(acc.skills, skill.name, acc.skills.len() as int) {
            Some(k) => AccView {
                collisions: acc.collisions.push(
                    DiagView::Collision {
                        message: collision_message(skill.name),
                        path: skill.file_path,
                        name: skill.name,
                        winner_path: acc.skills[k].file_path,
                        loser_path: skill.file_path,
                    },
                ),
                ..acc
            },
            None => AccView { skills: acc.skills.push(skill), reals: acc.reals.push(real_path), ..acc },
        }
    }
}

pub open spec fn add_skills_upto(acc: AccView, l: Loaded, k: int) -> AccView
    decreases k,
{
    if k <= 0 {
        acc
    } else {
        add_skill_spec(add_skills_upto(acc, l, k - 1), l.skills[k - 1], l.reals[k - 1])
    }
}

/// A location's result merged in: its warnings first, then its skills.
pub open spec fn add_spec(acc: AccView, l: Loaded) -> AccView {
    add_skills_upto(AccView { diagnostics: acc.diagnostics + l.diagnostics, ..acc }, l, l.skills.len() as int)
}

fn copy_skill(s: &Skill) -> (r: Skill)
    ensures
        r@ == s@,
{
    Skill {
        name: s.name.clone(),
        description: s.description.clone(),
        file_path: s.file_path.clone(),
        base_dir: s.base_dir.clone(),
        source: s.source.clone(),
        disable_model_invocation: s.disable_model_invocation,
    }
}

impl Accumulator {
    pub fn new() -> (r: Accumulator)
        ensures
            r@ == (AccView { skills: Seq::empty(), reals: Seq::empty(), diagnostics: Seq::empty(), collisions: Seq::empty() }),
    {
        let r = Accumulator { skills: Vec::new(), real_paths: Vec::new(), diagnostics: Vec::new(), collisions: Vec::new() };
        assert(r@ =~= (AccView { skills: Seq::empty(), reals: Seq::empty(), diagnostics: Seq::empty(), collisions: Seq::empty() })) by {
            assert(skills_view(r.skills@) =~= Seq::<SkillView>::empty());
            assert(string_views(r.real_paths@) =~= Seq::<Seq<char>>::empty());
            assert(diags_view(r.diagnostics@) =~= Seq::<DiagView>::empty());
            assert(diags_view(r.collisions@) =~= Seq::<DiagView>::empty());
        }
        r
    }

    fn add_skill(&mut self, skill: Skill, real_path: String)
        ensures
            final(self)@ == add_skill_spec(old(self)@, skill@, real_path@),
    {
        let ghost a0 = self@;
        let mut i: usize = 0;
        while i < self.real_paths.len()
            invariant
                i <= self.real_paths@.len(),
                forall|j: int| 0 <= j < i ==> string_views(self.real_paths@)[j] != real_path@,
            decreases self.real_paths.len() - i,
        {
            if self.real_paths[i] == real_path {
                assert(string_views(self.real_paths@)[i as int] == real_path@);
                return;
            }
            i += 1;
        }
        assert(!a0.reals.contains(real_path@));
        let mut k: usize = 0;
        let mut found: Option<usize> = None;
        while k < self.skills.len()
            invariant
                k <= self.skills@.len(),
                a0.skills == skills_view(self.skills@),
                found matches Some(w) ==> w < k && first_named(a0.skills, skill.name@, k as int) == Some(w as int),
                found is None ==> first_named(a0.skills, skill.name@, k as int) is None,
            decreases self.skills.len() - k,
        {
            if found.is_none() && self.skills[k].name == skill.name {
                found = Some(k);
            }
            k += 1;
        }
        match found {
            Some(w) => {
                let mut m: Vec<char> = Vec::new();
                push_str(&mut m, "name \"");
                push_str(&mut m, skill.name.as_str());
                push_str(&mut m, "\" collision");
                let d = SkillDiagnostic::Collision {
                    message: string_of(&m),
                    path: skill.file_path.clone(),
                    name: skill.name.clone(),
                    winner_path: self.skills[w].file_path.clone(),
                    loser_path: skill.file_path.clone(),
                };
                let ghost dv = d@;
                let ghost c0 = diags_view(self.collisions@);
                self.collisions.push(d);
                assert(diags_view(self.collisions@) =~= c0.push(dv));
                assert(self@ =~= add_skill_spec(a0, skill@, real_path@));
            },
            None => {
                let ghost sv = skill@;
                let ghost rv = real_path@;
                self.skills.push(skill);
                self.real_paths.push(real_path);
                assert(skills_view(self.skills@) =~= a0.skills.push(sv));
                assert(string_views(self.real_paths@) =~= a0.reals.push(rv));
                assert(self@ =~= add_skill_spec(a0, sv, rv));
            },
        }
    }

    /// Merge one location's skills (with their real_path paths, in order).
    pub fn add(&mut self, result: LoadSkillsResult, real_paths: Vec<String>)
        requires
            real_paths@.len() == result.skills@.len(),
        ensures
            final(self)@ == add_spec(old(self)@, result_loaded(result, real_paths@)),
    {
        let ghost l = result_loaded(result, real_paths@);
        let ghost a0 = self@;
        let LoadSkillsResult { skills, diagnostics } = result;
        let mut d = diagnostics;
        let ghost dv = diags_view(self.diagnostics@);
        let ghost dd = diags_view(d@);
        self.diagnostics.append(&mut d);
        assert(diags_view(self.diagnostics@) =~= dv + dd);
        let ghost start = self@;
        assert(start =~= AccView { diagnostics: a0.diagnostics + l.diagnostics, ..a0 });
        let mut i: usize = 0;
        while i < skills.len()
            invariant
                i <= skills@.len(),
                skills@.len() == real_paths@.len(),
                l.skills == skills_view(skills@),
                l.reals == string_views(real_paths@),
                self@ == add_skills_upto(start, l, i as int),
            decreases skills.len() - i,
        {
            let s = copy_skill(&skills[i]);
            let r = real_paths[i].clone();
            assert(l.skills[i as int] == s@);
            assert(l.reals[i as int] == r@);
            self.add_skill(s, r);
            i += 1;
        }
    }
}

// ---------------------------------------------------------------------------
// All locations
// ---------------------------------------------------------------------------

pub struct LoadSkillsOptions {
    /// Working directory for project-local skills.
    pub cwd: String,
    /// Agent config directory for global skills (`<agent_dir>/skills`).
    pub agent_dir: String,
    /// Explicit skill paths (files or directories).
    pub skill_paths: Vec<String>,
    /// Include the default user/project skill directories.
    pub include_defaults: bool,
}

/// What an explicit skill path turned out to be.
pub enum SkillPathProbe {
    /// Nothing exists there.
    Missing,
    /// A directory, listed.
    Dir(FsNode),
    /// A regular file, with its real_path path and its text.
    File { real_path: String, content: Result<String, String> },
    /// Something that exists but is neither.
    Other,
}

pub open spec fn probe_ok(p: SkillPathProbe) -> bool {
    match p {
        SkillPathProbe::Dir(n) => listing_ok(n),
        SkillPathProbe::File { content, .. } => content matches Ok(c) ==> !frontmatter_rejects(c@),
        _ => true,
    }
}

pub open spec fn user_skills_dir(agent_dir: Seq<char>) -> Seq<char> {
    path_join(agent_dir, "skills"@)
}

pub open spec fn project_skills_dir(cwd: Seq<char>) -> Seq<char> {
    path_join(path_join(cwd, CONFIG_DIR_NAME@), "skills"@)
}

/// An explicit skill path taken against the working directory.
pub open spec fn resolved_skill_path(cwd: Seq<char>, raw: Seq<char>) -> Seq<char> {
    if is_abs(raw) {
        raw
    } else {
        path_join(cwd, raw)
    }
}

/// `target` is `root` or lies below it, component-wise.
pub open spec fn is_under_path(target: Seq<char>, root: Seq<char>) -> bool {
    target == root || relative_spec(target, root) is Some
}

/// The source an explicit path's skills are tagged with.
pub open spec fn path_source(include_defaults: bool, resolved: Seq<char>, user_dir: Seq<char>, project_dir: Seq<char>) -> Seq<char> {
    if !include_defaults {
        if is_under_path(resolved, user_dir) {
            "user"@
        } else if is_under_path(resolved, project_dir) {
            "project"@
        } else {
            "path"@
        }
    } else {
        "path"@
    }
}

/// The text after the last `.` of a file name that does not start with it
/// (`Path::extension`).
pub open spec fn extension_spec(p: Seq<char>) -> Option<Seq<char>> {
    let n = file_name_spec(p);
    if exists|i: int| 0 < i < n.len() && n[i] == '.' {
        let i = choose|i: int| 0 < i < n.len() && n[i] == '.' && forall|j: int| i < j < n.len() ==> n[j] != '.';
        Some(n.subrange(i + 1, n.len() as int))
    } else {
        None
    }
}

pub open spec fn options_view(o: LoadSkillsOptions) -> (Seq<char>, Seq<char>, Seq<Seq<char>>, bool) {
    (o.cwd@, o.agent_dir@, string_views(o.skill_paths@), o.include_defaults)
}

/// Merging one explicit path into `prev`.
pub open spec fn load_path_step(
    cwd: Seq<char>,
    agent_dir: Seq<char>,
    include_defaults: bool,
    raw: Seq<char>,
    probe: SkillPathProbe,
    prev: AccView,
) -> AccView {
    let resolved = resolved_skill_path(cwd, raw);
    let source = path_source(include_defaults, resolved, user_skills_dir(agent_dir), project_skills_dir(cwd));
    match probe {
        SkillPathProbe::Missing => AccView {
            diagnostics: prev.diagnostics.push(warn("skill path does not exist"@, resolved)),
            ..prev
        },
        SkillPathProbe::Dir(n) => add_spec(prev, load_dir_spec(n, source, true)),
        SkillPathProbe::File { real_path, content } => if extension_spec(resolved) == Some("md"@) {
            add_spec(prev, loaded_file(resolved, real_path@, source, read_view(content)))
        } else {
            AccView {
                diagnostics: prev.diagnostics.push(warn("skill path is not a markdown file"@, resolved)),
                ..prev
            }
        },
        SkillPathProbe::Other => AccView {
            diagnostics: prev.diagnostics.push(warn("skill path is not a markdown file"@, resolved)),
            ..prev
        },
    }
}

/// Merging the explicit paths `0..k` into `acc`.
pub open spec fn load_paths_upto(
    cwd: Seq<char>,
    agent_dir: Seq<char>,
    include_defaults: bool,
    raws: Seq<Seq<char>>,
    probes: Seq<SkillPathProbe>,
    acc: AccView,
    k: int,
) -> AccView
    decreases k,
{
    if k <= 0 {
        acc
    } else {
        load_path_step(
            cwd,
            agent_dir,
            include_defaults,
            raws[k - 1],
            probes[k - 1],
            load_paths_upto(cwd, agent_dir, include_defaults, raws, probes, acc, k - 1),
        )
    }
}

/// The merged skills of every configured location.
pub open spec fn load_skills_spec(
    cwd: Seq<char>,
    agent_dir: Seq<char>,
    include_defaults: bool,
    raws: Seq<Seq<char>>,
    user_dir: FsNode,
    project_dir: FsNode,
    probes: Seq<SkillPathProbe>,
) -> AccView {
    let empty = AccView { skills: Seq::empty(), reals: Seq::empty(), diagnostics: Seq::empty(), collisions: Seq::empty() };
    let start = if include_defaults {
        add_spec(add_spec(empty, load_dir_spec(user_dir, "user"@, true)), load_dir_spec(project_dir, "project"@, true))
    } else {
        empty
    };
    load_paths_upto(cwd, agent_dir, include_defaults, raws, probes, start, raws.len() as int)
}

fn extension(p: &str) -> (r: Option<String>)
    ensures
        match r {
            Some(e) => extension_spec(p@) == Some(e@),
            None => extension_spec(p@) is None,
        },
{
    let name = file_name(p);
    let n = chars_of(name.as_str());
    let mut i = n.len();
    while i > 1
        invariant
            i <= n@.len(),
            n@ == file_name_spec(p@),
            forall|j: int| i <= j < n@.len() ==> n@[j] != '.',
        decreases i,
    {
        if n[i - 1] == '.' {
            let ghost w = i - 1;
            assert(0 < w < n@.len() && n@[w] == '.' && forall|j: int| w < j < n@.len() ==> n@[j] != '.');
            let ghost c = choose|c: int| 0 < c < n@.len() && n@[c] == '.' && forall|j: int| c < j < n@.len() ==> n@[j] != '.';
            assert(c == w) by {
                if c < w {
                    assert(n@[w] != '.');
                } else if c > w {
                    assert(n@[c] != '.');
                }
            }
            let t = crate::text::slice_of(&n, i, n.len());
            return Some(string_of(&t));
        }
        i -= 1;
    }
    assert(!exists|j: int| 0 < j < n@.len() && n@[j] == '.');
    None
}

fn warn_at(acc: &mut Accumulator, message: &str, path: &String)
    ensures
        final(acc)@ == (AccView { diagnostics: old(acc)@.diagnostics.push(warn(message@, path@)), ..old(acc)@ }),
{
    let w = warning(to_string(message), path.as_str());
    let ghost d0 = diags_view(acc.diagnostics@);
    let ghost wv = w@;
    acc.diagnostics.push(w);
    assert(diags_view(acc.diagnostics@) =~= d0.push(wv));
}

fn load_skill_path(
    acc: &mut Accumulator,
    options: &LoadSkillsOptions,
    raw: &String,
    probe: &SkillPathProbe,
    user_skills: &String,
    project_skills: &String,
)
    requires
        probe_ok(*probe),
        user_skills@ == user_skills_dir(options.agent_dir@),
        project_skills@ == project_skills_dir(options.cwd@),
    ensures
        final(acc)@ == load_path_step(options.cwd@, options.agent_dir@, options.include_defaults, raw@, *probe, old(acc)@),
{
    let cwd = chars_of(options.cwd.as_str());
    let raw = chars_of(raw.as_str());
    let resolved = if raw.len() > 0 && raw[0] == '/' {
        string_of(&raw)
    } else {
        string_of(&join_path(&cwd, &raw))
    };
    match probe {
        SkillPathProbe::Missing => {
            warn_at(acc, "skill path does not exist", &resolved);
        },
        probe => {
            let source = if !options.include_defaults {
                if resolved == *user_skills || relative_posix(resolved.as_str(), user_skills.as_str()).is_some() {
                    "user"
                } else if resolved == *project_skills || relative_posix(
                    resolved.as_str(),
                    project_skills.as_str(),
                ).is_some() {
                    "project"
                } else {
                    "path"
                }
            } else {
                "path"
            };
            match probe {
                SkillPathProbe::Dir(n) => {
                    let (sub, reals) = load_dir(n, source, true);
                    acc.add(sub, reals);
                },
                SkillPathProbe::File { real_path, content } => {
                    let is_md = match extension(resolved.as_str()) {
                        Some(e) => e == to_string("md"),
                        None => false,
                    };
                    if is_md {
                        let (sub, reals) = load_file_node(&resolved, real_path, source, content);
                        acc.add(sub, reals);
                    } else {
                        warn_at(acc, "skill path is not a markdown file", &resolved);
                    }
                },
                _ => {
                    warn_at(acc, "skill path is not a markdown file", &resolved);
                },
            }
        },
    }
}

/// Gather skills from every configured location: the default user and
/// project directories (listed in `user_dir` and `project_dir`) and each
/// explicit path (probed in `probes`, one per path).
pub fn load_skills(
    options: &LoadSkillsOptions,
    user_dir: &FsNode,
    project_dir: &FsNode,
    probes: &Vec<SkillPathProbe>,
) -> (r: LoadSkillsResult)
    requires
        probes@.len() == options.skill_paths@.len(),
        listing_ok(*user_dir),
        listing_ok(*project_dir),
        forall|i: int| 0 <= i < probes@.len() ==> #[trigger] probe_ok(probes@[i]),
    ensures
        ({
            let a = load_skills_spec(
                options.cwd@,
                options.agent_dir@,
                options.include_defaults,
                string_views(options.skill_paths@),
                *user_dir,
                *project_dir,
                probes@,
            );
            &&& skills_view(r.skills@) == a.skills
            &&& diags_view(r.diagnostics@) == a.diagnostics + a.collisions
        }),
{
    let ghost raws = string_views(options.skill_paths@);
    let user_skills = join_path(&chars_of(options.agent_dir.as_str()), &chars_of("skills"));
    let project_skills = join_path(
        &join_path(&chars_of(options.cwd.as_str()), &chars_of(CONFIG_DIR_NAME)),
        &chars_of("skills"),
    );
    let user_skills = string_of(&user_skills);
    let project_skills = string_of(&project_skills);
    let mut acc = Accumulator::new();
    if options.include_defaults {
        let (u, ur) = load_dir(user_dir, "user", true);
        acc.add(u, ur);
        let (p, pr) = load_dir(project_dir, "project", true);
        acc.add(p, pr);
    }
    let ghost start = acc@;
    let mut k: usize = 0;
    while k < options.skill_paths.len()
        invariant
            k <= options.skill_paths@.len(),
            probes@.len() == options.skill_paths@.len(),
            raws == string_views(options.skill_paths@),
            user_skills@ == user_skills_dir(options.agent_dir@),
            project_skills@ == project_skills_dir(options.cwd@),
            forall|i: int| 0 <= i < probes@.len() ==> #[trigger] probe_ok(probes@[i]),
            acc@ == load_paths_upto(
                options.cwd@,
                options.agent_dir@,
                options.include_defaults,
                raws,
                probes@,
                start,
                k as int,
            ),
        decreases options.skill_paths.len() - k,
    {
        assert(probe_ok(probes@[k as int]));
        load_skill_path(&mut acc, options, &options.skill_paths[k], &probes[k], &user_skills, &project_skills);
        assert(raws[k as int] == options.skill_paths@[k as int]@);
        k += 1;
    }
    let Accumulator { skills, real_paths: _, diagnostics, collisions } = acc;
    let mut diagnostics = diagnostics;
    let mut collisions = collisions;
    let ghost d0 = diags_view(diagnostics@);
    let ghost c0 = diags_view(collisions@);
    diagnostics.append(&mut collisions);
    assert(diags_view(diagnostics@) =~= d0 + c0);
    LoadSkillsResult { skills, diagnostics }
}

} // verus!
