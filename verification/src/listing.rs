//! The ls and find tools' logic: which entries they list and the text they
//! report. Reading directories and walking trees are the caller's.

use vstd::prelude::*;
use crate::glob::{regex_matches, CompiledRegex};
use crate::grep::{bytes_only_spec, texts, with_notices};
use crate::path_utils::{file_name, file_name_spec, relative_posix, relative_spec};
use crate::text::{chars_of, decimal, decimal_spec, join, join_spec, push_all, push_str, string_of, to_string};
use crate::truncate::{
    format_size, format_size_spec, head_truncation, truncate_head, TruncationOptions, TruncationResult,
    DEFAULT_MAX_BYTES,
};

verus! {

pub const LS_SNIPPET: &'static str = "List directory contents";

/// Entries ls lists when the caller sets no limit.
pub const LS_DEFAULT_LIMIT: usize = 500;

pub const FIND_SNIPPET: &'static str = "Find files by glob pattern (respects .gitignore)";

/// Results find reports when the caller sets no limit.
pub const FIND_DEFAULT_LIMIT: usize = 1000;

/// A report, and the byte truncation when it cut the report.
pub struct ListingOutput {
    pub text: String,
    pub truncation: Option<TruncationResult>,
}

/// The notices of a listing: the caller's limit notice, if any, then the
/// byte limit when the report was cut.
pub open spec fn listing_notices(limit_notice: Option<Seq<char>>, bytes_cut: bool) -> Seq<Seq<char>> {
    (match limit_notice {
        Some(n) => seq![n],
        None => Seq::empty(),
    }) + (if bytes_cut {
        seq![format_size_spec(DEFAULT_MAX_BYTES as nat) + " limit reached"@]
    } else {
        Seq::empty()
    })
}

/// The report of a listing: `empty_text` when there is nothing, else the
/// lines joined, cut to the byte limit, with the notices.
pub fn listing_report(results: &Vec<String>, empty_text: &str, limit_notice: Option<String>) -> (r: ListingOutput)
    ensures
        results@.len() == 0 ==> r.text@ == empty_text@ && r.truncation is None,
        results@.len() > 0 ==> exists|t: TruncationResult|
            #[trigger] head_truncation(join_spec(texts(results@), "\n"@), bytes_only_spec(), t) && r.text@
                == with_notices(
                t.content@,
                listing_notices(crate::assoc::opt_view(limit_notice), t.truncated),
            ) && (r.truncation matches Some(tr) ==> t.truncated && tr == t) && (r.truncation is None ==> !t.truncated),
{
    if results.len() == 0 {
        return ListingOutput { text: to_string(empty_text), truncation: None };
    }
    let nl = ['\n'];
    assert(nl@ == "\n"@) by {
        reveal_strlit("\n");
    }
    let mut parts: Vec<Vec<char>> = Vec::new();
    let mut i: usize = 0;
    while i < results.len()
        invariant
            i <= results@.len(),
            parts@.len() == i,
            forall|j: int| 0 <= j < i ==> #[trigger] parts@[j]@ == results@[j]@,
        decreases results.len() - i,
    {
        parts.push(chars_of(results[i].as_str()));
        i += 1;
    }
    assert(parts@.map_values(|p: Vec<char>| p@) =~= texts(results@));
    let raw = string_of(&join(&parts, &nl));
    let truncation = truncate_head(raw.as_str(), TruncationOptions::bytes_only());
    let ghost ln = crate::assoc::opt_view(limit_notice);
    let mut notices: Vec<String> = Vec::new();
    match &limit_notice {
        Some(n) => notices.push(to_string(n.as_str())),
        None => {},
    }
    if truncation.truncated {
        let mut v = chars_of(format_size(DEFAULT_MAX_BYTES).as_str());
        push_str(&mut v, " limit reached");
        notices.push(string_of(&v));
    }
    assert(texts(notices@) =~= listing_notices(ln, truncation.truncated));
    let mut text = chars_of(truncation.content.as_str());
    if notices.len() > 0 {
        let mut np: Vec<Vec<char>> = Vec::new();
        let mut j: usize = 0;
        while j < notices.len()
            invariant
                j <= notices@.len(),
                np@.len() == j,
                forall|q: int| 0 <= q < j ==> #[trigger] np@[q]@ == notices@[q]@,
            decreases notices.len() - j,
        {
            np.push(chars_of(notices[j].as_str()));
            j += 1;
        }
        assert(np@.map_values(|p: Vec<char>| p@) =~= texts(notices@));
        let sep = chars_of(". ");
        push_str(&mut text, "\n\n[");
        push_all(&mut text, &join(&np, &sep));
        push_str(&mut text, "]");
    }
    let tr = if truncation.truncated {
        Some(truncation)
    } else {
        None
    };
    ListingOutput { text: string_of(&text), truncation: tr }
}

fn limit_notice(limit: usize, what: &str, tail: &str) -> (r: String)
    requires
        limit <= usize::MAX / 2,
    ensures
        r@ == decimal_spec(limit as nat) + what@ + decimal_spec((2 * limit) as nat) + tail@,
{
    let mut v = decimal(limit as u64);
    push_str(&mut v, what);
    push_all(&mut v, &decimal((limit * 2) as u64));
    push_str(&mut v, tail);
    string_of(&v)
}

// ---------------------------------------------------------------------------
// ls
// ---------------------------------------------------------------------------

/// The entries ls shows of the first `k` names (in the caller's order, by
/// lowercase name): a `/` after a directory, names whose kind could not be
/// read skipped; stopping at `limit` entries, and whether a name was left.
pub open spec fn ls_select(names: Seq<String>, kinds: Seq<Option<bool>>, limit: nat, k: int) -> (Seq<Seq<char>>, bool)
    decreases k,
{
    if k <= 0 {
        (Seq::empty(), false)
    } else {
        let prev = ls_select(names, kinds, limit, k - 1);
        if prev.1 {
            prev
        } else if prev.0.len() >= limit {
            (prev.0, true)
        } else {
            match kinds[k - 1] {
                Some(d) => (prev.0.push(if d {
                    names[k - 1]@ + "/"@
                } else {
                    names[k - 1]@
                }), false),
                None => prev,
            }
        }
    }
}

/// The ls report for `names` with their kinds (`Some(true)` for a
/// directory, `None` when it could not be read).
pub fn ls_output(names: &Vec<String>, kinds: &Vec<Option<bool>>, limit: usize) -> (r: ListingOutput)
    requires
        names@.len() == kinds@.len(),
        limit <= usize::MAX / 2,
    ensures
        ({
            let (entries, reached) = ls_select(names@, kinds@, limit as nat, names@.len() as int);
            entries.len() == 0 ==> r.text@ == "(empty directory)"@
        }),
        ({
            let (entries, reached) = ls_select(names@, kinds@, limit as nat, names@.len() as int);
            entries.len() > 0 ==> exists|t: TruncationResult|
                #[trigger] head_truncation(join_spec(entries, "\n"@), bytes_only_spec(), t) && r.text@ == with_notices(
                    t.content@,
                    listing_notices(
                        if reached {
                            Some(
                                decimal_spec(limit as nat) + " entries limit reached. Use limit="@ + decimal_spec(
                                    (2 * limit) as nat,
                                ) + " for more"@,
                            )
                        } else {
                            None
                        },
                        t.truncated,
                    ),
                )
        }),
{
    let mut results: Vec<String> = Vec::new();
    let mut reached = false;
    let mut k: usize = 0;
    while k < names.len()
        invariant
            names@.len() == kinds@.len(),
            k <= names@.len(),
            (texts(results@), reached) == ls_select(names@, kinds@, limit as nat, k as int),
        decreases names.len() - k,
    {
        if !reached {
            if results.len() >= limit {
                reached = true;
            } else {
                match kinds[k] {
                    Some(d) => {
                        let ghost before = texts(results@);
                        let entry = if d {
                            let mut v = chars_of(names[k].as_str());
                            push_str(&mut v, "/");
                            string_of(&v)
                        } else {
                            to_string(names[k].as_str())
                        };
                        results.push(entry);
                        assert(texts(results@) =~= before.push(entry@));
                    },
                    None => {},
                }
            }
        }
        k += 1;
    }
    let notice = if reached {
        Some(limit_notice(limit, " entries limit reached. Use limit=", " for more"))
    } else {
        None
    };
    listing_report(&results, "(empty directory)", notice)
}

// ---------------------------------------------------------------------------
// find
// ---------------------------------------------------------------------------

pub open spec fn has_slash(p: Seq<char>) -> bool {
    exists|i: int| 0 <= i < p.len() && p[i] == '/'
}

/// The glob find matches with: a pattern with a `/` matches the whole
/// relative path, prefixed with `**/` unless it starts with `**/` or `/`.
pub open spec fn find_glob_spec(pattern: Seq<char>) -> (Seq<char>, bool) {
    let full = has_slash(pattern);
    if full && !(pattern.len() >= 3 && pattern.take(3) == "**/"@) && !(pattern.len() > 0 && pattern[0] == '/') {
        ("**/"@ + pattern, full)
    } else {
        (pattern, full)
    }
}

pub fn find_glob(pattern: &str) -> (r: (String, bool))
    ensures
        (r.0@, r.1) == find_glob_spec(pattern@),
{
    let cs = chars_of(pattern);
    let mut full = false;
    let mut i: usize = 0;
    while i < cs.len()
        invariant
            i <= cs@.len(),
            cs@ == pattern@,
            full == exists|j: int| 0 <= j < i && cs@[j] == '/',
        decreases cs.len() - i,
    {
        if cs[i] == '/' {
            full = true;
        }
        i += 1;
    }
    proof {
        reveal_strlit("**/");
    }
    let starts_glob = cs.len() >= 3 && cs[0] == '*' && cs[1] == '*' && cs[2] == '/';
    assert(starts_glob == (pattern@.len() >= 3 && pattern@.take(3) == "**/"@)) by {
        if pattern@.len() >= 3 && pattern@.take(3) == "**/"@ {
            assert(pattern@.take(3)[0] == '*' && pattern@.take(3)[1] == '*' && pattern@.take(3)[2] == '/');
        }
        if starts_glob {
            assert(pattern@.take(3) =~= "**/"@);
        }
    }
    if full && !starts_glob && !(cs.len() > 0 && cs[0] == '/') {
        let mut v = chars_of("**/");
        push_str(&mut v, pattern);
        (string_of(&v), full)
    } else {
        (to_string(pattern), full)
    }
}

/// What find lists for one walked entry: its path relative to the search
/// path (a `/` after a directory) when the subject (that path, or the base
/// name when the pattern has no `/`) matches; nothing for the search path
/// itself.
pub open spec fn find_entry_spec(
    pattern: Seq<char>,
    ic: bool,
    path: Seq<char>,
    search: Seq<char>,
    is_dir: bool,
    full: bool,
) -> Option<Seq<char>> {
    let rel = match relative_spec(path, search) {
        Some(r) => r,
        None => Seq::empty(),
    };
    if rel.len() == 0 {
        None
    } else if regex_matches(pattern, ic, if full { rel } else { file_name_spec(path) }) {
        Some(if is_dir { rel + "/"@ } else { rel })
    } else {
        None
    }
}

pub fn find_entry(re: &CompiledRegex, path: &str, search: &str, is_dir: bool, full: bool) -> (r: Option<String>)
    ensures
        match r {
            Some(e) => find_entry_spec(re.source_spec(), re.case_spec(), path@, search@, is_dir, full) == Some(e@),
            None => find_entry_spec(re.source_spec(), re.case_spec(), path@, search@, is_dir, full) is None,
        },
{
    let rel = match relative_posix(path, search) {
        Some(r) => r,
        None => String::new(),
    };
    if rel.as_str().is_empty() {
        return None;
    }
    let subject = if full {
        to_string(rel.as_str())
    } else {
        file_name(path)
    };
    if re.is_match(subject.as_str()) {
        if is_dir {
            let mut v = chars_of(rel.as_str());
            push_str(&mut v, "/");
            Some(string_of(&v))
        } else {
            Some(rel)
        }
    } else {
        None
    }
}

/// The find report for its results, given whether the limit was reached.
pub fn find_output(results: &Vec<String>, limit: usize, limit_reached: bool) -> (r: ListingOutput)
    requires
        limit <= usize::MAX / 2,
    ensures
        results@.len() == 0 ==> r.text@ == "No files found matching pattern"@,
        results@.len() > 0 ==> exists|t: TruncationResult|
            #[trigger] head_truncation(join_spec(texts(results@), "\n"@), bytes_only_spec(), t) && r.text@
                == with_notices(
                t.content@,
                listing_notices(
                    if limit_reached {
                        Some(
                            decimal_spec(limit as nat) + " results limit reached. Use limit="@ + decimal_spec(
                                (2 * limit) as nat,
                            ) + " for more, or refine pattern"@,
                        )
                    } else {
                        None
                    },
                    t.truncated,
                ),
            ),
{
    let notice = if limit_reached {
        Some(limit_notice(limit, " results limit reached. Use limit=", " for more, or refine pattern"))
    } else {
        None
    };
    listing_report(results, "No files found matching pattern", notice)
}

} // verus!
