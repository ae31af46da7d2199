//! The curated markdown memory: entries of `USER.md` and `MEMORY.md`,
//! separated by a `§` line, and the edits the memory tool makes to them.
//!
//! Reading and writing the files is the caller's; these functions parse
//! the entries, decide each edit and render what is written or shown.

use vstd::prelude::*;
use crate::text::{
    chars_of, decimal, decimal_spec, find_from, find_spec, join, join_spec, lines_of, lines_spec,
    matches_at, push_all, push_str, slice_of, str_bytes_len, bytes_len, string_of, to_string, trim,
    trim_spec, trim_str, views,
};

verus! {

pub const ENTRY_DELIMITER: &'static str = "\n\u{a7}\n";

pub const MEMORY_CHAR_LIMIT: usize = 2200;

pub const USER_CHAR_LIMIT: usize = 1375;

/// Which memory file to target.
#[derive(Debug, Clone, Copy, PartialEq, Eq, Structural)]
pub enum MemoryTarget {
    /// General agent observations and facts about the environment.
    Memory,
    /// What the agent knows about the user.
    User,
}

pub open spec fn ascii_lower(c: char) -> char {
    if 'A' <= c && c <= 'Z' {
        ((c as u8) + 32) as char
    } else {
        c
    }
}

impl MemoryTarget {
    pub open spec fn label_spec(self) -> Seq<char> {
        match self {
            MemoryTarget::Memory => "MEMORY.md"@,
            MemoryTarget::User => "USER.md"@,
        }
    }

    pub open spec fn limit_spec(self) -> int {
        match self {
            MemoryTarget::Memory => MEMORY_CHAR_LIMIT as int,
            MemoryTarget::User => USER_CHAR_LIMIT as int,
        }
    }

    pub fn label(&self) -> (r: &'static str)
        ensures
            r@ == self.label_spec(),
    {
        match self {
            MemoryTarget::Memory => "MEMORY.md",
            MemoryTarget::User => "USER.md",
        }
    }

    pub fn char_limit(&self) -> (r: usize)
        ensures
            r == self.limit_spec(),
    {
        match self {
            MemoryTarget::Memory => MEMORY_CHAR_LIMIT,
            MemoryTarget::User => USER_CHAR_LIMIT,
        }
    }

    /// The target named `s`, ignoring ASCII case.
    pub fn parse(s: &str) -> (r: Result<MemoryTarget, String>)
        ensures
            match r {
                Ok(t) => (t == MemoryTarget::Memory && s@.map_values(|c: char| ascii_lower(c)) == "memory"@)
                    || (t == MemoryTarget::User && s@.map_values(|c: char| ascii_lower(c)) == "user"@),
                Err(e) => s@.map_values(|c: char| ascii_lower(c)) != "memory"@ && s@.map_values(
                    |c: char| ascii_lower(c),
                ) != "user"@ && e@ == "unknown memory target: "@ + s@,
            },
    {
        let cs = chars_of(s);
        let mut low: Vec<char> = Vec::new();
        let mut i: usize = 0;
        while i < cs.len()
            invariant
                i <= cs@.len(),
                cs@ == s@,
                low@ == s@.take(i as int).map_values(|c: char| ascii_lower(c)),
            decreases cs.len() - i,
        {
            let c = cs[i];
            let l = if 'A' <= c && c <= 'Z' {
                ((c as u8) + 32) as char
            } else {
                c
            };
            low.push(l);
            assert(s@.take(i + 1).map_values(|c: char| ascii_lower(c)) =~= s@.take(i as int).map_values(
                |c: char| ascii_lower(c),
            ).push(ascii_lower(c)));
            i += 1;
        }
        assert(s@.take(s@.len() as int) =~= s@);
        if crate::text::eq_chars(&low, &chars_of("memory")) {
            Ok(MemoryTarget::Memory)
        } else if crate::text::eq_chars(&low, &chars_of("user")) {
            Ok(MemoryTarget::User)
        } else {
            let mut m = chars_of("unknown memory target: ");
            push_str(&mut m, s);
            Err(string_of(&m))
        }
    }
}

// ---------------------------------------------------------------------------
// Entries
// ---------------------------------------------------------------------------

/// `str::split` with a non-empty string separator.
pub open spec fn split_str_spec(s: Seq<char>, sep: Seq<char>) -> Seq<Seq<char>>
    decreases s.len(),
{
    if sep.len() == 0 {
        seq![s]
    } else {
        match find_spec(s, sep) {
            Some(i) => {
                proof {
                    crate::text::lemma_find_from_spec_matches(s, sep, 0);
                }
                seq![s.take(i)] + split_str_spec(s.skip(i + sep.len()), sep)
            },
            None => seq![s],
        }
    }
}

/// The first `k` pieces trimmed, without empty ones.
pub open spec fn kept_entries(pieces: Seq<Seq<char>>, k: int) -> Seq<Seq<char>>
    decreases k,
{
    if k <= 0 {
        Seq::empty()
    } else {
        let prev = kept_entries(pieces, k - 1);
        let t = trim_spec(pieces[k - 1]);
        if t.len() == 0 {
            prev
        } else {
            prev.push(t)
        }
    }
}

/// The entries of a memory file's text.
pub open spec fn entries_spec(content: Seq<char>) -> Seq<Seq<char>> {
    let p = split_str_spec(content, ENTRY_DELIMITER@);
    kept_entries(p, p.len() as int)
}

pub open spec fn strs(v: Seq<String>) -> Seq<Seq<char>> {
    v.map_values(|s: String| s@)
}

fn split_on(s: &[char], sep: &[char]) -> (r: Vec<Vec<char>>)
    requires
        sep@.len() > 0,
    ensures
        views(r@) == split_str_spec(s@, sep@),
    decreases s@.len(),
{
    let sn = s.len();
    match crate::text::find_first(s, sep) {
        None => {
            let mut r: Vec<Vec<char>> = Vec::new();
            r.push(slice_of(s, 0, s.len()));
            assert(s@.subrange(0, s@.len() as int) =~= s@);
            assert(views(r@) =~= seq![s@]);
            r
        },
        Some(i) => {
            assert(matches_at(s@, sep@, i as int));
            let head = slice_of(s, 0, i);
            let rest = slice_of(s, i + sep.len(), s.len());
            assert(rest@ =~= s@.skip(i + sep@.len()));
            assert(head@ =~= s@.take(i as int));
            let tail = split_on(&rest, sep);
            let mut r: Vec<Vec<char>> = Vec::new();
            r.push(head);
            let mut k: usize = 0;
            assert(views(r@) =~= seq![s@.take(i as int)]);
            while k < tail.len()
                invariant
                    k <= tail@.len(),
                    views(r@) == seq![s@.take(i as int)] + views(tail@).take(k as int),
                decreases tail.len() - k,
            {
                let c = slice_of(&tail[k], 0, tail[k].len());
                assert(c@ =~= tail@[k as int]@);
                let ghost before = views(r@);
                r.push(c);
                assert(views(r@) =~= before.push(c@));
                assert(views(tail@).take(k + 1) =~= views(tail@).take(k as int).push(tail@[k as int]@));
                k += 1;
            }
            assert(views(tail@).take(tail@.len() as int) =~= views(tail@));
            r
        },
    }
}

/// The entries of a memory file: pieces between `§` lines, trimmed, empty
/// ones dropped.
pub fn parse_entries(content: &str) -> (r: Vec<String>)
    ensures
        strs(r@) == entries_spec(content@),
{
    let sep = chars_of(ENTRY_DELIMITER);
    proof {
        reveal_strlit("\n\u{a7}\n");
    }
    let pieces = split_on(&chars_of(content), &sep);
    let ghost p = views(pieces@);
    let mut out: Vec<String> = Vec::new();
    let mut i: usize = 0;
    assert(strs(out@) =~= Seq::<Seq<char>>::empty());
    while i < pieces.len()
        invariant
            i <= pieces@.len(),
            p == views(pieces@),
            p == split_str_spec(content@, ENTRY_DELIMITER@),
            strs(out@) == kept_entries(p, i as int),
        decreases pieces.len() - i,
    {
        assert(p[i as int] == pieces@[i as int]@);
        let t = trim(&pieces[i]);
        if t.len() > 0 {
            let ghost before = strs(out@);
            out.push(string_of(&t));
            assert(strs(out@) =~= before.push(t@));
        }
        i += 1;
    }
    out
}

/// Lines of a legacy memory file that are entries: trimmed, non-empty and
/// not headings.
pub open spec fn legacy_kept(lines: Seq<Seq<char>>, k: int) -> Seq<Seq<char>>
    decreases k,
{
    if k <= 0 {
        Seq::empty()
    } else {
        let prev = legacy_kept(lines, k - 1);
        let t = trim_spec(lines[k - 1]);
        if t.len() == 0 || t[0] == '#' {
            prev
        } else {
            prev.push(t)
        }
    }
}

pub open spec fn legacy_entries(text: Seq<char>) -> Seq<Seq<char>> {
    legacy_kept(lines_spec(text), lines_spec(text).len() as int)
}

fn parse_legacy(text: &str) -> (r: Vec<Vec<char>>)
    ensures
        views(r@) == legacy_entries(text@),
{
    let ls = lines_of(&chars_of(text));
    let ghost l = views(ls@);
    let mut out: Vec<Vec<char>> = Vec::new();
    let mut i: usize = 0;
    assert(views(out@) =~= Seq::<Seq<char>>::empty());
    while i < ls.len()
        invariant
            i <= ls@.len(),
            l == views(ls@),
            l == lines_spec(text@),
            views(out@) == legacy_kept(l, i as int),
        decreases ls.len() - i,
    {
        assert(l[i as int] == ls@[i as int]@);
        let t = trim(&ls[i]);
        if t.len() > 0 && t[0] != '#' {
            let ghost before = views(out@);
            out.push(t);
            assert(views(out@) =~= before.push(t@));
        }
        i += 1;
    }
    out
}

pub open spec fn bullet_block(header: Seq<char>, entries: Seq<Seq<char>>) -> Seq<char> {
    header + "- "@ + join_spec(entries, "\n- "@)
}

fn bullets(header: &str, entries: &Vec<Vec<char>>) -> (r: String)
    ensures
        r@ == bullet_block(header@, views(entries@)),
{
    let mut out = chars_of(header);
    push_str(&mut out, "- ");
    let sep = chars_of("\n- ");
    let body = join(entries, &sep);
    push_all(&mut out, &body);
    assert(out@ =~= bullet_block(header@, views(entries@)));
    string_of(&out)
}

fn as_chars_list(v: &[String]) -> (r: Vec<Vec<char>>)
    ensures
        views(r@) == strs(v@),
{
    let mut out: Vec<Vec<char>> = Vec::new();
    let mut i: usize = 0;
    while i < v.len()
        invariant
            i <= v@.len(),
            views(out@) == strs(v@).take(i as int),
        decreases v.len() - i,
    {
        let c = chars_of(v[i].as_str());
        let ghost before = views(out@);
        out.push(c);
        assert(views(out@) =~= before.push(c@));
        assert(strs(v@).take(i + 1) =~= strs(v@).take(i as int).push(v@[i as int]@));
        i += 1;
    }
    assert(strs(v@).take(v@.len() as int) =~= strs(v@));
    out
}

/// The user and memory blocks injected into the system prompt.
pub open spec fn snapshot_spec(user: Seq<Seq<char>>, memory: Seq<Seq<char>>, legacy: Option<Seq<char>>) -> (Seq<char>, Seq<char>) {
    let mem = if memory.len() == 0 {
        match legacy {
            Some(t) => if legacy_entries(t).len() > 0 {
                legacy_entries(t)
            } else {
                memory
            },
            None => memory,
        }
    } else {
        memory
    };
    (
        if user.len() == 0 {
            "No user profile recorded yet."@
        } else {
            bullet_block("Profile of the user (from USER.md):\n\n"@, user)
        },
        if mem.len() == 0 {
            "No general memories recorded yet."@
        } else {
            bullet_block("General observations and facts (from MEMORY.md):\n\n"@, mem)
        },
    )
}

/// The prompt blocks for the user and memory entries. `legacy` is the text
/// of the old single memory file, used when `MEMORY.md` has no entries.
pub fn snapshot_blocks(user_entries: &[String], memory_entries: &[String], legacy: Option<&str>) -> (r: (String, String))
    ensures
        (r.0@, r.1@) == snapshot_spec(strs(user_entries@), strs(memory_entries@), match legacy {
            Some(t) => Some(t@),
            None => None,
        }),
{
    let user = as_chars_list(user_entries);
    let mut mem = as_chars_list(memory_entries);
    if mem.len() == 0 {
        match legacy {
            Some(t) => {
                let l = parse_legacy(t);
                if l.len() > 0 {
                    mem = l;
                }
            },
            None => {},
        }
    }
    let user_block = if user.len() == 0 {
        to_string("No user profile recorded yet.")
    } else {
        bullets("Profile of the user (from USER.md):\n\n", &user)
    };
    let memory_block = if mem.len() == 0 {
        to_string("No general memories recorded yet.")
    } else {
        bullets("General observations and facts (from MEMORY.md):\n\n", &mem)
    };
    (user_block, memory_block)
}

// ---------------------------------------------------------------------------
// Edits
// ---------------------------------------------------------------------------

/// The new entries of a file, their serialized text and the message to show
/// once written.
#[derive(Debug, Clone)]
pub struct MemoryWrite {
    pub entries: Vec<String>,
    pub serialized: String,
    pub message: String,
}

/// What an edit comes to: nothing to write, or a write.
#[derive(Debug, Clone)]
pub enum MemoryOutcome {
    Unchanged(String),
    Write(MemoryWrite),
}

pub open spec fn serialized_spec(entries: Seq<Seq<char>>) -> Seq<char> {
    join_spec(entries, ENTRY_DELIMITER@)
}

pub open spec fn write_is(w: MemoryWrite, entries: Seq<Seq<char>>, message: Seq<char>) -> bool {
    strs(w.entries@) == entries && w.serialized@ == serialized_spec(entries) && w.message@ == message
}

/// Bytes the entries take once serialized.
pub open spec fn budget_used(entries: Seq<Seq<char>>) -> int
    decreases entries.len(),
{
    if entries.len() == 0 {
        0
    } else {
        budget_used(entries.drop_last()) + bytes_len(entries.last()) + 4
    }
}

pub open spec fn size_limit_msg(t: MemoryTarget) -> Seq<char> {
    t.label_spec() + " is near its size limit ("@ + decimal_spec(t.limit_spec() as nat)
        + " chars). Remove older entries before adding new ones."@
}

pub open spec fn append_spec(t: MemoryTarget, entries: Seq<Seq<char>>, content: Seq<char>) -> Result<
    (Option<Seq<Seq<char>>>, Seq<char>),
    Seq<char>,
> {
    let c = trim_spec(content);
    if c.len() == 0 {
        Err("Memory content is empty."@)
    } else if entries.contains(c) {
        Ok((None, "Already recorded in "@ + t.label_spec() + "."@))
    } else if budget_used(entries) + bytes_len(c) > t.limit_spec() {
        Err(size_limit_msg(t))
    } else {
        Ok((Some(entries.push(c)), "Saved to "@ + t.label_spec() + "."@))
    }
}

pub open spec fn outcome_is(o: MemoryOutcome, spec: (Option<Seq<Seq<char>>>, Seq<char>)) -> bool {
    match o {
        MemoryOutcome::Unchanged(m) => spec.0 is None && m@ == spec.1,
        MemoryOutcome::Write(w) => spec.0 matches Some(es) && write_is(w, es, spec.1),
    }
}

fn message(a: &str, label: &str, b: &str) -> (r: String)
    ensures
        r@ == a@ + label@ + b@,
{
    let mut m = chars_of(a);
    push_str(&mut m, label);
    push_str(&mut m, b);
    assert(m@ =~= a@ + label@ + b@);
    string_of(&m)
}

fn make_write(entries: Vec<String>, msg: String) -> (r: MemoryWrite)
    ensures
        write_is(r, strs(entries@), msg@),
{
    let parts = as_chars_list(&entries);
    let sep = chars_of(ENTRY_DELIMITER);
    let serialized = string_of(&join(&parts, &sep));
    MemoryWrite { entries, serialized, message: msg }
}

fn contains_entry(entries: &[String], c: &[char]) -> (r: bool)
    ensures
        r == strs(entries@).contains(c@),
{
    let mut i: usize = 0;
    while i < entries.len()
        invariant
            i <= entries@.len(),
            forall|j: int| 0 <= j < i ==> strs(entries@)[j] != c@,
        decreases entries.len() - i,
    {
        if crate::text::eq_chars(&chars_of(entries[i].as_str()), c) {
            assert(strs(entries@)[i as int] == c@);
            return true;
        }
        i += 1;
    }
    false
}

fn budget_exec(entries: &[String]) -> (r: usize)
    ensures
        r == (if budget_used(strs(entries@)) > usize::MAX { usize::MAX as int } else { budget_used(strs(entries@)) }),
{
    let mut total: usize = 0;
    let mut i: usize = 0;
    while i < entries.len()
        invariant
            i <= entries@.len(),
            total == (if budget_used(strs(entries@).take(i as int)) > usize::MAX { usize::MAX as int } else { budget_used(strs(entries@).take(i as int)) }),
        decreases entries.len() - i,
    {
        assert(strs(entries@).take(i + 1).drop_last() =~= strs(entries@).take(i as int));
        let b = str_bytes_len(entries[i].as_str());
        total = total.saturating_add(b).saturating_add(4);
        i += 1;
    }
    assert(strs(entries@).take(entries@.len() as int) =~= strs(entries@));
    total
}

/// Adding `content` to the target's entries: refused when empty or over the
/// size budget; nothing to write when already present.
pub fn plan_append(target: MemoryTarget, entries: &[String], content: &str) -> (r: Result<MemoryOutcome, String>)
    ensures
        match r {
            Ok(o) => append_spec(target, strs(entries@), content@) matches Ok(s) && outcome_is(o, s),
            Err(e) => append_spec(target, strs(entries@), content@) == Err::<(Option<Seq<Seq<char>>>, Seq<char>), Seq<char>>(e@),
        },
{
    let c = trim_str(content);
    if c.len() == 0 {
        return Err(to_string("Memory content is empty."));
    }
    let label = target.label();
    if contains_entry(entries, &c) {
        return Ok(MemoryOutcome::Unchanged(message("Already recorded in ", label, ".")));
    }
    let used = budget_exec(entries);
    let cb = str_bytes_len(string_of(&c).as_str());
    if used.saturating_add(cb) > target.char_limit() {
        let mut m = chars_of(label);
        push_str(&mut m, " is near its size limit (");
        push_all(&mut m, &decimal(target.char_limit() as u64));
        push_str(&mut m, " chars). Remove older entries before adding new ones.");
        assert(m@ =~= size_limit_msg(target));
        return Err(string_of(&m));
    }
    let mut next: Vec<String> = Vec::new();
    let mut i: usize = 0;
    while i < entries.len()
        invariant
            i <= entries@.len(),
            strs(next@) == strs(entries@).take(i as int),
        decreases entries.len() - i,
    {
        let s = to_string(entries[i].as_str());
        let ghost before = strs(next@);
        next.push(s);
        assert(strs(next@) =~= before.push(entries@[i as int]@));
        assert(strs(entries@).take(i + 1) =~= strs(entries@).take(i as int).push(entries@[i as int]@));
        i += 1;
    }
    assert(strs(entries@).take(entries@.len() as int) =~= strs(entries@));
    let ghost before = strs(next@);
    next.push(string_of(&c));
    assert(strs(next@) =~= before.push(c@));
    Ok(MemoryOutcome::Write(make_write(next, message("Saved to ", label, "."))))
}

/// Index of the first entry containing `sub`.
pub open spec fn first_containing(entries: Seq<Seq<char>>, sub: Seq<char>, k: int) -> Option<int>
    decreases k,
{
    if k <= 0 {
        None
    } else {
        match first_containing(entries, sub, k - 1) {
            Some(i) => Some(i),
            None => if find_spec(entries[k - 1], sub) is Some {
                Some(k - 1)
            } else {
                None
            },
        }
    }
}

pub open spec fn no_entry_msg(t: MemoryTarget, sub: Seq<char>) -> Seq<char> {
    "No entry in "@ + t.label_spec() + " contains '"@ + sub + "'."@
}

pub open spec fn replace_spec(t: MemoryTarget, entries: Seq<Seq<char>>, sub: Seq<char>, content: Seq<char>) -> Result<
    (Seq<Seq<char>>, Seq<char>),
    Seq<char>,
> {
    let c = trim_spec(content);
    if c.len() == 0 {
        Err("Replacement content is empty."@)
    } else {
        match first_containing(entries, sub, entries.len() as int) {
            Some(i) => Ok((entries.update(i, c), "Updated "@ + t.label_spec() + "."@)),
            None => Err(no_entry_msg(t, sub)),
        }
    }
}

fn contains_text(s: &String, sub: &[char]) -> (r: bool)
    ensures
        r == (find_spec(s@, sub@) is Some),
{
    crate::text::find_first(&chars_of(s.as_str()), sub).is_some()
}

proof fn lemma_first_containing_stable(entries: Seq<Seq<char>>, sub: Seq<char>, i: int, k: int)
    requires
        i <= k,
        first_containing(entries, sub, i) is Some,
    ensures
        first_containing(entries, sub, k) == first_containing(entries, sub, i),
    decreases k - i,
{
    if k > i {
        lemma_first_containing_stable(entries, sub, i, k - 1);
    }
}

fn no_entry(target: MemoryTarget, sub: &str) -> (r: String)
    ensures
        r@ == no_entry_msg(target, sub@),
{
    let mut m = chars_of("No entry in ");
    push_str(&mut m, target.label());
    push_str(&mut m, " contains '");
    push_str(&mut m, sub);
    push_str(&mut m, "'.");
    assert(m@ =~= no_entry_msg(target, sub@));
    string_of(&m)
}

/// Replacing the first entry that contains `substring` with `content`.
pub fn plan_replace(target: MemoryTarget, entries: &[String], substring: &str, content: &str) -> (r: Result<MemoryWrite, String>)
    ensures
        match r {
            Ok(w) => replace_spec(target, strs(entries@), substring@, content@) matches Ok(s) && write_is(w, s.0, s.1),
            Err(e) => replace_spec(target, strs(entries@), substring@, content@) == Err::<(Seq<Seq<char>>, Seq<char>), Seq<char>>(e@),
        },
{
    let c = trim_str(content);
    if c.len() == 0 {
        return Err(to_string("Replacement content is empty."));
    }
    let sub = chars_of(substring);
    let ghost es = strs(entries@);
    let mut next: Vec<String> = Vec::new();
    let mut found: bool = false;
    let mut i: usize = 0;
    while i < entries.len()
        invariant
            i <= entries@.len(),
            es == strs(entries@),
            sub@ == substring@,
            strs(next@).len() == i,
            !found ==> first_containing(es, sub@, i as int) is None && strs(next@) == es.take(i as int),
            found ==> (first_containing(es, sub@, i as int) matches Some(k) && 0 <= k < i && strs(next@) == es.take(i as int).update(k, c@)),
        decreases entries.len() - i,
    {
        let ghost before = strs(next@);
        if !found && contains_text(&entries[i], &sub) {
            next.push(string_of(&c));
            found = true;
            assert(strs(next@) =~= es.take(i + 1).update(i as int, c@));
        } else {
            next.push(to_string(entries[i].as_str()));
            proof {
                if found {
                    let k = first_containing(es, sub@, i as int)->0;
                    lemma_first_containing_stable(es, sub@, i as int, i + 1);
                    assert(es.take(i + 1).update(k, c@) =~= es.take(i as int).update(k, c@).push(es[i as int]));
                    assert(strs(next@) =~= es.take(i + 1).update(k, c@));
                } else {
                    assert(strs(next@) =~= es.take(i + 1));
                }
            }
        }
        i += 1;
    }
    assert(es.take(entries@.len() as int) =~= es);
    if !found {
        return Err(no_entry(target, substring));
    }
    Ok(make_write(next, message("Updated ", target.label(), ".")))
}

/// Entries of the first `k` that do not contain `sub`.
pub open spec fn without_containing(entries: Seq<Seq<char>>, sub: Seq<char>, k: int) -> Seq<Seq<char>>
    decreases k,
{
    if k <= 0 {
        Seq::empty()
    } else {
        let prev = without_containing(entries, sub, k - 1);
        if find_spec(entries[k - 1], sub) is Some {
            prev
        } else {
            prev.push(entries[k - 1])
        }
    }
}

pub open spec fn remove_spec(t: MemoryTarget, entries: Seq<Seq<char>>, sub: Seq<char>) -> Result<
    (Seq<Seq<char>>, Seq<char>),
    Seq<char>,
> {
    let kept = without_containing(entries, sub, entries.len() as int);
    if kept.len() == entries.len() {
        Err(no_entry_msg(t, sub))
    } else {
        Ok((kept, "Removed from "@ + t.label_spec() + "."@))
    }
}

/// Removing every entry that contains `substring`.
pub fn plan_remove(target: MemoryTarget, entries: &[String], substring: &str) -> (r: Result<MemoryWrite, String>)
    ensures
        match r {
            Ok(w) => remove_spec(target, strs(entries@), substring@) matches Ok(s) && write_is(w, s.0, s.1),
            Err(e) => remove_spec(target, strs(entries@), substring@) == Err::<(Seq<Seq<char>>, Seq<char>), Seq<char>>(e@),
        },
{
    let sub = chars_of(substring);
    let ghost es = strs(entries@);
    let mut next: Vec<String> = Vec::new();
    let mut i: usize = 0;
    assert(strs(next@) =~= Seq::<Seq<char>>::empty());
    while i < entries.len()
        invariant
            i <= entries@.len(),
            es == strs(entries@),
            sub@ == substring@,
            strs(next@) == without_containing(es, sub@, i as int),
        decreases entries.len() - i,
    {
        if !contains_text(&entries[i], &sub) {
            let ghost before = strs(next@);
            next.push(to_string(entries[i].as_str()));
            assert(strs(next@) =~= before.push(es[i as int]));
        }
        i += 1;
    }
    if next.len() == entries.len() {
        return Err(no_entry(target, substring));
    }
    Ok(make_write(next, message("Removed from ", target.label(), ".")))
}

pub open spec fn read_spec(t: MemoryTarget, entries: Seq<Seq<char>>) -> Seq<char> {
    if entries.len() == 0 {
        t.label_spec() + " is empty."@
    } else {
        bullet_block(t.label_spec() + " entries:\n\n"@, entries)
    }
}

/// What the memory tool shows for the target's entries.
pub fn render_entries(target: MemoryTarget, entries: &[String]) -> (r: String)
    ensures
        r@ == read_spec(target, strs(entries@)),
{
    let es = as_chars_list(entries);
    if es.len() == 0 {
        let mut m = chars_of(target.label());
        push_str(&mut m, " is empty.");
        return string_of(&m);
    }
    let mut header = chars_of(target.label());
    push_str(&mut header, " entries:\n\n");
    bullets(string_of(&header).as_str(), &es)
}

} // verus!
