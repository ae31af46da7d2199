//! Paths as the tools see them: tilde expansion, cwd-relative resolution
//! and the macOS screenshot filename variants tried by `read`.
//!
//! Paths are POSIX strings. A path is a root flag and a list of components:
//! the pieces between `/` separators, where empty pieces and `.` are
//! dropped (a leading `.` of a relative path is kept as a component of its
//! own when the path is compared, as `std::path` does).

use vstd::prelude::*;
use crate::text::{
    chars_of, eq_chars, join, join_spec, push_all, push_char, push_str, split_char, split_spec,
    starts_with, string_of, views,
};

verus! {

pub const NARROW_NO_BREAK_SPACE: char = '\u{202F}';

pub open spec fn unicode_space(c: char) -> bool {
    c == '\u{A0}' || ('\u{2000}' <= c && c <= '\u{200A}') || c == '\u{202F}' || c == '\u{205F}' || c
        == '\u{3000}'
}

fn is_unicode_space(c: char) -> (r: bool)
    ensures
        r == unicode_space(c),
{
    c == '\u{A0}' || ('\u{2000}' <= c && c <= '\u{200A}') || c == '\u{202F}' || c == '\u{205F}' || c
        == '\u{3000}'
}

// ---------------------------------------------------------------------------
// Path algebra
// ---------------------------------------------------------------------------

pub open spec fn is_abs(p: Seq<char>) -> bool {
    p.len() > 0 && p[0] == '/'
}

/// `PathBuf::join`: an absolute `b` replaces `a`; otherwise `b` is appended
/// with a separator unless `a` is empty or already ends with one.
pub open spec fn path_join(a: Seq<char>, b: Seq<char>) -> Seq<char> {
    if is_abs(b) {
        b
    } else if a.len() == 0 || a.last() == '/' {
        a + b
    } else {
        a + seq!['/'] + b
    }
}

/// The non-empty pieces of the first `k` pieces that are not `.`.
pub open spec fn kept_pieces(ps: Seq<Seq<char>>, k: int) -> Seq<Seq<char>>
    decreases k,
{
    if k <= 0 {
        Seq::empty()
    } else {
        let prev = kept_pieces(ps, k - 1);
        if ps[k - 1].len() == 0 || ps[k - 1] == seq!['.'] {
            prev
        } else {
            prev.push(ps[k - 1])
        }
    }
}

/// The named components of `p` (`..` included), in order.
pub open spec fn body(p: Seq<char>) -> Seq<Seq<char>> {
    let ps = split_spec(p, '/');
    kept_pieces(ps, ps.len() as int)
}

/// All components of `p` as `Path::components` yields them, each as its
/// text: `/` for the root, `.` for a leading current-directory marker.
pub open spec fn components(p: Seq<char>) -> Seq<Seq<char>> {
    (if is_abs(p) {
        seq![seq!['/']]
    } else if split_spec(p, '/')[0] == seq!['.'] {
        seq![seq!['.']]
    } else {
        Seq::empty()
    }) + body(p)
}

/// Applying the first `k` components: `..` removes the last kept component
/// when that is a name, and is kept itself otherwise (so the leading `..`
/// of a relative path stay).
pub open spec fn fold_components(cs: Seq<Seq<char>>, k: int) -> Seq<Seq<char>>
    decreases k,
{
    if k <= 0 {
        Seq::empty()
    } else {
        let prev = fold_components(cs, k - 1);
        if cs[k - 1] == seq!['.', '.'] {
            if prev.len() > 0 && prev.last() != seq!['.', '.'] {
                prev.drop_last()
            } else {
                prev.push(cs[k - 1])
            }
        } else {
            prev.push(cs[k - 1])
        }
    }
}

/// `.` and `..` resolved without touching the filesystem.
pub open spec fn normalize_spec(p: Seq<char>) -> Seq<char> {
    let cs = fold_components(body(p), body(p).len() as int);
    if is_abs(p) {
        seq!['/'] + join_spec(cs, seq!['/'])
    } else {
        join_spec(cs, seq!['/'])
    }
}

fn kept_components(p: &[char]) -> (r: Vec<Vec<char>>)
    ensures
        views(r@) == body(p@),
{
    let ps = split_char(p, '/');
    let ghost pv = views(ps@);
    let mut out: Vec<Vec<char>> = Vec::new();
    let mut i: usize = 0;
    let dot = ['.'];
    assert(dot@ == seq!['.']);
    assert(views(out@) =~= Seq::<Seq<char>>::empty());
    while i < ps.len()
        invariant
            i <= ps@.len(),
            pv == views(ps@),
            pv == split_spec(p@, '/'),
            dot@ == seq!['.'],
            views(out@) == kept_pieces(pv, i as int),
        decreases ps.len() - i,
    {
        assert(pv[i as int] == ps@[i as int]@);
        if ps[i].len() > 0 && !eq_chars(&ps[i], &dot) {
            let ghost before = views(out@);
            let c = copy_chars(&ps[i]);
            out.push(c);
            assert(views(out@) =~= before.push(pv[i as int]));
        }
        i += 1;
    }
    out
}

fn copy_chars(v: &Vec<char>) -> (r: Vec<char>)
    ensures
        r@ == v@,
{
    let r = crate::text::slice_of(v, 0, v.len());
    assert(v@.subrange(0, v@.len() as int) =~= v@);
    r
}

fn slash_join(parts: &Vec<Vec<char>>) -> (r: Vec<char>)
    ensures
        r@ == join_spec(views(parts@), seq!['/']),
{
    let sl = ['/'];
    assert(sl@ == seq!['/']);
    join(parts, &sl)
}

/// Lexically normalize `.` and `..` components (no filesystem access).
pub fn normalize_lexically(path: &str) -> (r: String)
    ensures
        r@ == normalize_spec(path@),
{
    let p = chars_of(path);
    let cs = kept_components(&p);
    let ghost b = views(cs@);
    let mut out: Vec<Vec<char>> = Vec::new();
    let dd = ['.', '.'];
    assert(dd@ == seq!['.', '.']);
    let mut i: usize = 0;
    assert(views(out@) =~= Seq::<Seq<char>>::empty());
    while i < cs.len()
        invariant
            i <= cs@.len(),
            b == views(cs@),
            dd@ == seq!['.', '.'],
            views(out@) == fold_components(b, i as int),
        decreases cs.len() - i,
    {
        assert(b[i as int] == cs@[i as int]@);
        let ghost before = views(out@);
        let n = out.len();
        if eq_chars(&cs[i], &dd) && n > 0 && !eq_chars(&out[n - 1], &dd) {
            assert(before.last() == out@[n - 1]@);
            out.pop();
            assert(views(out@) =~= before.drop_last());
        } else {
            let c = copy_chars(&cs[i]);
            out.push(c);
            assert(views(out@) =~= before.push(b[i as int]));
        }
        i += 1;
    }
    let joined = slash_join(&out);
    if p.len() > 0 && p[0] == '/' {
        let mut r = vec!['/'];
        push_all(&mut r, &joined);
        string_of(&r)
    } else {
        string_of(&joined)
    }
}

pub(crate) fn join_path(a: &[char], b: &[char]) -> (r: Vec<char>)
    ensures
        r@ == path_join(a@, b@),
{
    if b.len() > 0 && b[0] == '/' {
        return crate::text::slice_of(b, 0, b.len());
    }
    let mut r = crate::text::slice_of(a, 0, a.len());
    if !(a.len() == 0 || a[a.len() - 1] == '/') {
        r.push('/');
    }
    push_all(&mut r, b);
    r
}

// ---------------------------------------------------------------------------
// Expansion and resolution
// ---------------------------------------------------------------------------

pub open spec fn tilde_slash() -> Seq<char> {
    seq!['~', '/']
}

pub open spec fn file_scheme() -> Seq<char> {
    "file://"@
}

/// Unicode spaces replaced by ' ' and a leading '@' dropped.
pub open spec fn cleaned(input: Seq<char>) -> Seq<char> {
    let s = Seq::new(input.len(), |i: int| if unicode_space(input[i]) { ' ' } else { input[i] });
    if s.len() > 0 && s[0] == '@' {
        s.drop_first()
    } else {
        s
    }
}

/// Whether expanding `input` consults the home directory.
pub open spec fn needs_home(input: Seq<char>) -> bool {
    let s = cleaned(input);
    s == seq!['~'] || tilde_slash().is_prefix_of(s)
}

/// A model-supplied path with `home` as the home directory: unicode spaces
/// become ' ', a leading '@' is dropped, `~` expands, `file://` unwraps.
pub open spec fn expand_spec(input: Seq<char>, home: Seq<char>) -> Seq<char> {
    let s = cleaned(input);
    if s == seq!['~'] {
        home
    } else if tilde_slash().is_prefix_of(s) {
        path_join(home, s.skip(2))
    } else if file_scheme().is_prefix_of(s) {
        s.skip(7)
    } else {
        s
    }
}

/// `input` expanded against the home directory `home`.
pub fn expand_path_in(input: &str, home: &str) -> (r: String)
    ensures
        r@ == expand_spec(input@, home@),
{
    let src = chars_of(input);
    let mut s: Vec<char> = Vec::new();
    let mut i: usize = 0;
    while i < src.len()
        invariant
            i <= src@.len(),
            src@ == input@,
            s@ == Seq::new(i as nat, |j: int| if unicode_space(input@[j]) { ' ' } else { input@[j] }),
        decreases src.len() - i,
    {
        let c = if is_unicode_space(src[i]) {
            ' '
        } else {
            src[i]
        };
        s.push(c);
        assert(s@ =~= Seq::new((i + 1) as nat, |j: int| if unicode_space(input@[j]) { ' ' } else { input@[j] }));
        i += 1;
    }
    let s = if s.len() > 0 && s[0] == '@' {
        crate::text::slice_of(&s, 1, s.len())
    } else {
        s
    };
    assert(s@ == cleaned(input@));
    let tilde = ['~'];
    let ts = ['~', '/'];
    let fs = chars_of("file://");
    assert(tilde@ == seq!['~']);
    assert(ts@ == tilde_slash());
    if eq_chars(&s, &tilde) {
        return crate::text::to_string(home);
    }
    if starts_with(&s, &ts) {
        let rest = crate::text::slice_of(&s, 2, s.len());
        assert(rest@ == s@.skip(2));
        return string_of(&join_path(&chars_of(home), &rest));
    }
    if starts_with(&s, &fs) {
        proof {
            reveal_strlit("file://");
        }
        let rest = crate::text::slice_of(&s, 7, s.len());
        assert(rest@ == s@.skip(7));
        return string_of(&rest);
    }
    string_of(&s)
}

#[verifier::external_body]
fn home_dir_from_env() -> (r: Option<String>) {
    dirs::home_dir().map(|p| p.to_string_lossy().into_owned())
}

/// The user's home directory, `/` when it cannot be determined.
pub fn home_dir() -> (r: String)
    ensures
        r@.len() > 0,
{
    proof {
        reveal_strlit("/");
    }
    match home_dir_from_env() {
        Some(h) => if chars_of(h.as_str()).len() > 0 {
            h
        } else {
            crate::text::to_string("/")
        },
        None => crate::text::to_string("/"),
    }
}

/// Normalize a model-supplied path: unicode spaces become ' ', a leading
/// `@` is dropped, `~` expands to the home directory, `file://` unwraps.
pub fn expand_path(input: &str) -> (r: String)
    ensures
        !needs_home(input@) ==> r@ == expand_spec(input@, Seq::empty()),
        needs_home(input@) ==> exists|h: Seq<char>| h.len() > 0 && r@ == #[trigger] expand_spec(input@, h),
{
    let home = home_dir();
    let r = expand_path_in(input, home.as_str());
    proof {
        if needs_home(input@) {
            assert(home@.len() > 0 && r@ == expand_spec(input@, home@));
        }
    }
    r
}

/// `input` resolved against `cwd` with `home` as the home directory.
pub open spec fn resolve_spec(input: Seq<char>, cwd: Seq<char>, home: Seq<char>) -> Seq<char> {
    let e = expand_spec(input, home);
    normalize_spec(if is_abs(e) {
        e
    } else {
        path_join(cwd, e)
    })
}

/// `input` resolved against `cwd` and normalized, with `home` for `~`.
pub fn resolve_to_cwd_in(input: &str, cwd: &str, home: &str) -> (r: String)
    ensures
        r@ == resolve_spec(input@, cwd@, home@),
{
    let e = expand_path_in(input, home);
    let ec = chars_of(e.as_str());
    if ec.len() > 0 && ec[0] == '/' {
        normalize_lexically(e.as_str())
    } else {
        let joined = string_of(&join_path(&chars_of(cwd), &ec));
        normalize_lexically(joined.as_str())
    }
}

/// Resolve a path relative to `cwd`, with tilde expansion.
pub fn resolve_to_cwd(input: &str, cwd: &str) -> (r: String)
    ensures
        !needs_home(input@) ==> r@ == resolve_spec(input@, cwd@, Seq::empty()),
        needs_home(input@) ==> exists|h: Seq<char>| h.len() > 0 && r@ == #[trigger] resolve_spec(input@, cwd@, h),
{
    let home = home_dir();
    let r = resolve_to_cwd_in(input, cwd, home.as_str());
    proof {
        if needs_home(input@) {
            assert(home@.len() > 0 && r@ == resolve_spec(input@, cwd@, home@));
        }
    }
    r
}

// ---------------------------------------------------------------------------
// Screenshot-name variants
// ---------------------------------------------------------------------------

pub open spec fn meridiem_at(s: Seq<char>, i: int) -> bool {
    i + 3 <= s.len() && s[i + 2] == '.' && ((s[i] == 'A' && s[i + 1] == 'M') || (s[i] == 'P' && s[i
        + 1] == 'M') || (s[i] == 'a' && s[i + 1] == 'm') || (s[i] == 'p' && s[i + 1] == 'm'))
}

/// Each space directly before `AM.`/`PM.`/`am.`/`pm.` replaced by a narrow
/// no-break space (how macOS names screenshots).
pub open spec fn screenshot_spec(s: Seq<char>) -> Seq<char>
    decreases s.len(),
{
    if s.len() == 0 {
        Seq::empty()
    } else if s[0] == ' ' && meridiem_at(s, 1) {
        seq!['\u{202F}', s[1], s[2], s[3]] + screenshot_spec(s.skip(4))
    } else {
        seq![s[0]] + screenshot_spec(s.drop_first())
    }
}

/// The path with a narrow no-break space before each `AM.`/`PM.` marker.
pub fn try_macos_screenshot_path(p: &str) -> (r: String)
    ensures
        r@ == screenshot_spec(p@),
{
    let s = chars_of(p);
    let mut out: Vec<char> = Vec::new();
    let mut i: usize = 0;
    assert(s@.skip(0) == s@);
    while i < s.len()
        invariant
            i <= s@.len(),
            s@ == p@,
            out@ + screenshot_spec(s@.skip(i as int)) == screenshot_spec(s@),
        decreases s.len() - i,
    {
        let ghost t = s@.skip(i as int);
        let ghost before = out@;
        if s[i] == ' ' && s.len() - i > 3 && s[i + 3] == '.' && ((s[i + 1] == 'A' && s[i + 2] == 'M')
            || (s[i + 1] == 'P' && s[i + 2] == 'M') || (s[i + 1] == 'a' && s[i + 2] == 'm') || (s[i
            + 1] == 'p' && s[i + 2] == 'm')) {
            assert(t[0] == ' ' && meridiem_at(t, 1));
            assert(t.skip(4) == s@.skip(i + 4));
            out.push('\u{202F}');
            out.push(s[i + 1]);
            out.push(s[i + 2]);
            out.push(s[i + 3]);
            assert(out@ == before + seq!['\u{202F}', t[1], t[2], t[3]]);
            i += 4;
        } else {
            assert(!(t[0] == ' ' && meridiem_at(t, 1)));
            assert(t.drop_first() == s@.skip(i + 1));
            out.push(s[i]);
            assert(out@ == before + seq![t[0]]);
            i += 1;
        }
    }
    assert(s@.skip(i as int) == Seq::<char>::empty());
    string_of(&out)
}

pub open spec fn curly_spec(s: Seq<char>) -> Seq<char> {
    Seq::new(s.len(), |i: int| if s[i] == '\'' { '\u{2019}' } else { s[i] })
}

/// The path with straight apostrophes replaced by curly ones.
pub fn try_curly_quote_variant(p: &str) -> (r: String)
    ensures
        r@ == curly_spec(p@),
{
    let s = chars_of(p);
    let mut out = String::new();
    let mut i: usize = 0;
    while i < s.len()
        invariant
            i <= s@.len(),
            s@ == p@,
            out@ == Seq::new(i as nat, |j: int| if s@[j] == '\'' { '\u{2019}' } else { s@[j] }),
        decreases s.len() - i,
    {
        let c = if s[i] == '\'' {
            '\u{2019}'
        } else {
            s[i]
        };
        push_char(&mut out, c);
        assert(out@ =~= Seq::new((i + 1) as nat, |j: int| if s@[j] == '\'' { '\u{2019}' } else { s@[j] }));
        i += 1;
    }
    out
}

/// The paths `read` tries, in order: the resolved path, then its
/// screenshot-name and curly-apostrophe variants.
pub fn read_path_candidates(resolved: &str) -> (r: Vec<String>)
    ensures
        r@.len() == 3,
        r@[0]@ == resolved@,
        r@[1]@ == screenshot_spec(resolved@),
        r@[2]@ == curly_spec(resolved@),
{
    let mut v: Vec<String> = Vec::new();
    v.push(crate::text::to_string(resolved));
    v.push(try_macos_screenshot_path(resolved));
    v.push(try_curly_quote_variant(resolved));
    v
}

/// Index of the first variant (after the first candidate) that differs
/// from the first candidate and exists, scanning the first `k` variants.
pub open spec fn first_existing_variant(c: Seq<Seq<char>>, exists: Seq<bool>, k: int) -> Option<int>
    decreases k,
{
    if k <= 1 {
        None
    } else {
        match first_existing_variant(c, exists, k - 1) {
            Some(i) => Some(i),
            None => if c[k - 1] != c[0] && exists[k - 1] {
                Some(k - 1)
            } else {
                None
            },
        }
    }
}

/// The path `read` opens: the first candidate when it exists, else the
/// first differing variant that exists, else the first candidate.
/// `exists[i]` says whether `candidates[i]` exists.
pub fn pick_read_path(candidates: &[String], exists: &[bool]) -> (r: String)
    requires
        candidates@.len() >= 1,
        exists@.len() == candidates@.len(),
    ensures
        r@ == if exists@[0] {
            candidates@[0]@
        } else {
            match first_existing_variant(
                candidates@.map_values(|s: String| s@),
                exists@,
                candidates@.len() as int,
            ) {
                Some(i) => candidates@[i]@,
                None => candidates@[0]@,
            }
        },
{
    let ghost cv = candidates@.map_values(|s: String| s@);
    if exists[0] {
        return crate::text::to_string(candidates[0].as_str());
    }
    let first = chars_of(candidates[0].as_str());
    let mut i: usize = 1;
    while i < candidates.len()
        invariant
            1 <= i <= candidates@.len(),
            exists@.len() == candidates@.len(),
            cv == candidates@.map_values(|s: String| s@),
            first@ == cv[0],
            !exists@[0],
            first_existing_variant(cv, exists@, i as int) is None,
        decreases candidates.len() - i,
    {
        assert(cv[i as int] == candidates@[i as int]@);
        if !eq_chars(&chars_of(candidates[i].as_str()), &first) && exists[i] {
            assert(first_existing_variant(cv, exists@, i + 1) == Some(i as int));
            proof {
                lemma_first_existing_stable(cv, exists@, i + 1, candidates@.len() as int);
            }
            return crate::text::to_string(candidates[i].as_str());
        }
        i += 1;
    }
    crate::text::to_string(candidates[0].as_str())
}

proof fn lemma_first_existing_stable(c: Seq<Seq<char>>, exists: Seq<bool>, i: int, k: int)
    requires
        i <= k,
        first_existing_variant(c, exists, i) is Some,
    ensures
        first_existing_variant(c, exists, k) == first_existing_variant(c, exists, i),
    decreases k - i,
{
    if k > i {
        lemma_first_existing_stable(c, exists, i, k - 1);
    }
}

// ---------------------------------------------------------------------------
// Relative paths
// ---------------------------------------------------------------------------

/// `path` relative to `base` with `/` separators, when `base`'s components
/// are a prefix of `path`'s.
pub open spec fn relative_spec(path: Seq<char>, base: Seq<char>) -> Option<Seq<char>> {
    let pc = components(path);
    let bc = components(base);
    if bc.is_prefix_of(pc) {
        Some(join_spec(pc.skip(bc.len() as int), seq!['/']))
    } else {
        None
    }
}

pub(crate) fn components_exec(p: &[char]) -> (r: Vec<Vec<char>>)
    ensures
        views(r@) == components(p@),
{
    let body = kept_components(p);
    let mut out: Vec<Vec<char>> = Vec::new();
    let pieces = split_char(p, '/');
    proof {
        crate::text::lemma_split_len(p@, '/');
    }
    let dot = ['.'];
    assert(dot@ == seq!['.']);
    if p.len() > 0 && p[0] == '/' {
        let root = vec!['/'];
        assert(root@ == seq!['/']);
        out.push(root);
    } else if eq_chars(&pieces[0], &dot) {
        let cur = vec!['.'];
        assert(cur@ == seq!['.']);
        out.push(cur);
    }
    let ghost head = views(out@);
    assert(head =~= (if is_abs(p@) {
        seq![seq!['/']]
    } else if split_spec(p@, '/')[0] == seq!['.'] {
        seq![seq!['.']]
    } else {
        Seq::empty()
    }));
    let mut i: usize = 0;
    while i < body.len()
        invariant
            i <= body@.len(),
            views(out@) == head + views(body@).take(i as int),
        decreases body.len() - i,
    {
        let c = copy_chars(&body[i]);
        let ghost before = views(out@);
        out.push(c);
        assert(views(out@) =~= before.push(c@));
        assert(views(body@).take(i + 1) =~= views(body@).take(i as int).push(body@[i as int]@));
        i += 1;
    }
    assert(views(body@).take(body@.len() as int) == views(body@));
    out
}

/// Path relative to `base` with `/` separators, or `None` if outside it.
pub fn relative_posix(path: &str, base: &str) -> (r: Option<String>)
    ensures
        match r {
            Some(s) => relative_spec(path@, base@) == Some(s@),
            None => relative_spec(path@, base@) is None,
        },
{
    let pc = components_exec(&chars_of(path));
    let bc = components_exec(&chars_of(base));
    let ghost pv = views(pc@);
    let ghost bv = views(bc@);
    if bc.len() > pc.len() {
        return None;
    }
    let mut i: usize = 0;
    while i < bc.len()
        invariant
            i <= bc@.len() <= pc@.len(),
            pv == views(pc@),
            bv == views(bc@),
            pv == components(path@),
            bv == components(base@),
            forall|j: int| 0 <= j < i ==> pv[j] == bv[j],
        decreases bc.len() - i,
    {
        if !eq_chars(&pc[i], &bc[i]) {
            assert(pv[i as int] != bv[i as int]);
            assert(pv.subrange(0, bv.len() as int)[i as int] == pv[i as int]);
            return None;
        }
        i += 1;
    }
    assert(bv.is_prefix_of(pv));
    let mut rest: Vec<Vec<char>> = Vec::new();
    let mut k: usize = bc.len();
    assert(views(rest@) =~= pv.skip(bv.len() as int).take(0));
    while k < pc.len()
        invariant
            bc@.len() <= k <= pc@.len(),
            pv == views(pc@),
            bv == views(bc@),
            views(rest@) == pv.skip(bv.len() as int).take(k - bv.len()),
        decreases pc.len() - k,
    {
        let c = copy_chars(&pc[k]);
        let ghost before = views(rest@);
        rest.push(c);
        assert(views(rest@) =~= before.push(c@));
        assert(pv.skip(bv.len() as int).take(k + 1 - bv.len()) =~= pv.skip(bv.len() as int).take(
            k - bv.len(),
        ).push(pv[k as int]));
        k += 1;
    }
    assert(pv.skip(bv.len() as int).take(pc@.len() - bv.len()) == pv.skip(bv.len() as int));
    Some(string_of(&slash_join(&rest)))
}

// ---------------------------------------------------------------------------
// File names and parents
// ---------------------------------------------------------------------------

/// The last named component of a path, or nothing when the path ends in
/// the root, `.` or `..` (`Path::file_name`).
pub open spec fn file_name_spec(p: Seq<char>) -> Seq<char> {
    let cs = components(p);
    if cs.len() > 0 && cs.last() != seq!['/'] && cs.last() != seq!['.'] && cs.last() != seq!['.', '.'] {
        cs.last()
    } else {
        Seq::empty()
    }
}

/// The last named component of `path` (`Path::file_name`), or an empty
/// string when there is none.
pub fn file_name(path: &str) -> (r: String)
    ensures
        r@ == file_name_spec(path@),
{
    let cs = components_exec(&chars_of(path));
    assert(views(cs@) == components(path@));
    if cs.len() == 0 {
        return String::new();
    }
    let last = &cs[cs.len() - 1];
    assert(last@ == components(path@).last());
    let root = ['/'];
    let dot = ['.'];
    let dotdot = ['.', '.'];
    assert(root@ == seq!['/']);
    assert(dot@ == seq!['.']);
    assert(dotdot@ == seq!['.', '.']);
    if eq_chars(last, &root) || eq_chars(last, &dot) || eq_chars(last, &dotdot) {
        String::new()
    } else {
        string_of(last)
    }
}

/// What `Path::parent` gives for `p`: `p` without its final component, or
/// `None` when `p` ends in a root or is empty.
pub uninterp spec fn parent_of(p: Seq<char>) -> Option<Seq<char>>;

/// `std::path::Path::parent`, taken as text.
#[verifier::external_body]
pub(crate) fn path_parent(p: &str) -> (r: Option<String>)
    ensures
        match r {
            Some(s) => parent_of(p@) == Some(s@),
            None => parent_of(p@) is None,
        },
{
    std::path::Path::new(p).parent().map(|q| q.to_string_lossy().to_string())
}

} // verus!
