//! Pure helpers of the HTTP server: request defaults, MIME guessing,
//! filename sanitizing, HTML titles, Python literals and the Ollama URL
//! policy.

use vstd::prelude::*;
use crate::assoc::{assoc_get, keyed, opt_view, position_keyed, position_str, str_pairs};
use crate::text::{
    join, join_spec, bytes_len, char_width, chars_of, find_first, find_spec, len_utf8, matches_at, push_all, push_char,
    push_str, replace, replace_spec, slice_of, str_eq, string_of, to_string, trim, trim_spec, trim_str,
};

verus! {

pub fn default_true() -> (r: bool)
    ensures
        r,
{
    true
}

pub fn default_octet_stream() -> (r: String)
    ensures
        r@ == "application/octet-stream"@,
{
    to_string("application/octet-stream")
}

pub fn default_file_kind() -> (r: String)
    ensures
        r@ == "file"@,
{
    to_string("file")
}

pub fn default_clean() -> (r: String)
    ensures
        r@ == "clean"@,
{
    to_string("clean")
}

pub fn default_export_title() -> (r: String)
    ensures
        r@ == "Document"@,
{
    to_string("Document")
}

// ---------------------------------------------------------------------------
// Python literals
// ---------------------------------------------------------------------------

/// `s` as a single-quoted Python literal: backslashes, then quotes escaped.
pub open spec fn py_literal(s: Seq<char>) -> Seq<char> {
    seq!['\''] + replace_spec(replace_spec(s, seq!['\\'], seq!['\\', '\\']), seq!['\''], seq!['\\', '\''])
        + seq!['\'']
}

/// Render `s` as a Python single-quoted literal, for interpolation into an
/// inline script.
pub fn python_str_lit(s: &str) -> (r: String)
    ensures
        r@ == py_literal(s@),
{
    let cs = chars_of(s);
    let bs = ['\\'];
    let bs2 = ['\\', '\\'];
    let q = ['\''];
    let eq = ['\\', '\''];
    assert(bs@ == seq!['\\']);
    assert(bs2@ == seq!['\\', '\\']);
    assert(q@ == seq!['\'']);
    assert(eq@ == seq!['\\', '\'']);
    let a = replace(&cs, &bs, &bs2);
    let b = replace(&a, &q, &eq);
    let mut out = vec!['\''];
    push_all(&mut out, &b);
    out.push('\'');
    assert(out@ =~= py_literal(s@));
    string_of(&out)
}

// ---------------------------------------------------------------------------
// MIME types and file names
// ---------------------------------------------------------------------------

/// What `str::to_lowercase` returns for a string.
pub uninterp spec fn lowercase(s: Seq<char>) -> Seq<char>;

/// `str::to_lowercase`: the Unicode lowercase of `s`.
#[verifier::external_body]
fn to_lowercase(s: &str) -> (r: String)
    ensures
        r@ == lowercase(s@),
{
    s.to_lowercase()
}

pub open spec fn ends(s: Seq<char>, t: Seq<char>) -> bool {
    t.len() <= s.len() && s.subrange(s.len() - t.len(), s.len() as int) == t
}

/// The MIME type for a lowercase file name, by its extension.
pub open spec fn mime_by_suffix(lower: Seq<char>) -> Seq<char> {
    if ends(lower, ".png"@) {
        "image/png"@
    } else if ends(lower, ".jpg"@) || ends(lower, ".jpeg"@) {
        "image/jpeg"@
    } else if ends(lower, ".gif"@) {
        "image/gif"@
    } else if ends(lower, ".pdf"@) {
        "application/pdf"@
    } else if ends(lower, ".json"@) {
        "application/json"@
    } else if ends(lower, ".md"@) {
        "text/markdown"@
    } else if ends(lower, ".txt"@) {
        "text/plain"@
    } else if ends(lower, ".html"@) {
        "text/html"@
    } else if ends(lower, ".csv"@) {
        "text/csv"@
    } else {
        "application/octet-stream"@
    }
}

fn ends_with_str(s: &[char], t: &str) -> (r: bool)
    ensures
        r == ends(s@, t@),
{
    let tc = chars_of(t);
    let e = crate::text::ends_with(s, &tc);
    proof {
        if tc@.len() <= s@.len() {
            assert(tc@.is_suffix_of(s@) == (s@.subrange(s@.len() - tc@.len(), s@.len() as int) == tc@));
        }
    }
    e
}

/// The MIME type of a file whose lowercased name is `lower`.
pub fn mime_for_lowercase_name(lower: &str) -> (r: String)
    ensures
        r@ == mime_by_suffix(lower@),
{
    let l = chars_of(lower);
    if ends_with_str(&l, ".png") {
        to_string("image/png")
    } else if ends_with_str(&l, ".jpg") || ends_with_str(&l, ".jpeg") {
        to_string("image/jpeg")
    } else if ends_with_str(&l, ".gif") {
        to_string("image/gif")
    } else if ends_with_str(&l, ".pdf") {
        to_string("application/pdf")
    } else if ends_with_str(&l, ".json") {
        to_string("application/json")
    } else if ends_with_str(&l, ".md") {
        to_string("text/markdown")
    } else if ends_with_str(&l, ".txt") {
        to_string("text/plain")
    } else if ends_with_str(&l, ".html") {
        to_string("text/html")
    } else if ends_with_str(&l, ".csv") {
        to_string("text/csv")
    } else {
        to_string("application/octet-stream")
    }
}

/// The MIME type of `filename`, by its case-insensitive extension.
pub fn guess_mime(filename: &str) -> (r: String)
    ensures
        r@ == mime_by_suffix(lowercase(filename@)),
{
    let lower = to_lowercase(filename);
    mime_for_lowercase_name(lower.as_str())
}

/// What `char::is_alphanumeric` says of a character.
pub uninterp spec fn alphanumeric(c: char) -> bool;

/// `char::is_alphanumeric`: Unicode `Alphabetic` or `Numeric`.
#[verifier::external_body]
fn is_alphanumeric(c: char) -> (r: bool)
    ensures
        r == alphanumeric(c),
{
    c.is_alphanumeric()
}

pub open spec fn filename_char(c: char) -> char {
    if alphanumeric(c) || c == '.' || c == '-' || c == '_' {
        c
    } else {
        '_'
    }
}

/// `name` with every character other than alphanumerics, `.`, `-` and `_`
/// replaced by `_`.
pub fn sanitize_filename(name: &str) -> (r: String)
    ensures
        r@ == Seq::new(name@.len(), |i: int| filename_char(name@[i])),
{
    let cs = chars_of(name);
    let mut out = String::new();
    let mut i: usize = 0;
    while i < cs.len()
        invariant
            i <= cs@.len(),
            cs@ == name@,
            out@ == Seq::new(i as nat, |j: int| filename_char(name@[j])),
        decreases cs.len() - i,
    {
        let c = cs[i];
        let k = if is_alphanumeric(c) || c == '.' || c == '-' || c == '_' {
            c
        } else {
            '_'
        };
        push_char(&mut out, k);
        assert(out@ =~= Seq::new((i + 1) as nat, |j: int| filename_char(name@[j])));
        i += 1;
    }
    out
}

// ---------------------------------------------------------------------------
// HTML
// ---------------------------------------------------------------------------

/// The trimmed text between the first `<title>` and the first `</title>`
/// after it; empty when either is missing.
pub open spec fn html_title(html: Seq<char>) -> Seq<char> {
    match find_spec(html, "<title>"@) {
        Some(start) => {
            let rest = html.skip(start + 7);
            match find_spec(rest, "</title>"@) {
                Some(end) => trim_spec(rest.take(end)),
                None => Seq::empty(),
            }
        },
        None => Seq::empty(),
    }
}

pub fn extract_html_title(html: &str) -> (r: String)
    ensures
        r@ == html_title(html@),
{
    let h = chars_of(html);
    let hn = h.len();
    let open = chars_of("<title>");
    let close = chars_of("</title>");
    proof {
        reveal_strlit("<title>");
    }
    match find_first(&h, &open) {
        Some(start) => {
            assert(matches_at(h@, open@, start as int));
            assert(open@.len() == 7);
            let rest = slice_of(&h, start + open.len(), h.len());
            assert(rest@ =~= h@.skip(start + 7));
            match find_first(&rest, &close) {
                Some(end) => {
                    assert(matches_at(rest@, close@, end as int));
                    let t = slice_of(&rest, 0, end);
                    assert(t@ =~= rest@.take(end as int));
                    string_of(&trim(&t))
                },
                None => String::new(),
            }
        },
        None => String::new(),
    }
}

// ---------------------------------------------------------------------------
// Ollama URLs
// ---------------------------------------------------------------------------

/// `s` without trailing `/` characters.
pub open spec fn strip_slashes(s: Seq<char>) -> Seq<char>
    decreases s.len(),
{
    if s.len() > 0 && s.last() == '/' {
        strip_slashes(s.drop_last())
    } else {
        s
    }
}

fn strip_slashes_exec(v: &[char]) -> (r: Vec<char>)
    ensures
        r@ == strip_slashes(v@),
{
    let mut e = v.len();
    assert(v@.take(e as int) =~= v@);
    while e > 0 && v[e - 1] == '/'
        invariant
            e <= v@.len(),
            strip_slashes(v@) == strip_slashes(v@.take(e as int)),
        decreases e,
    {
        assert(v@.take(e as int).drop_last() =~= v@.take(e - 1));
        e -= 1;
    }
    let r = slice_of(v, 0, e);
    assert(r@ =~= v@.take(e as int));
    r
}

pub open spec fn is_digit(c: char) -> bool {
    '0' <= c && c <= '9'
}

/// The number the decimal digits `d` spell.
pub open spec fn digits_value(d: Seq<char>) -> int
    decreases d.len(),
{
    if d.len() == 0 {
        0
    } else {
        digits_value(d.drop_last()) * 10 + (d.last() as int - '0' as int)
    }
}

/// `s` without a leading `+`.
pub open spec fn unsigned_digits(s: Seq<char>) -> Seq<char> {
    if s.len() > 0 && s[0] == '+' {
        s.drop_first()
    } else {
        s
    }
}

/// `str::parse::<u8>`: an optional `+`, then one or more ASCII digits whose
/// value is at most 255.
pub open spec fn parse_u8(s: Seq<char>) -> Option<int> {
    let d = unsigned_digits(s);
    if d.len() > 0 && (forall|i: int| 0 <= i < d.len() ==> is_digit(#[trigger] d[i])) && digits_value(d)
        <= 255 {
        Some(digits_value(d))
    } else {
        None
    }
}

fn parse_u8_exec(s: &[char]) -> (r: Option<u8>)
    ensures
        match r {
            Some(v) => parse_u8(s@) == Some(v as int),
            None => parse_u8(s@) is None,
        },
{
    let d = if s.len() > 0 && s[0] == '+' {
        slice_of(s, 1, s.len())
    } else {
        slice_of(s, 0, s.len())
    };
    assert(d@ =~= unsigned_digits(s@));
    if d.len() == 0 {
        return None;
    }
    let mut v: u32 = 0;
    let mut i: usize = 0;
    while i < d.len()
        invariant
            d@ == unsigned_digits(s@),
            i <= d@.len(),
            v <= 255,
            v == digits_value(d@.take(i as int)),
            forall|j: int| 0 <= j < i ==> is_digit(#[trigger] d@[j]),
        decreases d.len() - i,
    {
        let c = d[i];
        assert(d@.take(i + 1).drop_last() =~= d@.take(i as int));
        if !('0' <= c && c <= '9') {
            assert(!is_digit(d@[i as int]));
            assert(!(forall|j: int| 0 <= j < d@.len() ==> is_digit(#[trigger] d@[j])));
            assert(parse_u8(s@) is None);
            return None;
        }
        let nv = v * 10 + (c as u32 - '0' as u32);
        if nv > 255 {
            proof {
                lemma_digits_value_grows(d@, i + 1);
                assert(nv == digits_value(d@.take(i + 1)));
                assert(!((forall|j: int| 0 <= j < d@.len() ==> is_digit(#[trigger] d@[j])) && digits_value(d@) <= 255));
            }
            return None;
        }
        v = nv;
        i += 1;
    }
    assert(d@.take(d@.len() as int) =~= d@);
    Some(v as u8)
}

proof fn lemma_digits_value_grows(d: Seq<char>, k: int)
    requires
        0 <= k <= d.len(),
    ensures
        (forall|j: int| 0 <= j < d.len() ==> is_digit(#[trigger] d[j])) ==> digits_value(d) >= digits_value(d.take(k)),
    decreases d.len(),
{
    if k == d.len() {
        assert(d.take(k) =~= d);
    } else {
        lemma_digits_value_grows(d.drop_last(), k);
        assert(d.drop_last().take(k) =~= d.take(k));
        if forall|j: int| 0 <= j < d.len() ==> is_digit(#[trigger] d[j]) {
            assert forall|j: int| 0 <= j < d.drop_last().len() implies is_digit(#[trigger] d.drop_last()[j]) by {
                assert(d.drop_last()[j] == d[j]);
            }
            assert(is_digit(d[d.len() - 1]));
            assert(digits_value(d.drop_last()) >= 0) by {
                lemma_digits_value_nonneg(d.drop_last());
            }
        }
    }
}

proof fn lemma_digits_value_nonneg(d: Seq<char>)
    requires
        forall|j: int| 0 <= j < d.len() ==> is_digit(#[trigger] d[j]),
    ensures
        digits_value(d) >= 0,
    decreases d.len(),
{
    if d.len() > 0 {
        assert forall|j: int| 0 <= j < d.drop_last().len() implies is_digit(#[trigger] d.drop_last()[j]) by {
            assert(d.drop_last()[j] == d[j]);
        }
        lemma_digits_value_nonneg(d.drop_last());
        assert(is_digit(d[d.len() - 1]));
    }
}

/// Whether an Ollama base URL may be proxied: localhost, private networks
/// (192.168/16, 10/8, 172.16/12) or ollama.com.
pub open spec fn safe_ollama(url: Seq<char>) -> bool {
    let u = strip_slashes(trim_spec(url));
    ||| "http://localhost:"@.is_prefix_of(u)
    ||| "http://127.0.0.1:"@.is_prefix_of(u)
    ||| find_spec(u, "ollama.com"@) is Some
    ||| "http://192.168."@.is_prefix_of(u)
    ||| "http://10."@.is_prefix_of(u)
    ||| ("http://172."@.is_prefix_of(u) && match parse_u8(crate::text::split_spec(u.skip(11), '.')[0]) {
        Some(o) => 16 <= o <= 31,
        None => false,
    })
}

fn has_prefix(u: &[char], p: &str) -> (r: bool)
    ensures
        r == p@.is_prefix_of(u@),
{
    crate::text::starts_with(u, &chars_of(p))
}

/// Check whether an Ollama URL is safe to proxy.
pub fn is_safe_ollama_url(url: &str) -> (r: bool)
    ensures
        r == safe_ollama(url@),
{
    let u = strip_slashes_exec(&trim_str(url));
    if has_prefix(&u, "http://localhost:") || has_prefix(&u, "http://127.0.0.1:") {
        return true;
    }
    if find_first(&u, &chars_of("ollama.com")).is_some() {
        return true;
    }
    if has_prefix(&u, "http://192.168.") || has_prefix(&u, "http://10.") {
        return true;
    }
    if has_prefix(&u, "http://172.") {
        proof {
            reveal_strlit("http://172.");
        }
        let rest = slice_of(&u, 11, u.len());
        assert(rest@ =~= u@.skip(11));
        let parts = crate::text::split_char(&rest, '.');
        proof {
            crate::text::lemma_split_len(rest@, '.');
        }
        match parse_u8_exec(&parts[0]) {
            Some(o) => {
                return 16 <= o && o <= 31;
            },
            None => {
                return false;
            },
        }
    }
    false
}

pub const OLLAMA_DEFAULT_BASE: &'static str = "http://localhost:11434";

/// The canonical Ollama API root for a user-supplied base URL.
pub open spec fn ollama_base_spec(raw: Seq<char>) -> Seq<char> {
    let t = strip_slashes(trim_spec(raw));
    if t.len() == 0 {
        OLLAMA_DEFAULT_BASE@
    } else if ends(t, "/v1"@) {
        t.take(t.len() - 3)
    } else {
        t
    }
}

/// The Ollama API root: trimmed, without trailing slashes or a `/v1`
/// suffix; the local default when empty.
pub fn ollama_api_base(raw: &str) -> (r: String)
    ensures
        r@ == ollama_base_spec(raw@),
{
    let t = strip_slashes_exec(&trim_str(raw));
    if t.len() == 0 {
        return to_string(OLLAMA_DEFAULT_BASE);
    }
    if ends_with_str(&t, "/v1") {
        proof {
            reveal_strlit("/v1");
        }
        let s = slice_of(&t, 0, t.len() - 3);
        assert(s@ =~= t@.take(t@.len() - 3));
        return string_of(&s);
    }
    string_of(&t)
}

// ---------------------------------------------------------------------------
// Attachments
// ---------------------------------------------------------------------------

#[derive(Debug, Clone)]
pub struct Attachment {
    pub client_id: Option<String>,
    pub name: String,
    pub path: String,
    pub mime: String,
    pub kind: String,
    pub size: Option<u64>,
    pub data_url: Option<String>,
}

/// The longest prefix of `s` that takes at most `n` bytes in UTF-8.
pub open spec fn byte_prefix(s: Seq<char>, n: int) -> Seq<char>
    decreases s.len(),
{
    if s.len() == 0 || char_width(s[0]) > n {
        Seq::empty()
    } else {
        seq![s[0]] + byte_prefix(s.drop_first(), n - char_width(s[0]))
    }
}

impl Attachment {
    /// Byte 60 of a long data URL falls on a character boundary.
    pub open spec fn locator_ok(self) -> bool {
        self.path@.len() == 0 ==> match self.data_url {
            Some(u) => bytes_len(u@) > 60 ==> bytes_len(byte_prefix(u@, 60)) == 60,
            None => true,
        }
    }

    pub open spec fn locator(self) -> Seq<char> {
        if self.path@.len() > 0 {
            self.path@
        } else {
            match self.data_url {
                Some(u) => if bytes_len(u@) > 60 {
                    byte_prefix(u@, 60) + seq!['\u{2026}']
                } else {
                    u@
                },
                None => "(no path)"@,
            }
        }
    }

    /// Best-effort locator for prompt framing: the on-disk path, else the
    /// data URL (its first 60 bytes and an ellipsis when longer), else
    /// `(no path)`.
    pub fn path_or_url(&self) -> (r: String)
        requires
            self.locator_ok(),
        ensures
            r@ == self.locator(),
    {
        if self.path.as_str().unicode_len() > 0 {
            return to_string(self.path.as_str());
        }
        match &self.data_url {
            Some(u) => {
                let cs = chars_of(u.as_str());
                let total = crate::text::str_bytes_len(u.as_str());
                if total > 60 {
                    let mut out: Vec<char> = Vec::new();
                    let mut i: usize = 0;
                    let mut used: usize = 0;
                    assert(cs@.skip(0) =~= cs@);
                    assert(out@ + byte_prefix(cs@.skip(0), 60) =~= byte_prefix(cs@, 60));
                    while i < cs.len() && used + len_utf8(cs[i]) <= 60
                        invariant
                            i <= cs@.len(),
                            used <= 60,
                            out@ + byte_prefix(cs@.skip(i as int), 60 - used) == byte_prefix(cs@, 60),
                            used == bytes_len(out@),
                        decreases cs.len() - i,
                    {
                        let c = cs[i];
                        let ghost prev = out@;
                        proof {
                            assert(cs@.skip(i as int)[0] == c);
                            assert(cs@.skip(i as int).drop_first() =~= cs@.skip(i + 1));
                            crate::text::lemma_bytes_len_append(prev, seq![c]);
                            crate::text::lemma_bytes_len_single(c);
                            assert(prev.push(c) + byte_prefix(cs@.skip(i + 1), 60 - used - char_width(c))
                                =~= prev + (seq![c] + byte_prefix(cs@.skip(i + 1), 60 - used - char_width(c))));
                        }
                        out.push(c);
                        assert(out@ =~= prev + seq![c]);
                        used = used + len_utf8(c);
                        i += 1;
                    }
                    proof {
                        if i < cs@.len() {
                            assert(cs@.skip(i as int)[0] == cs@[i as int]);
                        }
                        assert(byte_prefix(cs@.skip(i as int), 60 - used) =~= Seq::<char>::empty());
                        assert(out@ =~= byte_prefix(cs@, 60));
                    }
                    out.push('\u{2026}');
                    string_of(&out)
                } else {
                    to_string(u.as_str())
                }
            },
            None => to_string("(no path)"),
        }
    }
}


// ---------------------------------------------------------------------------
// Provider credentials
// ---------------------------------------------------------------------------

/// What `str::to_uppercase` returns for a string.
pub uninterp spec fn uppercase(s: Seq<char>) -> Seq<char>;

/// `str::to_uppercase`: the Unicode uppercase of `s`.
#[verifier::external_body]
fn to_uppercase(s: &str) -> (r: String)
    ensures
        r@ == uppercase(s@),
{
    s.to_uppercase()
}

/// How a provider is reached: wire shape, key, base URL and where the key
/// came from (`byok`, `env`, `claude_code` or `ollama`).
pub struct Credentials {
    pub shape: String,
    pub api_key: String,
    pub base_url: String,
    pub source: String,
}

pub open spec fn cred_view(c: Credentials) -> (Seq<char>, Seq<char>, Seq<char>, Seq<char>) {
    (c.shape@, c.api_key@, c.base_url@, c.source@)
}

/// The part of the settings that credential resolution reads: API keys by
/// credential, per-provider options (such as `base_url`), and whether the
/// local `claude_code` configuration may be used.
pub struct ProviderSettings {
    pub api_keys: Vec<(String, String)>,
    pub provider_config: Vec<(String, Vec<(String, String)>)>,
    pub use_claude_code_config: bool,
}

/// The environment resolution reads: the process environment, and the
/// `env` table of the local `claude_code` settings file.
pub struct EnvValues {
    pub process: Vec<(String, String)>,
    pub claude_code: Vec<(String, String)>,
}

pub open spec fn or_else<T>(a: Option<T>, b: Option<T>) -> Option<T> {
    match a {
        Some(x) => Some(x),
        None => b,
    }
}

pub open spec fn or_default(o: Option<Seq<char>>, d: Seq<char>) -> Seq<char> {
    match o {
        Some(x) => x,
        None => d,
    }
}

/// A present, non-empty value, else `d`.
pub open spec fn nonempty_or(o: Option<Seq<char>>, d: Seq<char>) -> Seq<char> {
    match o {
        Some(x) => if x.len() > 0 {
            x
        } else {
            d
        },
        None => d,
    }
}

/// The override when one is given, else `fallback`.
pub open spec fn pick_base(ov: Seq<char>, fallback: Seq<char>) -> Seq<char> {
    if ov.len() > 0 {
        ov
    } else {
        fallback
    }
}

pub open spec fn blank(s: Seq<char>) -> bool {
    trim_spec(s).len() == 0
}

pub open spec fn key_of(s: ProviderSettings, name: Seq<char>) -> Option<Seq<char>> {
    assoc_get(str_pairs(s.api_keys@), name)
}

/// The `base_url` option configured for provider `name`.
pub open spec fn config_base(s: ProviderSettings, name: Seq<char>) -> Option<Seq<char>> {
    match assoc_get(keyed(s.provider_config@), name) {
        Some(m) => assoc_get(str_pairs(m@), "base_url"@),
        None => None,
    }
}

pub open spec fn var_of(m: Vec<(String, String)>, name: Seq<char>) -> Option<Seq<char>> {
    assoc_get(str_pairs(m@), name)
}

/// Default base URLs of the OpenAI-compatible providers without a branch of
/// their own; empty for any other name.
pub open spec fn default_base_url_spec(c: Seq<char>) -> Seq<char> {
    if c == "groq"@ {
        "https://api.groq.com/openai/v1"@
    } else if c == "cerebras"@ {
        "https://api.cerebras.ai/v1"@
    } else if c == "deepseek"@ {
        "https://api.deepseek.com/v1"@
    } else if c == "zai"@ {
        "https://api.z.ai/api/paas/v4"@
    } else if c == "together"@ {
        "https://api.together.xyz/v1"@
    } else if c == "mistral"@ {
        "https://api.mistral.ai/v1"@
    } else if c == "perplexity"@ {
        "https://api.perplexity.ai"@
    } else if c == "fireworks"@ {
        "https://api.fireworks.ai/inference/v1"@
    } else if c == "openrouter"@ {
        "https://openrouter.ai/api/v1"@
    } else {
        Seq::empty()
    }
}

pub fn default_base_url(credential: &str) -> (r: String)
    ensures
        r@ == default_base_url_spec(credential@),
{
    if str_eq(credential, "groq") {
        to_string("https://api.groq.com/openai/v1")
    } else if str_eq(credential, "cerebras") {
        to_string("https://api.cerebras.ai/v1")
    } else if str_eq(credential, "deepseek") {
        to_string("https://api.deepseek.com/v1")
    } else if str_eq(credential, "zai") {
        to_string("https://api.z.ai/api/paas/v4")
    } else if str_eq(credential, "together") {
        to_string("https://api.together.xyz/v1")
    } else if str_eq(credential, "mistral") {
        to_string("https://api.mistral.ai/v1")
    } else if str_eq(credential, "perplexity") {
        to_string("https://api.perplexity.ai")
    } else if str_eq(credential, "fireworks") {
        to_string("https://api.fireworks.ai/inference/v1")
    } else if str_eq(credential, "openrouter") {
        to_string("https://openrouter.ai/api/v1")
    } else {
        String::new()
    }
}

pub open spec fn found(shape: Seq<char>, key: Seq<char>, base: Seq<char>, source: Seq<char>) -> Option<
    (Seq<char>, Seq<char>, Seq<char>, Seq<char>),
> {
    Some((shape, key, base, source))
}

/// A key found in the settings wins; else a non-blank environment token.
pub open spec fn key_or_env(
    shape: Seq<char>,
    key: Seq<char>,
    key_base: Seq<char>,
    tok: Option<Seq<char>>,
    tok_base: Seq<char>,
) -> Option<(Seq<char>, Seq<char>, Seq<char>, Seq<char>)> {
    if !blank(key) {
        found(shape, key, key_base, "byok"@)
    } else {
        match tok {
            Some(t) => if !blank(t) {
                found(shape, t, tok_base, "env"@)
            } else {
                None
            },
            None => None,
        }
    }
}

/// The credentials for `c`, given `up`, the uppercase of `c`, which names
/// the `*_API_KEY` and `*_BASE_URL` variables of providers without a branch
/// of their own.
pub open spec fn resolve_spec(
    c: Seq<char>,
    s: ProviderSettings,
    env: EnvValues,
    ov: Seq<char>,
    up: Seq<char>,
) -> Option<(Seq<char>, Seq<char>, Seq<char>, Seq<char>)> {
    let shape = if c == "anthropic"@ || c == "claude_code"@ {
        "anthropic"@
    } else {
        "openai"@
    };
    let proc = env.process;
    if c == "claude_code"@ {
        if !s.use_claude_code_config {
            None
        } else {
            let cc = env.claude_code;
            match or_else(var_of(cc, "ANTHROPIC_AUTH_TOKEN"@), var_of(cc, "ANTHROPIC_API_KEY"@)) {
                Some(t) => if !blank(t) {
                    found(
                        shape,
                        t,
                        strip_slashes(
                            pick_base(ov, or_default(var_of(cc, "ANTHROPIC_BASE_URL"@), "https://api.anthropic.com"@)),
                        ),
                        "claude_code"@,
                    )
                } else {
                    None
                },
                None => None,
            }
        }
    } else if c == "anthropic"@ {
        key_or_env(
            shape,
            or_default(key_of(s, c), Seq::empty()),
            pick_base(ov, or_default(config_base(s, c), "https://api.anthropic.com"@)),
            or_else(var_of(proc, "ANTHROPIC_API_KEY"@), var_of(proc, "ANTHROPIC_AUTH_TOKEN"@)),
            pick_base(ov, or_default(var_of(proc, "ANTHROPIC_BASE_URL"@), "https://api.anthropic.com"@)),
        )
    } else if c == "openai"@ {
        key_or_env(
            shape,
            or_default(key_of(s, c), Seq::empty()),
            pick_base(ov, or_default(config_base(s, c), "https://api.openai.com/v1"@)),
            var_of(proc, "OPENAI_API_KEY"@),
            pick_base(ov, or_default(var_of(proc, "OPENAI_BASE_URL"@), "https://api.openai.com/v1"@)),
        )
    } else if c == "zwork_router"@ {
        key_or_env(
            shape,
            or_default(or_else(key_of(s, c), key_of(s, "openai"@)), Seq::empty()),
            pick_base(
                ov,
                or_default(or_else(config_base(s, c), config_base(s, "openai"@)), "https://api.tryzwork.app/api"@),
            ),
            var_of(proc, "ZWORK_GATEWAY_TOKEN"@),
            pick_base(ov, "https://api.tryzwork.app/api"@),
        )
    } else if c == "ollama"@ {
        found(
            "openai"@,
            or_default(key_of(s, c), Seq::empty()),
            strip_slashes(pick_base(ov, or_default(config_base(s, c), "http://localhost:11434/v1"@))),
            "ollama"@,
        )
    } else {
        key_or_env(
            shape,
            or_default(key_of(s, c), Seq::empty()),
            pick_base(ov, nonempty_or(config_base(s, c), default_base_url_spec(c))),
            var_of(proc, up + "_API_KEY"@),
            pick_base(ov, nonempty_or(var_of(proc, up + "_BASE_URL"@), default_base_url_spec(c))),
        )
    }
}

pub open spec fn creds_view(r: Option<Credentials>) -> Option<(Seq<char>, Seq<char>, Seq<char>, Seq<char>)> {
    match r {
        Some(c) => Some(cred_view(c)),
        None => None,
    }
}

fn lookup(m: &Vec<(String, String)>, k: &str) -> (r: Option<String>)
    ensures
        opt_view(r) == var_of(*m, k@),
{
    match position_str(m, k) {
        Some(i) => Some(to_string(m[i].1.as_str())),
        None => None,
    }
}

fn config_base_of(s: &ProviderSettings, name: &str) -> (r: Option<String>)
    ensures
        opt_view(r) == config_base(*s, name@),
{
    match position_keyed(&s.provider_config, name) {
        Some(i) => lookup(&s.provider_config[i].1, "base_url"),
        None => None,
    }
}

fn is_blank(s: &str) -> (r: bool)
    ensures
        r == blank(s@),
{
    trim_str(s).len() == 0
}

fn unwrap_or_str(o: Option<String>, d: &str) -> (r: String)
    ensures
        r@ == or_default(opt_view(o), d@),
{
    match o {
        Some(x) => x,
        None => to_string(d),
    }
}

fn nonempty_or_string(o: Option<String>, d: String) -> (r: String)
    ensures
        r@ == nonempty_or(opt_view(o), d@),
{
    match o {
        Some(x) => if x.as_str().is_empty() {
            d
        } else {
            x
        },
        None => d,
    }
}

fn or_else_string(a: Option<String>, b: Option<String>) -> (r: Option<String>)
    ensures
        opt_view(r) == or_else(opt_view(a), opt_view(b)),
{
    match a {
        Some(x) => Some(x),
        None => b,
    }
}

fn pick_base_of(ov: &str, fallback: String) -> (r: String)
    ensures
        r@ == pick_base(ov@, fallback@),
{
    if ov.is_empty() {
        fallback
    } else {
        to_string(ov)
    }
}

fn slashless(s: String) -> (r: String)
    ensures
        r@ == strip_slashes(s@),
{
    let v = chars_of(s.as_str());
    string_of(&strip_slashes_exec(&v))
}

fn key_or_env_of(shape: &str, key: String, key_base: String, tok: Option<String>, tok_base: String) -> (r: Option<
    Credentials,
>)
    ensures
        creds_view(r) == key_or_env(shape@, key@, key_base@, opt_view(tok), tok_base@),
{
    if !is_blank(key.as_str()) {
        return Some(
            Credentials { shape: to_string(shape), api_key: key, base_url: key_base, source: to_string("byok") },
        );
    }
    match tok {
        Some(t) => if !is_blank(t.as_str()) {
            Some(Credentials { shape: to_string(shape), api_key: t, base_url: tok_base, source: to_string("env") })
        } else {
            None
        },
        None => None,
    }
}

fn with_suffix(a: &str, b: &str) -> (r: String)
    ensures
        r@ == a@ + b@,
{
    let mut v = chars_of(a);
    push_str(&mut v, b);
    string_of(&v)
}

/// The credentials of `credential` once its uppercase name `upper` is
/// known: see `resolve_spec`.
pub fn resolve_named(
    credential: &str,
    upper: &str,
    settings: &ProviderSettings,
    env: &EnvValues,
    override_base_url: &str,
) -> (r: Option<Credentials>)
    ensures
        creds_view(r) == resolve_spec(credential@, *settings, *env, override_base_url@, upper@),
{
    let ov = override_base_url;
    let is_cc = str_eq(credential, "claude_code");
    let shape = if str_eq(credential, "anthropic") || is_cc {
        "anthropic"
    } else {
        "openai"
    };
    if is_cc {
        if !settings.use_claude_code_config {
            return None;
        }
        let cc = &env.claude_code;
        let tok = or_else_string(lookup(cc, "ANTHROPIC_AUTH_TOKEN"), lookup(cc, "ANTHROPIC_API_KEY"));
        return match tok {
            Some(t) => if !is_blank(t.as_str()) {
                let base = pick_base_of(ov, unwrap_or_str(lookup(cc, "ANTHROPIC_BASE_URL"), "https://api.anthropic.com"));
                Some(
                    Credentials {
                        shape: to_string(shape),
                        api_key: t,
                        base_url: slashless(base),
                        source: to_string("claude_code"),
                    },
                )
            } else {
                None
            },
            None => None,
        };
    }
    let proc = &env.process;
    proof {
        reveal_strlit("");
    }
    if str_eq(credential, "anthropic") {
        return key_or_env_of(
            shape,
            unwrap_or_str(lookup(&settings.api_keys, credential), ""),
            pick_base_of(ov, unwrap_or_str(config_base_of(settings, credential), "https://api.anthropic.com")),
            or_else_string(lookup(proc, "ANTHROPIC_API_KEY"), lookup(proc, "ANTHROPIC_AUTH_TOKEN")),
            pick_base_of(ov, unwrap_or_str(lookup(proc, "ANTHROPIC_BASE_URL"), "https://api.anthropic.com")),
        );
    }
    if str_eq(credential, "openai") {
        return key_or_env_of(
            shape,
            unwrap_or_str(lookup(&settings.api_keys, credential), ""),
            pick_base_of(ov, unwrap_or_str(config_base_of(settings, credential), "https://api.openai.com/v1")),
            lookup(proc, "OPENAI_API_KEY"),
            pick_base_of(ov, unwrap_or_str(lookup(proc, "OPENAI_BASE_URL"), "https://api.openai.com/v1")),
        );
    }
    if str_eq(credential, "zwork_router") {
        return key_or_env_of(
            shape,
            unwrap_or_str(or_else_string(lookup(&settings.api_keys, credential), lookup(&settings.api_keys, "openai")), ""),
            pick_base_of(
                ov,
                unwrap_or_str(
                    or_else_string(config_base_of(settings, credential), config_base_of(settings, "openai")),
                    "https://api.tryzwork.app/api",
                ),
            ),
            lookup(proc, "ZWORK_GATEWAY_TOKEN"),
            pick_base_of(ov, to_string("https://api.tryzwork.app/api")),
        );
    }
    if str_eq(credential, "ollama") {
        let base = pick_base_of(ov, unwrap_or_str(config_base_of(settings, credential), "http://localhost:11434/v1"));
        return Some(
            Credentials {
                shape: to_string("openai"),
                api_key: unwrap_or_str(lookup(&settings.api_keys, credential), ""),
                base_url: slashless(base),
                source: to_string("ollama"),
            },
        );
    }
    let key_var = with_suffix(upper, "_API_KEY");
    let base_var = with_suffix(upper, "_BASE_URL");
    key_or_env_of(
        shape,
        unwrap_or_str(lookup(&settings.api_keys, credential), ""),
        pick_base_of(ov, nonempty_or_string(config_base_of(settings, credential), default_base_url(credential))),
        lookup(proc, key_var.as_str()),
        pick_base_of(ov, nonempty_or_string(lookup(proc, base_var.as_str()), default_base_url(credential))),
    )
}

/// Resolves the credentials of `credential` from the settings and the
/// environment: a configured key first, then an environment token; `None`
/// when neither is there (Ollama needs no key).
pub fn resolve(credential: &str, settings: &ProviderSettings, env: &EnvValues, override_base_url: &str) -> (r: Option<
    Credentials,
>)
    ensures
        creds_view(r) == resolve_spec(credential@, *settings, *env, override_base_url@, uppercase(credential@)),
{
    let upper = to_uppercase(credential);
    resolve_named(credential, upper.as_str(), settings, env, override_base_url)
}


// ---------------------------------------------------------------------------
// The provider list
// ---------------------------------------------------------------------------

/// `n` occurs in `h`.
pub open spec fn contains_spec(h: Seq<char>, n: Seq<char>) -> bool {
    exists|j: int| 0 <= j && matches_at(h, n, j)
}

fn contains_exec(h: &str, n: &str) -> (r: bool)
    ensures
        r == contains_spec(h@, n@),
{
    crate::text::find(&chars_of(h), &chars_of(n)).is_some()
}

/// A model the user configured.
pub struct CustomModel {
    pub id: String,
    pub name: String,
    pub shape: String,
    pub credential: String,
    pub model_id: String,
    pub base_url_override: String,
}

/// Whether a credential resolves, and from where.
pub struct CredentialStatus {
    pub credential: String,
    pub configured: bool,
    pub source: Option<String>,
    pub base_url: Option<String>,
    pub shape: String,
}

/// One entry of the model picker; a synthesized entry has no base URL
/// override.
pub struct ModelEntry {
    pub id: String,
    pub name: String,
    pub subtitle: String,
    pub shape: String,
    pub credential: String,
    pub model_id: String,
    pub base_url_override: Option<String>,
    pub configured: bool,
    pub synthesized: bool,
}

/// The credential statuses, the model entries and the default model.
pub struct ProvidersView {
    pub credentials: Vec<CredentialStatus>,
    pub models: Vec<ModelEntry>,
    pub default_model: String,
}

pub type StatusView = (Seq<char>, bool, Option<Seq<char>>, Option<Seq<char>>, Seq<char>);

pub type EntryView = (
    Seq<char>,
    Seq<char>,
    Seq<char>,
    Seq<char>,
    Seq<char>,
    Seq<char>,
    Option<Seq<char>>,
    bool,
    bool,
);

pub open spec fn status_view(c: CredentialStatus) -> StatusView {
    (c.credential@, c.configured, opt_view(c.source), opt_view(c.base_url), c.shape@)
}

pub open spec fn entry_view(e: ModelEntry) -> EntryView {
    (
        e.id@,
        e.name@,
        e.subtitle@,
        e.shape@,
        e.credential@,
        e.model_id@,
        opt_view(e.base_url_override),
        e.configured,
        e.synthesized,
    )
}

/// The credentials whose status the provider list reports, in order.
pub open spec fn status_sources() -> Seq<Seq<char>> {
    seq!["anthropic"@, "openai"@, "claude_code"@, "zwork_router"@, "groq"@, "cerebras"@, "deepseek"@, "zai"@]
}

/// Resolution with no base URL override.
pub open spec fn resolved(c: Seq<char>, s: ProviderSettings, env: EnvValues) -> Option<
    (Seq<char>, Seq<char>, Seq<char>, Seq<char>),
> {
    resolve_spec(c, s, env, Seq::empty(), uppercase(c))
}

pub open spec fn status_spec(c: Seq<char>, s: ProviderSettings, env: EnvValues) -> StatusView {
    let r = resolved(c, s, env);
    (
        c,
        r is Some,
        match r {
            Some(x) => Some(x.3),
            None => None,
        },
        match r {
            Some(x) => Some(x.2),
            None => None,
        },
        if c == "anthropic"@ || c == "claude_code"@ {
            "anthropic"@
        } else {
            "openai"@
        },
    )
}

/// The display name of a credential.
pub open spec fn label_spec(c: Seq<char>) -> Seq<char> {
    if c == "anthropic"@ {
        "Anthropic"@
    } else if c == "openai"@ {
        "OpenAI-compatible"@
    } else if c == "claude_code"@ {
        "Local credentials"@
    } else if c == "zwork_router"@ {
        "Managed"@
    } else if c == "ollama"@ {
        "Ollama"@
    } else if c == "groq"@ {
        "Groq"@
    } else if c == "cerebras"@ {
        "Cerebras"@
    } else if c == "deepseek"@ {
        "DeepSeek"@
    } else if c == "zai"@ {
        "z.ai"@
    } else if c == "together"@ {
        "Together AI"@
    } else if c == "mistral"@ {
        "Mistral"@
    } else if c == "perplexity"@ {
        "Perplexity"@
    } else if c == "fireworks"@ {
        "Fireworks AI"@
    } else if c == "openrouter"@ {
        "OpenRouter"@
    } else {
        c
    }
}

/// The second line of a model entry: a tier description for managed
/// models, else the provider's label and base URL.
pub open spec fn subtitle_spec(m: CustomModel, r: Option<(Seq<char>, Seq<char>, Seq<char>, Seq<char>)>) -> Seq<char> {
    if m.credential@ == "zwork_router"@ {
        if contains_spec(lowercase(m.model_id@), "vision"@) {
            "Vision and images"@
        } else if contains_spec(lowercase(m.model_id@), "pro"@) {
            "Most capable model"@
        } else {
            "Fast and efficient"@
        }
    } else {
        let base = if m.base_url_override@.len() > 0 {
            m.base_url_override@
        } else {
            match r {
                Some(x) => x.2,
                None => Seq::empty(),
            }
        };
        if base.len() > 0 {
            label_spec(m.credential@) + " · "@ + base
        } else {
            label_spec(m.credential@)
        }
    }
}

pub open spec fn custom_entry_spec(m: CustomModel, s: ProviderSettings, env: EnvValues) -> EntryView {
    let r = resolve_spec(m.credential@, s, env, m.base_url_override@, uppercase(m.credential@));
    (
        m.id@,
        m.name@,
        subtitle_spec(m, r),
        m.shape@,
        m.credential@,
        m.model_id@,
        Some(m.base_url_override@),
        r is Some,
        false,
    )
}

/// The entry for locally configured `claude_code` credentials, offered when they
/// resolve and no custom model uses them.
pub open spec fn synthesized_spec(
    models: Seq<CustomModel>,
    s: ProviderSettings,
    env: EnvValues,
    cc_model: Option<Seq<char>>,
) -> Option<EntryView> {
    match resolved("claude_code"@, s, env) {
        Some(cc) => if exists|i: int| 0 <= i < models.len() && models[i].credential@ == "claude_code"@ {
            None
        } else {
            let mid = or_default(cc_model, Seq::empty());
            Some(
                (
                    "__claude_code__"@,
                    "Local credentials"@,
                    "via "@ + cc.2,
                    "anthropic"@,
                    "claude_code"@,
                    if mid.len() == 0 {
                        "(default)"@
                    } else {
                        mid
                    },
                    None,
                    true,
                    true,
                ),
            )
        },
        None => None,
    }
}

/// The custom models in order, then the synthesized entry if any.
pub open spec fn models_spec(
    models: Seq<CustomModel>,
    s: ProviderSettings,
    env: EnvValues,
    cc_model: Option<Seq<char>>,
) -> Seq<EntryView> {
    let custom = Seq::new(models.len(), |i: int| custom_entry_spec(models[i], s, env));
    match synthesized_spec(models, s, env, cc_model) {
        Some(e) => custom.push(e),
        None => custom,
    }
}

/// The first configured entry from `i` on that was not synthesized.
pub open spec fn first_configured_from(ms: Seq<EntryView>, i: int) -> Option<int>
    decreases ms.len() - i,
{
    if i < 0 || i >= ms.len() {
        None
    } else if ms[i].7 && !ms[i].8 {
        Some(i)
    } else {
        first_configured_from(ms, i + 1)
    }
}

/// The saved default when it names an entry; else the first configured
/// entry that was not synthesized; else the first entry; else empty.
pub open spec fn default_model_spec(ms: Seq<EntryView>, saved: Seq<char>) -> Seq<char> {
    if saved.len() > 0 && exists|i: int| 0 <= i < ms.len() && ms[i].0 == saved {
        saved
    } else {
        match first_configured_from(ms, 0) {
            Some(i) => ms[i].0,
            None => if ms.len() > 0 {
                ms[0].0
            } else {
                Seq::empty()
            },
        }
    }
}

fn status_of(c: &str, s: &ProviderSettings, env: &EnvValues) -> (r: CredentialStatus)
    ensures
        status_view(r) == status_spec(c@, *s, *env),
{
    proof {
        reveal_strlit("");
    }
    let cred = resolve(c, s, env, "");
    let shape = if str_eq(c, "anthropic") || str_eq(c, "claude_code") {
        "anthropic"
    } else {
        "openai"
    };
    match cred {
        Some(x) => CredentialStatus {
            credential: to_string(c),
            configured: true,
            source: Some(x.source),
            base_url: Some(x.base_url),
            shape: to_string(shape),
        },
        None => CredentialStatus {
            credential: to_string(c),
            configured: false,
            source: None,
            base_url: None,
            shape: to_string(shape),
        },
    }
}

fn label_of(c: &str) -> (r: String)
    ensures
        r@ == label_spec(c@),
{
    let l = if str_eq(c, "anthropic") {
        "Anthropic"
    } else if str_eq(c, "openai") {
        "OpenAI-compatible"
    } else if str_eq(c, "claude_code") {
        "Local credentials"
    } else if str_eq(c, "zwork_router") {
        "Managed"
    } else if str_eq(c, "ollama") {
        "Ollama"
    } else if str_eq(c, "groq") {
        "Groq"
    } else if str_eq(c, "cerebras") {
        "Cerebras"
    } else if str_eq(c, "deepseek") {
        "DeepSeek"
    } else if str_eq(c, "zai") {
        "z.ai"
    } else if str_eq(c, "together") {
        "Together AI"
    } else if str_eq(c, "mistral") {
        "Mistral"
    } else if str_eq(c, "perplexity") {
        "Perplexity"
    } else if str_eq(c, "fireworks") {
        "Fireworks AI"
    } else if str_eq(c, "openrouter") {
        "OpenRouter"
    } else {
        c
    };
    to_string(l)
}

fn custom_entry(m: &CustomModel, s: &ProviderSettings, env: &EnvValues) -> (r: ModelEntry)
    ensures
        entry_view(r) == custom_entry_spec(*m, *s, *env),
{
    let cred = resolve(m.credential.as_str(), s, env, m.base_url_override.as_str());
    let ghost rv = creds_view(cred);
    let subtitle = if str_eq(m.credential.as_str(), "zwork_router") {
        let lower = to_lowercase(m.model_id.as_str());
        if contains_exec(lower.as_str(), "vision") {
            to_string("Vision and images")
        } else if contains_exec(lower.as_str(), "pro") {
            to_string("Most capable model")
        } else {
            to_string("Fast and efficient")
        }
    } else {
        let base = if !m.base_url_override.as_str().is_empty() {
            to_string(m.base_url_override.as_str())
        } else {
            match &cred {
                Some(c) => to_string(c.base_url.as_str()),
                None => String::new(),
            }
        };
        let label = label_of(m.credential.as_str());
        if !base.as_str().is_empty() {
            let mut v = chars_of(label.as_str());
            push_str(&mut v, " · ");
            push_str(&mut v, base.as_str());
            string_of(&v)
        } else {
            label
        }
    };
    proof {
        assert(subtitle@ == subtitle_spec(*m, rv));
    }
    ModelEntry {
        id: to_string(m.id.as_str()),
        name: to_string(m.name.as_str()),
        subtitle,
        shape: to_string(m.shape.as_str()),
        credential: to_string(m.credential.as_str()),
        model_id: to_string(m.model_id.as_str()),
        base_url_override: Some(to_string(m.base_url_override.as_str())),
        configured: cred.is_some(),
        synthesized: false,
    }
}

fn credential_statuses(settings: &ProviderSettings, env: &EnvValues) -> (r: Vec<CredentialStatus>)
    ensures
        r@.len() == 8,
        forall|i: int|
            0 <= i < 8 ==> status_view(#[trigger] r@[i]) == status_spec(status_sources()[i], *settings, *env),
{
    let mut credentials: Vec<CredentialStatus> = Vec::new();
    credentials.push(status_of("anthropic", settings, env));
    credentials.push(status_of("openai", settings, env));
    credentials.push(status_of("claude_code", settings, env));
    credentials.push(status_of("zwork_router", settings, env));
    credentials.push(status_of("groq", settings, env));
    credentials.push(status_of("cerebras", settings, env));
    credentials.push(status_of("deepseek", settings, env));
    credentials.push(status_of("zai", settings, env));
    credentials
}

fn uses_claude_code(custom_models: &Vec<CustomModel>) -> (r: bool)
    ensures
        r == exists|j: int| 0 <= j < custom_models@.len() && custom_models@[j].credential@ == "claude_code"@,
{
    let mut k: usize = 0;
    while k < custom_models.len()
        invariant
            k <= custom_models@.len(),
            forall|j: int| 0 <= j < k ==> custom_models@[j].credential@ != "claude_code"@,
        decreases custom_models.len() - k,
    {
        if str_eq(custom_models[k].credential.as_str(), "claude_code") {
            return true;
        }
        k += 1;
    }
    false
}

fn synthesized_entry(
    settings: &ProviderSettings,
    custom_models: &Vec<CustomModel>,
    env: &EnvValues,
    cc_model: Option<String>,
) -> (r: Option<ModelEntry>)
    ensures
        match r {
            Some(e) => synthesized_spec(custom_models@, *settings, *env, opt_view(cc_model)) == Some(entry_view(e)),
            None => synthesized_spec(custom_models@, *settings, *env, opt_view(cc_model)) is None,
        },
{
    proof {
        reveal_strlit("");
    }
    let cc = resolve("claude_code", settings, env, "");
    match cc {
        Some(c) => {
            if uses_claude_code(custom_models) {
                return None;
            }
            let mid = match cc_model {
                Some(x) => x,
                None => String::new(),
            };
            let model_id = if mid.as_str().is_empty() {
                to_string("(default)")
            } else {
                mid
            };
            let mut sub = chars_of("via ");
            push_str(&mut sub, c.base_url.as_str());
            Some(
                ModelEntry {
                    id: to_string("__claude_code__"),
                    name: to_string("Local credentials"),
                    subtitle: string_of(&sub),
                    shape: to_string("anthropic"),
                    credential: to_string("claude_code"),
                    model_id,
                    base_url_override: None,
                    configured: true,
                    synthesized: true,
                },
            )
        },
        None => None,
    }
}

fn model_entries(
    settings: &ProviderSettings,
    custom_models: &Vec<CustomModel>,
    env: &EnvValues,
    cc_model: Option<String>,
) -> (r: Vec<ModelEntry>)
    ensures
        r@.map_values(|e: ModelEntry| entry_view(e)) == models_spec(custom_models@, *settings, *env, opt_view(cc_model)),
{
    let ghost custom_spec = Seq::new(
        custom_models@.len(),
        |i: int| custom_entry_spec(custom_models@[i], *settings, *env),
    );
    let mut models: Vec<ModelEntry> = Vec::new();
    let mut i: usize = 0;
    while i < custom_models.len()
        invariant
            i <= custom_models@.len(),
            models@.len() == i,
            custom_spec == Seq::new(
                custom_models@.len(),
                |j: int| custom_entry_spec(custom_models@[j], *settings, *env),
            ),
            forall|j: int| 0 <= j < i ==> entry_view(#[trigger] models@[j]) == custom_spec[j],
        decreases custom_models.len() - i,
    {
        let e = custom_entry(&custom_models[i], settings, env);
        models.push(e);
        i += 1;
    }
    assert(models@.map_values(|e: ModelEntry| entry_view(e)) =~= custom_spec);
    match synthesized_entry(settings, custom_models, env, cc_model) {
        Some(e) => {
            models.push(e);
            assert(models@.map_values(|e: ModelEntry| entry_view(e)) =~= models_spec(
                custom_models@,
                *settings,
                *env,
                opt_view(cc_model),
            ));
        },
        None => {},
    }
    models
}

fn default_model_of(models: &Vec<ModelEntry>, saved_default: &str) -> (r: String)
    ensures
        r@ == default_model_spec(models@.map_values(|e: ModelEntry| entry_view(e)), saved_default@),
{
    let ghost ms = models@.map_values(|e: ModelEntry| entry_view(e));
    if !saved_default.is_empty() {
        let mut k: usize = 0;
        while k < models.len()
            invariant
                k <= models@.len(),
                ms == models@.map_values(|e: ModelEntry| entry_view(e)),
                saved_default@.len() > 0,
                forall|j: int| 0 <= j < k ==> ms[j].0 != saved_default@,
            decreases models.len() - k,
        {
            assert(ms[k as int].0 == models@[k as int].id@);
            if str_eq(models[k].id.as_str(), saved_default) {
                assert(exists|j: int| 0 <= j < ms.len() && ms[j].0 == saved_default@) by {
                    assert(ms[k as int].0 == saved_default@);
                }
                assert(default_model_spec(ms, saved_default@) == saved_default@);
                return to_string(saved_default);
            }
            k += 1;
        }
    }
    assert(!(saved_default@.len() > 0 && exists|j: int| 0 <= j < ms.len() && ms[j].0 == saved_default@));
    let mut k: usize = 0;
    while k < models.len()
        invariant
            k <= models@.len(),
            ms == models@.map_values(|e: ModelEntry| entry_view(e)),
            !(saved_default@.len() > 0 && exists|j: int| 0 <= j < ms.len() && ms[j].0 == saved_default@),
            first_configured_from(ms, 0) == first_configured_from(ms, k as int),
        decreases models.len() - k,
    {
        assert(ms[k as int].7 == models@[k as int].configured && ms[k as int].8 == models@[k as int].synthesized);
        if models[k].configured && !models[k].synthesized {
            assert(first_configured_from(ms, k as int) == Some(k as int));
            assert(!(saved_default@.len() > 0 && exists|j: int| 0 <= j < ms.len() && ms[j].0 == saved_default@));
            return to_string(models[k].id.as_str());
        }
        k += 1;
    }
    if models.len() > 0 {
        to_string(models[0].id.as_str())
    } else {
        String::new()
    }
}

/// The provider list: the status of each known credential, the model
/// entries, and the model selected by default. `cc_model` is the model
/// named in the local `claude_code` settings, if any.
pub fn get_providers(
    settings: &ProviderSettings,
    custom_models: &Vec<CustomModel>,
    saved_default: &str,
    env: &EnvValues,
    cc_model: Option<String>,
) -> (r: ProvidersView)
    ensures
        r.credentials@.len() == 8,
        forall|i: int|
            0 <= i < 8 ==> status_view(#[trigger] r.credentials@[i]) == status_spec(
                status_sources()[i],
                *settings,
                *env,
            ),
        r.models@.map_values(|e: ModelEntry| entry_view(e)) == models_spec(
            custom_models@,
            *settings,
            *env,
            opt_view(cc_model),
        ),
        r.default_model@ == default_model_spec(
            models_spec(custom_models@, *settings, *env, opt_view(cc_model)),
            saved_default@,
        ),
{
    let credentials = credential_statuses(settings, env);
    let models = model_entries(settings, custom_models, env, cc_model);
    let default_model = default_model_of(&models, saved_default);
    ProvidersView { credentials, models, default_model }
}

// ---------------------------------------------------------------------------
// Onboarding
// ---------------------------------------------------------------------------

/// One answered onboarding question.
pub struct OnboardAnswer {
    pub key: String,
    pub question: String,
    pub answer: String,
}

/// The trimmed answer of the first `name` or `preferred_name` question
/// from `i` on.
pub open spec fn name_answer_from(a: Seq<OnboardAnswer>, i: int) -> Option<Seq<char>>
    decreases a.len() - i,
{
    if i < 0 || i >= a.len() {
        None
    } else if a[i].key@ == "name"@ || a[i].key@ == "preferred_name"@ {
        Some(trim_spec(a[i].answer@))
    } else {
        name_answer_from(a, i + 1)
    }
}

/// The last non-blank answer given for `key`.
pub open spec fn answer_for(a: Seq<OnboardAnswer>, key: Seq<char>) -> Option<Seq<char>>
    decreases a.len(),
{
    if a.len() == 0 {
        None
    } else if a.last().key@ == key && !blank(a.last().answer@) {
        Some(a.last().answer@)
    } else {
        answer_for(a.drop_last(), key)
    }
}

pub open spec fn qna_line(x: OnboardAnswer) -> Seq<char> {
    "- "@ + x.question@ + "\n  → "@ + x.answer@
}

/// One question-and-answer line per non-blank answer, in order.
pub open spec fn qna_lines(a: Seq<OnboardAnswer>) -> Seq<Seq<char>>
    decreases a.len(),
{
    if a.len() == 0 {
        Seq::empty()
    } else if blank(a.last().answer@) {
        qna_lines(a.drop_last())
    } else {
        qna_lines(a.drop_last()).push(qna_line(a.last()))
    }
}

pub open spec fn not_specified(s: Seq<char>) -> Seq<char> {
    if s.len() == 0 {
        "(not specified)"@
    } else {
        s
    }
}

/// The personalization notes written from the onboarding answers.
pub open spec fn personalization_spec(a: Seq<OnboardAnswer>) -> Seq<char> {
    let name = match name_answer_from(a, 0) {
        Some(n) => if n.len() > 0 {
            n
        } else {
            "rWork User"@
        },
        None => "rWork User"@,
    };
    let vibe = or_default(answer_for(a, "vibe"@), "Balanced"@);
    let verbosity = or_default(answer_for(a, "verbosity"@), "Balanced"@);
    let decisions = or_default(answer_for(a, "decisions"@), "Balanced"@);
    let profession = or_default(answer_for(a, "profession"@), Seq::empty());
    let goal = or_default(answer_for(a, "goal"@), Seq::empty());
    let behavior = if contains_spec(lowercase(decisions), "walk"@) {
        "walk me through each decision briefly"@
    } else {
        "just pick sensible defaults and act"@
    };
    "# zWork personalization\n\n## About the user\n\n- Name: "@ + name + "\n- Profession: "@ + not_specified(profession)
        + "\n- Long-term goal: "@ + not_specified(goal) + "\n\n## Preferences\n\n- Vibe: **"@ + vibe
        + "**\n- Verbosity: **"@ + verbosity + "**\n- Decision style: **"@ + decisions
        + "**\n\n## How to talk to me\n\n- Match the **"@ + vibe
        + "** tone — no filler, no over-explaining.\n- Default reply length: **"@ + verbosity
        + "**.\n- For multi-step work: "@ + behavior
        + ".\n- Address me by my first name occasionally, never overdone.\n- Prioritize action and shipping over meta-discussion.\n\n---\n\n## Raw onboarding answers (for reference)\n\n"@
        + join_spec(qna_lines(a), "\n"@) + "\n"@
}

fn name_answer(a: &Vec<OnboardAnswer>) -> (r: Option<Vec<char>>)
    ensures
        match r {
            Some(n) => name_answer_from(a@, 0) == Some(n@),
            None => name_answer_from(a@, 0) is None,
        },
{
    let mut i: usize = 0;
    while i < a.len()
        invariant
            i <= a@.len(),
            name_answer_from(a@, 0) == name_answer_from(a@, i as int),
        decreases a.len() - i,
    {
        if str_eq(a[i].key.as_str(), "name") || str_eq(a[i].key.as_str(), "preferred_name") {
            return Some(trim_str(a[i].answer.as_str()));
        }
        i += 1;
    }
    None
}

fn answer_of(a: &Vec<OnboardAnswer>, key: &str) -> (r: Option<String>)
    ensures
        opt_view(r) == answer_for(a@, key@),
{
    let mut cur: Option<String> = None;
    let mut i: usize = 0;
    while i < a.len()
        invariant
            i <= a@.len(),
            opt_view(cur) == answer_for(a@.take(i as int), key@),
        decreases a.len() - i,
    {
        proof {
            assert(a@.take(i + 1).drop_last() =~= a@.take(i as int));
            assert(a@.take(i + 1).last() == a@[i as int]);
        }
        if str_eq(a[i].key.as_str(), key) && !is_blank(a[i].answer.as_str()) {
            cur = Some(to_string(a[i].answer.as_str()));
        }
        i += 1;
    }
    assert(a@.take(a@.len() as int) =~= a@);
    cur
}

fn qna_of(a: &Vec<OnboardAnswer>) -> (r: Vec<Vec<char>>)
    ensures
        r@.map_values(|p: Vec<char>| p@) == qna_lines(a@),
{
    let mut out: Vec<Vec<char>> = Vec::new();
    let mut i: usize = 0;
    while i < a.len()
        invariant
            i <= a@.len(),
            out@.map_values(|p: Vec<char>| p@) == qna_lines(a@.take(i as int)),
        decreases a.len() - i,
    {
        proof {
            assert(a@.take(i + 1).drop_last() =~= a@.take(i as int));
            assert(a@.take(i + 1).last() == a@[i as int]);
        }
        if !is_blank(a[i].answer.as_str()) {
            let mut line = chars_of("- ");
            push_str(&mut line, a[i].question.as_str());
            push_str(&mut line, "\n  → ");
            push_str(&mut line, a[i].answer.as_str());
            let ghost before = out@;
            out.push(line);
            assert(out@.map_values(|p: Vec<char>| p@) =~= before.map_values(|p: Vec<char>| p@).push(line@));
        }
        i += 1;
    }
    assert(a@.take(a@.len() as int) =~= a@);
    out
}

/// The personalization notes for the onboarding answers: the user's name,
/// profession and goal, their tone preferences, and the raw answers.
pub fn personalization_markdown(answers: &Vec<OnboardAnswer>) -> (r: String)
    ensures
        r@ == personalization_spec(answers@),
{
    let name = match name_answer(answers) {
        Some(n) => if n.len() > 0 {
            string_of(&n)
        } else {
            to_string("rWork User")
        },
        None => to_string("rWork User"),
    };
    let vibe = unwrap_or_str(answer_of(answers, "vibe"), "Balanced");
    let verbosity = unwrap_or_str(answer_of(answers, "verbosity"), "Balanced");
    let decisions = unwrap_or_str(answer_of(answers, "decisions"), "Balanced");
    let profession = unwrap_or_str(answer_of(answers, "profession"), "");
    let goal = unwrap_or_str(answer_of(answers, "goal"), "");
    proof {
        reveal_strlit("");
    }
    let lower = to_lowercase(decisions.as_str());
    let behavior = if contains_exec(lower.as_str(), "walk") {
        "walk me through each decision briefly"
    } else {
        "just pick sensible defaults and act"
    };
    let profession = if profession.as_str().is_empty() {
        to_string("(not specified)")
    } else {
        profession
    };
    let goal = if goal.as_str().is_empty() {
        to_string("(not specified)")
    } else {
        goal
    };
    let lines = qna_of(answers);
    let nl = ['\n'];
    assert(nl@ == "\n"@) by {
        reveal_strlit("\n");
    }
    let qna = join(&lines, &nl);
    let mut md = chars_of("# zWork personalization\n\n## About the user\n\n- Name: ");
    push_str(&mut md, name.as_str());
    push_str(&mut md, "\n- Profession: ");
    push_str(&mut md, profession.as_str());
    push_str(&mut md, "\n- Long-term goal: ");
    push_str(&mut md, goal.as_str());
    push_str(&mut md, "\n\n## Preferences\n\n- Vibe: **");
    push_str(&mut md, vibe.as_str());
    push_str(&mut md, "**\n- Verbosity: **");
    push_str(&mut md, verbosity.as_str());
    push_str(&mut md, "**\n- Decision style: **");
    push_str(&mut md, decisions.as_str());
    push_str(&mut md, "**\n\n## How to talk to me\n\n- Match the **");
    push_str(&mut md, vibe.as_str());
    push_str(&mut md, "** tone — no filler, no over-explaining.\n- Default reply length: **");
    push_str(&mut md, verbosity.as_str());
    push_str(&mut md, "**.\n- For multi-step work: ");
    push_str(&mut md, behavior);
    push_str(
        &mut md,
        ".\n- Address me by my first name occasionally, never overdone.\n- Prioritize action and shipping over meta-discussion.\n\n---\n\n## Raw onboarding answers (for reference)\n\n",
    );
    push_all(&mut md, &qna);
    push_str(&mut md, "\n");
    string_of(&md)
}


/// A provider credential entered during onboarding.
pub struct CredentialPayload {
    pub shape: Option<String>,
    pub credential: Option<String>,
    pub api_key: Option<String>,
    pub base_url: Option<String>,
    pub model_id: Option<String>,
    pub model_name: Option<String>,
}

/// A custom model to add or update; `custom_id` is the id to keep, if any.
pub struct ModelUpsert {
    pub custom_id: Option<String>,
    pub name: String,
    pub shape: String,
    pub credential: String,
    pub model_id: String,
    pub base_url: String,
}

/// What onboarding does to the settings for a credential: the API key to
/// store and the base URL to configure, each under the credential's name,
/// and the model to add and make the default.
pub struct OnboardPlan {
    pub api_key: Option<(String, String)>,
    pub base_url: Option<(String, String)>,
    pub model: Option<ModelUpsert>,
}

pub open spec fn upsert_view(m: ModelUpsert) -> (Option<Seq<char>>, Seq<char>, Seq<char>, Seq<char>, Seq<char>, Seq<char>) {
    (opt_view(m.custom_id), m.name@, m.shape@, m.credential@, m.model_id@, m.base_url@)
}

pub open spec fn pair_view(p: Option<(String, String)>) -> Option<(Seq<char>, Seq<char>)> {
    match p {
        Some(x) => Some((x.0@, x.1@)),
        None => None,
    }
}

/// Managed models keep their model id as their id.
pub open spec fn custom_id_spec(credential: Seq<char>, model_id: Seq<char>) -> Option<Seq<char>> {
    if credential == "zwork_router"@ || model_id == "zwork-flash"@ || model_id == "zwork-pro"@ {
        Some(model_id)
    } else {
        None
    }
}

pub open spec fn onboard_plan_spec(c: CredentialPayload) -> (
    Option<(Seq<char>, Seq<char>)>,
    Option<(Seq<char>, Seq<char>)>,
    Option<(Option<Seq<char>>, Seq<char>, Seq<char>, Seq<char>, Seq<char>, Seq<char>)>,
) {
    let shape = or_default(opt_view(c.shape), "openai"@);
    let cred = or_default(opt_view(c.credential), "openai"@);
    let key = or_default(opt_view(c.api_key), Seq::empty());
    let base = or_default(opt_view(c.base_url), Seq::empty());
    let mid = or_default(opt_view(c.model_id), Seq::empty());
    let name = or_default(opt_view(c.model_name), mid);
    let cid = custom_id_spec(cred, mid);
    let safe = match cid {
        Some(id) => id.len() > 0 && forall|i: int| 0 <= i < id.len() ==> crate::paths::safe_id_char(#[trigger] id[i]),
        None => true,
    };
    (
        if key.len() > 0 {
            Some((cred, key))
        } else {
            None
        },
        if base.len() > 0 {
            Some((cred, base))
        } else {
            None
        },
        if mid.len() > 0 && safe {
            Some((cid, name, shape, cred, mid, base))
        } else {
            None
        },
    )
}

fn opt_or(o: &Option<String>, d: &str) -> (r: String)
    ensures
        r@ == or_default(opt_view(*o), d@),
{
    match o {
        Some(x) => to_string(x.as_str()),
        None => to_string(d),
    }
}

/// The settings changes onboarding makes for `cred`.
pub fn onboard_credential_plan(cred: &CredentialPayload) -> (r: OnboardPlan)
    ensures
        (pair_view(r.api_key), pair_view(r.base_url), match r.model {
            Some(m) => Some(upsert_view(m)),
            None => None,
        }) == onboard_plan_spec(*cred),
{
    proof {
        reveal_strlit("");
    }
    let shape = opt_or(&cred.shape, "openai");
    let credkey = opt_or(&cred.credential, "openai");
    let api_key = opt_or(&cred.api_key, "");
    let base_url = opt_or(&cred.base_url, "");
    let model_id = opt_or(&cred.model_id, "");
    let model_name = opt_or(&cred.model_name, model_id.as_str());
    let key_part = if !api_key.as_str().is_empty() {
        Some((to_string(credkey.as_str()), api_key))
    } else {
        None
    };
    let base_part = if !base_url.as_str().is_empty() {
        Some((to_string(credkey.as_str()), to_string(base_url.as_str())))
    } else {
        None
    };
    let model = if !model_id.as_str().is_empty() {
        let custom_id = if str_eq(credkey.as_str(), "zwork_router") || str_eq(model_id.as_str(), "zwork-flash")
            || str_eq(model_id.as_str(), "zwork-pro") {
            Some(to_string(model_id.as_str()))
        } else {
            None
        };
        let safe = match &custom_id {
            Some(id) => crate::paths::is_safe_id(id.as_str()),
            None => true,
        };
        if safe {
            Some(
                ModelUpsert {
                    custom_id,
                    name: model_name,
                    shape,
                    credential: credkey,
                    model_id,
                    base_url,
                },
            )
        } else {
            None
        }
    } else {
        None
    };
    OnboardPlan { api_key: key_part, base_url: base_part, model }
}


/// The OpenAI-compatible providers with a default base URL.
pub open spec fn compatible_provider(c: Seq<char>) -> bool {
    c == "groq"@ || c == "cerebras"@ || c == "deepseek"@ || c == "zai"@ || c == "together"@ || c == "mistral"@
        || c == "perplexity"@ || c == "fireworks"@ || c == "openrouter"@
}

/// A compatible provider given only an API key resolves to its default base
/// URL, which is never empty.
pub proof fn lemma_compatible_provider_default_url(c: Seq<char>, s: ProviderSettings, env: EnvValues, key: Seq<char>, up: Seq<char>)
    requires
        compatible_provider(c),
        key_of(s, c) == Some(key),
        !blank(key),
        config_base(s, c) is None,
    ensures
        resolve_spec(c, s, env, Seq::empty(), up) == Some(("openai"@, key, default_base_url_spec(c), "byok"@)),
        default_base_url_spec(c).len() > 0,
{
    reveal_strlit("groq");
    reveal_strlit("cerebras");
    reveal_strlit("deepseek");
    reveal_strlit("zai");
    reveal_strlit("together");
    reveal_strlit("mistral");
    reveal_strlit("perplexity");
    reveal_strlit("fireworks");
    reveal_strlit("openrouter");
    reveal_strlit("anthropic");
    reveal_strlit("claude_code");
    reveal_strlit("openai");
    reveal_strlit("zwork_router");
    reveal_strlit("ollama");
    reveal_strlit("https://api.groq.com/openai/v1");
    reveal_strlit("https://api.cerebras.ai/v1");
    reveal_strlit("https://api.deepseek.com/v1");
    reveal_strlit("https://api.z.ai/api/paas/v4");
    reveal_strlit("https://api.together.xyz/v1");
    reveal_strlit("https://api.mistral.ai/v1");
    reveal_strlit("https://api.perplexity.ai");
    reveal_strlit("https://api.fireworks.ai/inference/v1");
    reveal_strlit("https://openrouter.ai/api/v1");
    assert("groq"@.len() == 4);
    assert("cerebras"@.len() == 8);
    assert("deepseek"@.len() == 8);
    assert("zai"@.len() == 3);
    assert("together"@.len() == 8);
    assert("mistral"@.len() == 7);
    assert("perplexity"@.len() == 10);
    assert("fireworks"@.len() == 9);
    assert("openrouter"@.len() == 10);
    assert("anthropic"@.len() == 9);
    assert("claude_code"@.len() == 11);
    assert("openai"@.len() == 6);
    assert("zwork_router"@.len() == 12);
    assert("ollama"@.len() == 6);
    assert(c != "anthropic"@) by {
        if c == "fireworks"@ {
            assert(c[0] != "anthropic"@[0]);
        }
    }
    assert(c != "claude_code"@);
    assert(c != "openai"@);
    assert(c != "zwork_router"@);
    assert(c != "ollama"@);
}

} // verus!
