//! A JSON-schema subset validator: `type`, `properties`, `required`,
//! `items`, `enum`, `const`, `anyOf` / `oneOf` / `allOf`, numeric and length
//! bounds, `pattern` and `additionalProperties`.
//!
//! Documents are held as arenas of nodes whose children come after them,
//! which is what lets the validator recurse on sub-schemas. Numbers carry
//! what the checks read of them: an order key that sorts as their `f64`
//! values do, whether they are integral, their `u64` value if any, and the
//! texts the messages print.

use vstd::prelude::*;
use crate::assoc::str_pairs;
use crate::glob::{regex_compile_error, regex_matches, CompiledRegex};
use crate::text::{chars_of, decimal, decimal_spec, join_spec, push_str, str_eq, string_of, to_string};

verus! {

/// What the checks read of a number.
pub struct NumberInfo {
    /// Sorts as the number's `f64` value does (negative zero as zero).
    pub order: u64,
    /// Whether the number is an integer (an `i64`, a `u64`, or a float
    /// without a fractional part).
    pub integral: bool,
    /// The number as a `u64`, when it is one.
    pub as_u64: Option<u64>,
    /// The `f64` value as Rust displays it.
    pub float_text: String,
}

pub enum JsonKind {
    Null,
    Bool(bool),
    Number(NumberInfo),
    Str(String),
    Array,
    Object,
}

/// A node: its kind, its children (array items, or object values in key
/// order with their keys), its JSON text, and an equality key (the text
/// with negative zeros written as zeros), equal exactly for equal values.
pub struct JsonNode {
    pub kind: JsonKind,
    pub children: Vec<usize>,
    pub keys: Vec<String>,
    pub text: String,
    pub eq_key: String,
}

/// A JSON document; node 0 is its root.
pub struct JsonDoc {
    pub nodes: Vec<JsonNode>,
}

/// Every child comes after its parent and inside the document, and an
/// object has one key per child.
pub open spec fn doc_wf(d: JsonDoc) -> bool {
    &&& forall|i: int, j: int|
        0 <= i < d.nodes@.len() && 0 <= j < d.nodes@[i].children@.len() ==> i < #[trigger] d.nodes@[i].children@[j]
            < d.nodes@.len()
    &&& forall|i: int|
        0 <= i < d.nodes@.len() && (#[trigger] d.nodes@[i]).kind is Object ==> d.nodes@[i].keys@.len()
            == d.nodes@[i].children@.len()
}

pub open spec fn nlen(d: JsonDoc) -> int {
    d.nodes@.len() as int
}

pub open spec fn nchildren(d: JsonDoc, i: int) -> int {
    d.nodes@[i].children@.len() as int
}

pub open spec fn child(d: JsonDoc, i: int, j: int) -> int {
    d.nodes@[i].children@[j] as int
}

/// The first position at or after `j` holding key `k`.
pub open spec fn key_from(keys: Seq<String>, k: Seq<char>, j: int) -> Option<int>
    decreases keys.len() - j,
{
    if j < 0 || j >= keys.len() {
        None
    } else if keys[j]@ == k {
        Some(j)
    } else {
        key_from(keys, k, j + 1)
    }
}

/// `get(k)` on node `i`: the value under key `k` of an object.
pub open spec fn get(d: JsonDoc, i: int, k: Seq<char>) -> Option<int> {
    if d.nodes@[i].kind is Object {
        match key_from(d.nodes@[i].keys@, k, 0) {
            Some(j) => if j < nchildren(d, i) {
                Some(child(d, i, j))
            } else {
                None
            },
            None => None,
        }
    } else {
        None
    }
}

pub open spec fn is_array(d: JsonDoc, i: int) -> bool {
    d.nodes@[i].kind is Array
}

pub open spec fn is_object(d: JsonDoc, i: int) -> bool {
    d.nodes@[i].kind is Object
}

/// `get(k)` restricted to an array or object value.
pub open spec fn get_array(d: JsonDoc, i: int, k: Seq<char>) -> Option<int> {
    match get(d, i, k) {
        Some(a) => if is_array(d, a) {
            Some(a)
        } else {
            None
        },
        None => None,
    }
}

pub open spec fn get_object(d: JsonDoc, i: int, k: Seq<char>) -> Option<int> {
    match get(d, i, k) {
        Some(a) => if is_object(d, a) {
            Some(a)
        } else {
            None
        },
        None => None,
    }
}

pub open spec fn get_u64(d: JsonDoc, i: int, k: Seq<char>) -> Option<u64> {
    match get(d, i, k) {
        Some(a) => match d.nodes@[a].kind {
            JsonKind::Number(n) => n.as_u64,
            _ => None,
        },
        None => None,
    }
}

pub open spec fn get_str(d: JsonDoc, i: int, k: Seq<char>) -> Option<Seq<char>> {
    match get(d, i, k) {
        Some(a) => match d.nodes@[a].kind {
            JsonKind::Str(s) => Some(s@),
            _ => None,
        },
        None => None,
    }
}

pub open spec fn get_number(d: JsonDoc, i: int, k: Seq<char>) -> Option<NumberInfo> {
    match get(d, i, k) {
        Some(a) => match d.nodes@[a].kind {
            JsonKind::Number(n) => Some(n),
            _ => None,
        },
        None => None,
    }
}

pub open spec fn display_path(p: Seq<char>) -> Seq<char> {
    if p.len() == 0 {
        "root"@
    } else {
        p
    }
}

pub open spec fn join_path(base: Seq<char>, seg: Seq<char>) -> Seq<char> {
    if base.len() == 0 {
        seg
    } else {
        base + "."@ + seg
    }
}

pub type Errors = Seq<(Seq<char>, Seq<char>)>;

/// The string members among the first `j` children of array node `a`.
pub open spec fn str_members(d: JsonDoc, a: int, j: int) -> Seq<Seq<char>>
    decreases j,
{
    if j <= 0 {
        Seq::empty()
    } else {
        let prev = str_members(d, a, j - 1);
        match d.nodes@[child(d, a, j - 1)].kind {
            JsonKind::Str(s) => prev.push(s@),
            _ => prev,
        }
    }
}

/// The type names of schema node `si`.
pub open spec fn schema_types(sd: JsonDoc, si: int) -> Seq<Seq<char>> {
    match get(sd, si, "type"@) {
        Some(t) => match sd.nodes@[t].kind {
            JsonKind::Str(s) => seq![s@],
            JsonKind::Array => str_members(sd, t, nchildren(sd, t)),
            _ => Seq::empty(),
        },
        None => Seq::empty(),
    }
}

pub open spec fn matches_type(vd: JsonDoc, vi: int, ty: Seq<char>) -> bool {
    let k = vd.nodes@[vi].kind;
    if ty == "number"@ {
        k is Number
    } else if ty == "integer"@ {
        match k {
            JsonKind::Number(n) => n.integral,
            _ => false,
        }
    } else if ty == "boolean"@ {
        k is Bool
    } else if ty == "string"@ {
        k is Str
    } else if ty == "null"@ {
        k is Null
    } else if ty == "array"@ {
        k is Array
    } else if ty == "object"@ {
        k is Object
    } else {
        false
    }
}

/// Some member of the first `j` children of enum node `e` equals node `vi`.
pub open spec fn enum_has(vd: JsonDoc, vi: int, sd: JsonDoc, e: int, j: int) -> bool
    decreases j,
{
    j > 0 && (enum_has(vd, vi, sd, e, j - 1) || sd.nodes@[child(sd, e, j - 1)].eq_key@ == vd.nodes@[vi].eq_key@)
}

/// The JSON texts of the first `j` children of node `e`.
pub open spec fn member_texts(sd: JsonDoc, e: int, j: int) -> Seq<Seq<char>>
    decreases j,
{
    if j <= 0 {
        Seq::empty()
    } else {
        member_texts(sd, e, j - 1).push(sd.nodes@[child(sd, e, j - 1)].text@)
    }
}

/// Required names (string children of `r`) missing from value object `vi`.
pub open spec fn required_errs(vd: JsonDoc, vi: int, sd: JsonDoc, r: int, path: Seq<char>, j: int) -> Errors
    decreases j,
{
    if j <= 0 {
        Seq::empty()
    } else {
        let prev = required_errs(vd, vi, sd, r, path, j - 1);
        match sd.nodes@[child(sd, r, j - 1)].kind {
            JsonKind::Str(name) => if get(vd, vi, name@) is None {
                prev.push((join_path(path, name@), "Expected required property"@))
            } else {
                prev
            },
            _ => prev,
        }
    }
}

/// Whether key `k` is one of the schema's properties.
pub open spec fn in_props(sd: JsonDoc, props: Option<int>, k: Seq<char>) -> bool {
    match props {
        Some(p) => get(sd, p, k) is Some,
        None => false,
    }
}

/// Keys among the first `j` of value object `vi` that are no property.
pub open spec fn unexpected_errs(vd: JsonDoc, vi: int, sd: JsonDoc, props: Option<int>, path: Seq<char>, j: int) -> Errors
    decreases j,
{
    if j <= 0 {
        Seq::empty()
    } else {
        let prev = unexpected_errs(vd, vi, sd, props, path, j - 1);
        let k = vd.nodes@[vi].keys@[j - 1]@;
        if !in_props(sd, props, k) {
            prev.push((join_path(path, k), "Unexpected property"@))
        } else {
            prev
        }
    }
}

pub open spec fn bound_err(cond: bool, path: Seq<char>, msg: Seq<char>) -> Errors {
    if cond {
        seq![(display_path(path), msg)]
    } else {
        Seq::empty()
    }
}

/// The checks of a string against the schema's length bounds and pattern.
pub open spec fn string_errs(s: Seq<char>, sd: JsonDoc, si: int, path: Seq<char>) -> Errors {
    let len = s.len();
    (match get_u64(sd, si, "minLength"@) {
        Some(m) => bound_err(len < m, path, "Expected string length greater or equal to "@ + decimal_spec(m as nat)),
        None => Seq::empty(),
    }) + (match get_u64(sd, si, "maxLength"@) {
        Some(m) => bound_err(len > m, path, "Expected string length less or equal to "@ + decimal_spec(m as nat)),
        None => Seq::empty(),
    }) + (match get_str(sd, si, "pattern"@) {
        Some(p) => bound_err(
            regex_compile_error(p, false) is None && !regex_matches(p, false, s),
            path,
            "Expected string to match '"@ + p + "'"@,
        ),
        None => Seq::empty(),
    })
}

/// The checks of a number against the schema's bounds, by order key.
pub open spec fn number_errs(n: NumberInfo, sd: JsonDoc, si: int, path: Seq<char>) -> Errors {
    (match get_number(sd, si, "minimum"@) {
        Some(m) => bound_err(n.order < m.order, path, "Expected number to be greater or equal to "@ + m.float_text@),
        None => Seq::empty(),
    }) + (match get_number(sd, si, "maximum"@) {
        Some(m) => bound_err(n.order > m.order, path, "Expected number to be less or equal to "@ + m.float_text@),
        None => Seq::empty(),
    }) + (match get_number(sd, si, "exclusiveMinimum"@) {
        Some(m) => bound_err(n.order <= m.order, path, "Expected number to be greater than "@ + m.float_text@),
        None => Seq::empty(),
    }) + (match get_number(sd, si, "exclusiveMaximum"@) {
        Some(m) => bound_err(n.order >= m.order, path, "Expected number to be less than "@ + m.float_text@),
        None => Seq::empty(),
    })
}

/// The checks of an array's length against the schema.
pub open spec fn length_errs(len: int, sd: JsonDoc, si: int, path: Seq<char>) -> Errors {
    (match get_u64(sd, si, "minItems"@) {
        Some(m) => bound_err(len < m, path, "Expected array length to be greater or equal to "@ + decimal_spec(m as nat)),
        None => Seq::empty(),
    }) + (match get_u64(sd, si, "maxItems"@) {
        Some(m) => bound_err(len > m, path, "Expected array length to be less or equal to "@ + decimal_spec(m as nat)),
        None => Seq::empty(),
    })
}

/// The errors of value node `vi` against schema node `si` at `path`.
pub open spec fn validate_spec(vd: JsonDoc, vi: int, sd: JsonDoc, si: int, path: Seq<char>) -> Errors
    decreases nlen(sd) - si, 3int, 0int,
{
    let dp = display_path(path);
    let pre = pre_errs(vd, vi, sd, si, path);
    let types = schema_types(sd, si);
    if types.len() > 0 && !(exists|k: int| 0 <= k < types.len() && matches_type(vd, vi, #[trigger] types[k])) {
        pre.push((dp, "Expected "@ + join_spec(types, " | "@)))
    } else {
        pre + kind_errs(vd, vi, sd, si, path)
    }
}

/// The checks of the combinators, `enum` and `const`, which apply to a
/// value of any kind.
pub open spec fn pre_errs(vd: JsonDoc, vi: int, sd: JsonDoc, si: int, path: Seq<char>) -> Errors
    decreases nlen(sd) - si, 2int, 0int,
{
    let dp = display_path(path);
    let all = match get_array(sd, si, "allOf"@) {
        Some(a) => all_errs(vd, vi, sd, si, a, path, nchildren(sd, a)),
        None => Seq::empty(),
    };
    let any = match get_array(sd, si, "anyOf"@) {
        Some(a) => if any_valid(vd, vi, sd, si, a, path, nchildren(sd, a)) {
            Seq::empty()
        } else {
            seq![(dp, "Expected value to match one of the allowed schemas"@)]
        },
        None => Seq::empty(),
    };
    let one = match get_array(sd, si, "oneOf"@) {
        Some(a) => if count_valid(vd, vi, sd, si, a, path, nchildren(sd, a)) != 1 {
            seq![(dp, "Expected value to match exactly one of the allowed schemas"@)]
        } else {
            Seq::empty()
        },
        None => Seq::empty(),
    };
    let en = match get_array(sd, si, "enum"@) {
        Some(e) => if enum_has(vd, vi, sd, e, nchildren(sd, e)) {
            Seq::empty()
        } else {
            seq![(dp, "Expected one of: "@ + join_spec(member_texts(sd, e, nchildren(sd, e)), ", "@))]
        },
        None => Seq::empty(),
    };
    let cn = match get(sd, si, "const"@) {
        Some(c) => if sd.nodes@[c].eq_key@ != vd.nodes@[vi].eq_key@ {
            seq![(dp, "Expected "@ + sd.nodes@[c].text@)]
        } else {
            Seq::empty()
        },
        None => Seq::empty(),
    };
    all + any + one + en + cn
}

/// The checks that depend on the value's kind.
pub open spec fn kind_errs(vd: JsonDoc, vi: int, sd: JsonDoc, si: int, path: Seq<char>) -> Errors
    decreases nlen(sd) - si, 1int, 0int,
{
    match vd.nodes@[vi].kind {
        JsonKind::Object => {
            let req = match get_array(sd, si, "required"@) {
                Some(r) => required_errs(vd, vi, sd, r, path, nchildren(sd, r)),
                None => Seq::empty(),
            };
            let props = get_object(sd, si, "properties"@);
            let pe = match props {
                Some(p) => props_errs(vd, vi, sd, si, p, path, nchildren(sd, p)),
                None => Seq::empty(),
            };
            let extra = match get(sd, si, "additionalProperties"@) {
                Some(ap) => match sd.nodes@[ap].kind {
                    JsonKind::Bool(b) => if !b {
                        unexpected_errs(vd, vi, sd, props, path, nchildren(vd, vi))
                    } else {
                        Seq::empty()
                    },
                    JsonKind::Object => extra_errs(vd, vi, sd, si, ap, props, path, nchildren(vd, vi)),
                    _ => Seq::empty(),
                },
                None => Seq::empty(),
            };
            req + pe + extra
        },
        JsonKind::Array => {
            length_errs(nchildren(vd, vi), sd, si, path) + match get(sd, si, "items"@) {
                Some(t) => if is_array(sd, t) {
                    tuple_errs(vd, vi, sd, si, t, path, nchildren(vd, vi))
                } else if is_object(sd, t) {
                    items_errs(vd, vi, sd, si, t, path, nchildren(vd, vi))
                } else {
                    Seq::empty()
                },
                None => Seq::empty(),
            }
        },
        JsonKind::Str(s) => string_errs(s@, sd, si, path),
        JsonKind::Number(n) => number_errs(n, sd, si, path),
        _ => Seq::empty(),
    }
}

/// `validate` against sub-schema `c` of `si`, nothing when `c` does not
/// come after `si`.
pub open spec fn sub_errs(vd: JsonDoc, vi: int, sd: JsonDoc, si: int, c: int, path: Seq<char>) -> Errors
    decreases nlen(sd) - si, 0int, 0int,
{
    if si < c < nlen(sd) {
        validate_spec(vd, vi, sd, c, path)
    } else {
        Seq::empty()
    }
}

pub open spec fn all_errs(vd: JsonDoc, vi: int, sd: JsonDoc, si: int, a: int, path: Seq<char>, j: int) -> Errors
    decreases nlen(sd) - si, 0int, j,
{
    if j <= 0 {
        Seq::empty()
    } else {
        all_errs(vd, vi, sd, si, a, path, j - 1) + sub_errs(vd, vi, sd, si, child(sd, a, j - 1), path)
    }
}

pub open spec fn any_valid(vd: JsonDoc, vi: int, sd: JsonDoc, si: int, a: int, path: Seq<char>, j: int) -> bool
    decreases nlen(sd) - si, 0int, j,
{
    j > 0 && (any_valid(vd, vi, sd, si, a, path, j - 1) || sub_errs(vd, vi, sd, si, child(sd, a, j - 1), path).len() == 0)
}

pub open spec fn count_valid(vd: JsonDoc, vi: int, sd: JsonDoc, si: int, a: int, path: Seq<char>, j: int) -> int
    decreases nlen(sd) - si, 0int, j,
{
    if j <= 0 {
        0
    } else {
        count_valid(vd, vi, sd, si, a, path, j - 1) + if sub_errs(vd, vi, sd, si, child(sd, a, j - 1), path).len() == 0 {
            1int
        } else {
            0int
        }
    }
}

/// Each of the first `j` properties of `p` that the value has, validated.
pub open spec fn props_errs(vd: JsonDoc, vi: int, sd: JsonDoc, si: int, p: int, path: Seq<char>, j: int) -> Errors
    decreases nlen(sd) - si, 0int, j,
{
    if j <= 0 {
        Seq::empty()
    } else {
        let prev = props_errs(vd, vi, sd, si, p, path, j - 1);
        let k = sd.nodes@[p].keys@[j - 1]@;
        match get(vd, vi, k) {
            Some(v) => prev + sub_errs(vd, v, sd, si, child(sd, p, j - 1), join_path(path, k)),
            None => prev,
        }
    }
}

/// The first `j` entries of the value that are no property, validated
/// against `ap`.
pub open spec fn extra_errs(
    vd: JsonDoc,
    vi: int,
    sd: JsonDoc,
    si: int,
    ap: int,
    props: Option<int>,
    path: Seq<char>,
    j: int,
) -> Errors
    decreases nlen(sd) - si, 0int, j,
{
    if j <= 0 {
        Seq::empty()
    } else {
        let prev = extra_errs(vd, vi, sd, si, ap, props, path, j - 1);
        let k = vd.nodes@[vi].keys@[j - 1]@;
        if !in_props(sd, props, k) {
            prev + sub_errs(vd, child(vd, vi, j - 1), sd, si, ap, join_path(path, k))
        } else {
            prev
        }
    }
}

/// The first `j` items validated against the tuple's schema at their
/// position, where it has one.
pub open spec fn tuple_errs(vd: JsonDoc, vi: int, sd: JsonDoc, si: int, t: int, path: Seq<char>, j: int) -> Errors
    decreases nlen(sd) - si, 0int, j,
{
    if j <= 0 {
        Seq::empty()
    } else {
        let prev = tuple_errs(vd, vi, sd, si, t, path, j - 1);
        if j - 1 < nchildren(sd, t) {
            prev + sub_errs(vd, child(vd, vi, j - 1), sd, si, child(sd, t, j - 1), join_path(path, decimal_spec((j - 1) as nat)))
        } else {
            prev
        }
    }
}

/// The first `j` items validated against the item schema `s`.
pub open spec fn items_errs(vd: JsonDoc, vi: int, sd: JsonDoc, si: int, s: int, path: Seq<char>, j: int) -> Errors
    decreases nlen(sd) - si, 0int, j,
{
    if j <= 0 {
        Seq::empty()
    } else {
        items_errs(vd, vi, sd, si, s, path, j - 1) + sub_errs(
            vd,
            child(vd, vi, j - 1),
            sd,
            si,
            s,
            join_path(path, decimal_spec((j - 1) as nat)),
        )
    }
}


// ---------------------------------------------------------------------------
// The validator
// ---------------------------------------------------------------------------

fn append(out: &mut Vec<(String, String)>, more: &Vec<(String, String)>)
    ensures
        str_pairs(final(out)@) == str_pairs(old(out)@) + str_pairs(more@),
{
    let ghost start = str_pairs(out@);
    let mut i: usize = 0;
    while i < more.len()
        invariant
            i <= more@.len(),
            str_pairs(out@) == start + str_pairs(more@.take(i as int)),
        decreases more.len() - i,
    {
        let ghost before = out@;
        out.push((to_string(more[i].0.as_str()), to_string(more[i].1.as_str())));
        assert(str_pairs(out@) =~= str_pairs(before).push((more@[i as int].0@, more@[i as int].1@)));
        assert(str_pairs(more@.take(i + 1)) =~= str_pairs(more@.take(i as int)).push((more@[i as int].0@, more@[i as int].1@)));
        i += 1;
    }
    assert(more@.take(more@.len() as int) =~= more@);
}

fn push_error(out: &mut Vec<(String, String)>, path: String, msg: String)
    ensures
        str_pairs(final(out)@) == str_pairs(old(out)@).push((path@, msg@)),
{
    out.push((path, msg));
    assert(str_pairs(out@) =~= str_pairs(old(out)@).push((path@, msg@)));
}

fn key_pos(keys: &Vec<String>, k: &str) -> (r: Option<usize>)
    ensures
        match r {
            Some(j) => key_from(keys@, k@, 0) == Some(j as int),
            None => key_from(keys@, k@, 0) is None,
        },
{
    let mut j: usize = 0;
    while j < keys.len()
        invariant
            j <= keys@.len(),
            key_from(keys@, k@, 0) == key_from(keys@, k@, j as int),
        decreases keys.len() - j,
    {
        if str_eq(keys[j].as_str(), k) {
            return Some(j);
        }
        j += 1;
    }
    None
}

fn get_exec(d: &JsonDoc, i: usize, k: &str) -> (r: Option<usize>)
    requires
        doc_wf(*d),
        i < d.nodes@.len(),
    ensures
        match r {
            Some(c) => get(*d, i as int, k@) == Some(c as int) && i < c < d.nodes@.len(),
            None => get(*d, i as int, k@) is None,
        },
{
    let n = &d.nodes[i];
    match n.kind {
        JsonKind::Object => match key_pos(&n.keys, k) {
            Some(j) => if j < n.children.len() {
                let c = n.children[j];
                assert(c == d.nodes@[i as int].children@[j as int]);
                Some(c)
            } else {
                None
            },
            None => None,
        },
        _ => None,
    }
}

fn get_kind(d: &JsonDoc, i: usize, k: &str, want_array: bool) -> (r: Option<usize>)
    requires
        doc_wf(*d),
        i < d.nodes@.len(),
    ensures
        match r {
            Some(c) => i < c < d.nodes@.len() && (if want_array {
                get_array(*d, i as int, k@) == Some(c as int)
            } else {
                get_object(*d, i as int, k@) == Some(c as int)
            }),
            None => if want_array {
                get_array(*d, i as int, k@) is None
            } else {
                get_object(*d, i as int, k@) is None
            },
        },
{
    match get_exec(d, i, k) {
        Some(c) => {
            let ok = match d.nodes[c].kind {
                JsonKind::Array => want_array,
                JsonKind::Object => !want_array,
                _ => false,
            };
            if ok {
                Some(c)
            } else {
                None
            }
        },
        None => None,
    }
}

fn get_u64_exec(d: &JsonDoc, i: usize, k: &str) -> (r: Option<u64>)
    requires
        doc_wf(*d),
        i < d.nodes@.len(),
    ensures
        r == get_u64(*d, i as int, k@),
{
    match get_exec(d, i, k) {
        Some(c) => match &d.nodes[c].kind {
            JsonKind::Number(n) => n.as_u64,
            _ => None,
        },
        None => None,
    }
}

fn get_number_exec<'a>(d: &'a JsonDoc, i: usize, k: &str) -> (r: Option<&'a NumberInfo>)
    requires
        doc_wf(*d),
        i < d.nodes@.len(),
    ensures
        match r {
            Some(n) => get_number(*d, i as int, k@) == Some(*n),
            None => get_number(*d, i as int, k@) is None,
        },
{
    match get_exec(d, i, k) {
        Some(c) => match &d.nodes[c].kind {
            JsonKind::Number(n) => Some(n),
            _ => None,
        },
        None => None,
    }
}

fn display_path_exec(p: &str) -> (r: String)
    ensures
        r@ == display_path(p@),
{
    if p.is_empty() {
        to_string("root")
    } else {
        to_string(p)
    }
}

fn join_path_exec(base: &str, seg: &str) -> (r: String)
    ensures
        r@ == join_path(base@, seg@),
{
    if base.is_empty() {
        to_string(seg)
    } else {
        let mut v = chars_of(base);
        push_str(&mut v, ".");
        push_str(&mut v, seg);
        string_of(&v)
    }
}

fn with_text(prefix: &str, s: &str, suffix: &str) -> (r: String)
    ensures
        r@ == prefix@ + s@ + suffix@,
{
    let mut v = chars_of(prefix);
    push_str(&mut v, s);
    push_str(&mut v, suffix);
    string_of(&v)
}

fn join_strings(parts: &Vec<String>, sep: &str) -> (r: String)
    ensures
        r@ == join_spec(parts@.map_values(|s: String| s@), sep@),
{
    let mut v: Vec<Vec<char>> = Vec::new();
    let mut i: usize = 0;
    while i < parts.len()
        invariant
            i <= parts@.len(),
            v@.len() == i,
            forall|j: int| 0 <= j < i ==> #[trigger] v@[j]@ == parts@[j]@,
        decreases parts.len() - i,
    {
        v.push(chars_of(parts[i].as_str()));
        i += 1;
    }
    let s = chars_of(sep);
    assert(v@.map_values(|p: Vec<char>| p@) =~= parts@.map_values(|s: String| s@));
    string_of(&crate::text::join(&v, &s))
}

fn schema_types_exec(sd: &JsonDoc, si: usize) -> (r: Vec<String>)
    requires
        doc_wf(*sd),
        si < sd.nodes@.len(),
    ensures
        r@.map_values(|s: String| s@) == schema_types(*sd, si as int),
{
    let mut out: Vec<String> = Vec::new();
    match get_exec(sd, si, "type") {
        Some(t) => match &sd.nodes[t].kind {
            JsonKind::Str(s) => {
                out.push(to_string(s.as_str()));
                assert(out@.map_values(|s: String| s@) =~= seq![s@]);
            },
            JsonKind::Array => {
                let n = sd.nodes[t].children.len();
                let mut j: usize = 0;
                assert(out@.map_values(|s: String| s@) =~= str_members(*sd, t as int, 0));
                while j < n
                    invariant
                        doc_wf(*sd),
                        t < sd.nodes@.len(),
                        n == sd.nodes@[t as int].children@.len(),
                        j <= n,
                        out@.map_values(|s: String| s@) == str_members(*sd, t as int, j as int),
                    decreases n - j,
                {
                    let c = sd.nodes[t].children[j];
                    assert(c == child(*sd, t as int, j as int));
                    assert(c < sd.nodes@.len());
                    match &sd.nodes[c].kind {
                        JsonKind::Str(s) => {
                            let ghost before = out@;
                            out.push(to_string(s.as_str()));
                            assert(out@.map_values(|s: String| s@) =~= before.map_values(|s: String| s@).push(s@));
                        },
                        _ => {},
                    }
                    j += 1;
                }
            },
            _ => {
                assert(out@.map_values(|s: String| s@) =~= Seq::<Seq<char>>::empty());
            },
        },
        None => {
            assert(out@.map_values(|s: String| s@) =~= Seq::<Seq<char>>::empty());
        },
    }
    out
}

fn matches_type_exec(vd: &JsonDoc, vi: usize, ty: &str) -> (r: bool)
    requires
        vi < vd.nodes@.len(),
    ensures
        r == matches_type(*vd, vi as int, ty@),
{
    let k = &vd.nodes[vi].kind;
    if str_eq(ty, "number") {
        matches!(k, JsonKind::Number(_))
    } else if str_eq(ty, "integer") {
        match k {
            JsonKind::Number(n) => n.integral,
            _ => false,
        }
    } else if str_eq(ty, "boolean") {
        matches!(k, JsonKind::Bool(_))
    } else if str_eq(ty, "string") {
        matches!(k, JsonKind::Str(_))
    } else if str_eq(ty, "null") {
        matches!(k, JsonKind::Null)
    } else if str_eq(ty, "array") {
        matches!(k, JsonKind::Array)
    } else if str_eq(ty, "object") {
        matches!(k, JsonKind::Object)
    } else {
        false
    }
}

fn enum_errs(vd: &JsonDoc, vi: usize, sd: &JsonDoc, e: usize, path: &str) -> (r: Vec<(String, String)>)
    requires
        doc_wf(*sd),
        e < sd.nodes@.len(),
        vi < vd.nodes@.len(),
    ensures
        str_pairs(r@) == (if enum_has(*vd, vi as int, *sd, e as int, nchildren(*sd, e as int)) {
            Seq::empty()
        } else {
            seq![(display_path(path@), "Expected one of: "@ + join_spec(member_texts(*sd, e as int, nchildren(*sd, e as int)), ", "@))]
        }),
{
    let n = sd.nodes[e].children.len();
    let mut found = false;
    let mut texts: Vec<String> = Vec::new();
    let mut j: usize = 0;
    while j < n
        invariant
            doc_wf(*sd),
            e < sd.nodes@.len(),
            vi < vd.nodes@.len(),
            n == sd.nodes@[e as int].children@.len(),
            j <= n,
            found == enum_has(*vd, vi as int, *sd, e as int, j as int),
            texts@.map_values(|s: String| s@) == member_texts(*sd, e as int, j as int),
        decreases n - j,
    {
        let c = sd.nodes[e].children[j];
        assert(c == child(*sd, e as int, j as int));
        if str_eq(sd.nodes[c].eq_key.as_str(), vd.nodes[vi].eq_key.as_str()) {
            found = true;
        }
        let ghost before = texts@;
        texts.push(to_string(sd.nodes[c].text.as_str()));
        assert(texts@.map_values(|s: String| s@) =~= before.map_values(|s: String| s@).push(sd.nodes@[c as int].text@));
        j += 1;
    }
    let mut out: Vec<(String, String)> = Vec::new();
    if !found {
        let allowed = join_strings(&texts, ", ");
        push_error(&mut out, display_path_exec(path), with_text("Expected one of: ", allowed.as_str(), ""));
        proof {
            reveal_strlit("");
        }
    }
    assert(str_pairs(out@) =~= (if found {
        Seq::empty()
    } else {
        seq![(display_path(path@), "Expected one of: "@ + join_spec(member_texts(*sd, e as int, n as int), ", "@))]
    }));
    out
}

fn required_exec(vd: &JsonDoc, vi: usize, sd: &JsonDoc, r: usize, path: &str) -> (res: Vec<(String, String)>)
    requires
        doc_wf(*sd),
        doc_wf(*vd),
        r < sd.nodes@.len(),
        vi < vd.nodes@.len(),
    ensures
        str_pairs(res@) == required_errs(*vd, vi as int, *sd, r as int, path@, nchildren(*sd, r as int)),
{
    let n = sd.nodes[r].children.len();
    let mut out: Vec<(String, String)> = Vec::new();
    let mut j: usize = 0;
    assert(str_pairs(out@) =~= Seq::<(Seq<char>, Seq<char>)>::empty());
    while j < n
        invariant
            doc_wf(*sd),
            doc_wf(*vd),
            r < sd.nodes@.len(),
            vi < vd.nodes@.len(),
            n == sd.nodes@[r as int].children@.len(),
            j <= n,
            str_pairs(out@) == required_errs(*vd, vi as int, *sd, r as int, path@, j as int),
        decreases n - j,
    {
        let c = sd.nodes[r].children[j];
        assert(c == child(*sd, r as int, j as int));
        match &sd.nodes[c].kind {
            JsonKind::Str(name) => {
                if get_exec(vd, vi, name.as_str()).is_none() {
                    push_error(&mut out, join_path_exec(path, name.as_str()), to_string("Expected required property"));
                }
            },
            _ => {},
        }
        j += 1;
    }
    out
}

fn in_props_exec(sd: &JsonDoc, props: Option<usize>, k: &str) -> (r: bool)
    requires
        doc_wf(*sd),
        props matches Some(p) ==> p < sd.nodes@.len(),
    ensures
        r == in_props(*sd, match props {
            Some(p) => Some(p as int),
            None => None,
        }, k@),
{
    match props {
        Some(p) => get_exec(sd, p, k).is_some(),
        None => false,
    }
}

pub open spec fn opt_int(o: Option<usize>) -> Option<int> {
    match o {
        Some(p) => Some(p as int),
        None => None,
    }
}

fn unexpected_exec(vd: &JsonDoc, vi: usize, sd: &JsonDoc, props: Option<usize>, path: &str) -> (res: Vec<(String, String)>)
    requires
        doc_wf(*sd),
        doc_wf(*vd),
        vi < vd.nodes@.len(),
        vd.nodes@[vi as int].kind is Object,
        props matches Some(p) ==> p < sd.nodes@.len(),
    ensures
        str_pairs(res@) == unexpected_errs(*vd, vi as int, *sd, opt_int(props), path@, nchildren(*vd, vi as int)),
{
    let n = vd.nodes[vi].children.len();
    let mut out: Vec<(String, String)> = Vec::new();
    let mut j: usize = 0;
    assert(str_pairs(out@) =~= Seq::<(Seq<char>, Seq<char>)>::empty());
    while j < n
        invariant
            doc_wf(*sd),
            doc_wf(*vd),
            vi < vd.nodes@.len(),
            vd.nodes@[vi as int].kind is Object,
            props matches Some(p) ==> p < sd.nodes@.len(),
            n == vd.nodes@[vi as int].children@.len(),
            j <= n,
            str_pairs(out@) == unexpected_errs(*vd, vi as int, *sd, opt_int(props), path@, j as int),
        decreases n - j,
    {
        let k = vd.nodes[vi].keys[j].as_str();
        if !in_props_exec(sd, props, k) {
            push_error(&mut out, join_path_exec(path, k), to_string("Unexpected property"));
        }
        j += 1;
    }
    out
}

fn bound_exec(out: &mut Vec<(String, String)>, cond: bool, path: &str, msg: String)
    ensures
        str_pairs(final(out)@) == str_pairs(old(out)@) + bound_err(cond, path@, msg@),
{
    if cond {
        push_error(out, display_path_exec(path), msg);
        assert(str_pairs(out@) =~= str_pairs(old(out)@) + bound_err(cond, path@, msg@));
    } else {
        assert(str_pairs(out@) =~= str_pairs(old(out)@) + bound_err(cond, path@, msg@));
    }
}

fn decimal_text(prefix: &str, m: u64) -> (r: String)
    ensures
        r@ == prefix@ + decimal_spec(m as nat),
{
    let mut v = chars_of(prefix);
    let d = decimal(m);
    crate::text::push_all(&mut v, &d);
    string_of(&v)
}

fn string_exec(s: &str, sd: &JsonDoc, si: usize, path: &str) -> (r: Vec<(String, String)>)
    requires
        doc_wf(*sd),
        si < sd.nodes@.len(),
    ensures
        str_pairs(r@) == string_errs(s@, *sd, si as int, path@),
{
    let len = chars_of(s).len() as u64;
    let mut out: Vec<(String, String)> = Vec::new();
    assert(str_pairs(out@) =~= Seq::<(Seq<char>, Seq<char>)>::empty());
    let ghost e0 = str_pairs(out@);
    match get_u64_exec(sd, si, "minLength") {
        Some(m) => bound_exec(&mut out, len < m, path, decimal_text("Expected string length greater or equal to ", m)),
        None => {},
    }
    let ghost e1 = str_pairs(out@);
    match get_u64_exec(sd, si, "maxLength") {
        Some(m) => bound_exec(&mut out, len > m, path, decimal_text("Expected string length less or equal to ", m)),
        None => {},
    }
    let ghost e2 = str_pairs(out@);
    match get_exec(sd, si, "pattern") {
        Some(c) => match &sd.nodes[c].kind {
            JsonKind::Str(pat) => {
                let bad = match CompiledRegex::new(pat.as_str()) {
                    Ok(re) => !re.is_match(s),
                    Err(_) => false,
                };
                bound_exec(&mut out, bad, path, with_text("Expected string to match '", pat.as_str(), "'"));
            },
            _ => {},
        },
        None => {},
    }
    proof {
        assert(e0 =~= Seq::<(Seq<char>, Seq<char>)>::empty());
        assert(str_pairs(out@) =~= string_errs(s@, *sd, si as int, path@));
    }
    out
}

fn number_exec(n: &NumberInfo, sd: &JsonDoc, si: usize, path: &str) -> (r: Vec<(String, String)>)
    requires
        doc_wf(*sd),
        si < sd.nodes@.len(),
    ensures
        str_pairs(r@) == number_errs(*n, *sd, si as int, path@),
{
    let mut out: Vec<(String, String)> = Vec::new();
    let ghost e0 = str_pairs(out@);
    match get_number_exec(sd, si, "minimum") {
        Some(m) => bound_exec(&mut out, n.order < m.order, path, with_text("Expected number to be greater or equal to ", m.float_text.as_str(), "")),
        None => {},
    }
    match get_number_exec(sd, si, "maximum") {
        Some(m) => bound_exec(&mut out, n.order > m.order, path, with_text("Expected number to be less or equal to ", m.float_text.as_str(), "")),
        None => {},
    }
    match get_number_exec(sd, si, "exclusiveMinimum") {
        Some(m) => bound_exec(&mut out, n.order <= m.order, path, with_text("Expected number to be greater than ", m.float_text.as_str(), "")),
        None => {},
    }
    match get_number_exec(sd, si, "exclusiveMaximum") {
        Some(m) => bound_exec(&mut out, n.order >= m.order, path, with_text("Expected number to be less than ", m.float_text.as_str(), "")),
        None => {},
    }
    proof {
        reveal_strlit("");
        assert(e0 =~= Seq::<(Seq<char>, Seq<char>)>::empty());
        assert(str_pairs(out@) =~= number_errs(*n, *sd, si as int, path@));
    }
    out
}

fn length_exec(len: usize, sd: &JsonDoc, si: usize, path: &str) -> (r: Vec<(String, String)>)
    requires
        doc_wf(*sd),
        si < sd.nodes@.len(),
    ensures
        str_pairs(r@) == length_errs(len as int, *sd, si as int, path@),
{
    let l = len as u64;
    let mut out: Vec<(String, String)> = Vec::new();
    let ghost e0 = str_pairs(out@);
    match get_u64_exec(sd, si, "minItems") {
        Some(m) => bound_exec(&mut out, l < m, path, decimal_text("Expected array length to be greater or equal to ", m)),
        None => {},
    }
    match get_u64_exec(sd, si, "maxItems") {
        Some(m) => bound_exec(&mut out, l > m, path, decimal_text("Expected array length to be less or equal to ", m)),
        None => {},
    }
    proof {
        assert(e0 =~= Seq::<(Seq<char>, Seq<char>)>::empty());
        assert(str_pairs(out@) =~= length_errs(len as int, *sd, si as int, path@));
    }
    out
}


fn sub_exec(vd: &JsonDoc, vi: usize, sd: &JsonDoc, si: usize, c: usize, path: &str) -> (r: Vec<(String, String)>)
    requires
        doc_wf(*vd),
        doc_wf(*sd),
        vi < vd.nodes@.len(),
        si < sd.nodes@.len(),
    ensures
        str_pairs(r@) == sub_errs(*vd, vi as int, *sd, si as int, c as int, path@),
    decreases sd.nodes@.len() - si, 0int,
{
    if si < c && c < sd.nodes.len() {
        validate_at(vd, vi, sd, c, path)
    } else {
        let r: Vec<(String, String)> = Vec::new();
        assert(str_pairs(r@) =~= Seq::<(Seq<char>, Seq<char>)>::empty());
        r
    }
}

fn all_exec(vd: &JsonDoc, vi: usize, sd: &JsonDoc, si: usize, a: usize, path: &str) -> (r: Vec<(String, String)>)
    requires
        doc_wf(*vd),
        doc_wf(*sd),
        vi < vd.nodes@.len(),
        si < sd.nodes@.len(),
        a < sd.nodes@.len(),
    ensures
        str_pairs(r@) == all_errs(*vd, vi as int, *sd, si as int, a as int, path@, nchildren(*sd, a as int)),
    decreases sd.nodes@.len() - si, 1int,
{
    let n = sd.nodes[a].children.len();
    let mut out: Vec<(String, String)> = Vec::new();
    assert(str_pairs(out@) =~= Seq::<(Seq<char>, Seq<char>)>::empty());
    let mut j: usize = 0;
    while j < n
        invariant
            doc_wf(*vd),
            doc_wf(*sd),
            vi < vd.nodes@.len(),
            si < sd.nodes@.len(),
            a < sd.nodes@.len(),
            n == sd.nodes@[a as int].children@.len(),
            j <= n,
            str_pairs(out@) == all_errs(*vd, vi as int, *sd, si as int, a as int, path@, j as int),
        decreases n - j,
    {
        let c = sd.nodes[a].children[j];
        assert(c == child(*sd, a as int, j as int));
        let e = sub_exec(vd, vi, sd, si, c, path);
        append(&mut out, &e);
        j += 1;
    }
    out
}

fn any_exec(vd: &JsonDoc, vi: usize, sd: &JsonDoc, si: usize, a: usize, path: &str) -> (r: bool)
    requires
        doc_wf(*vd),
        doc_wf(*sd),
        vi < vd.nodes@.len(),
        si < sd.nodes@.len(),
        a < sd.nodes@.len(),
    ensures
        r == any_valid(*vd, vi as int, *sd, si as int, a as int, path@, nchildren(*sd, a as int)),
    decreases sd.nodes@.len() - si, 1int,
{
    let n = sd.nodes[a].children.len();
    let mut found = false;
    let mut j: usize = 0;
    while j < n
        invariant
            doc_wf(*vd),
            doc_wf(*sd),
            vi < vd.nodes@.len(),
            si < sd.nodes@.len(),
            a < sd.nodes@.len(),
            n == sd.nodes@[a as int].children@.len(),
            j <= n,
            found == any_valid(*vd, vi as int, *sd, si as int, a as int, path@, j as int),
        decreases n - j,
    {
        let c = sd.nodes[a].children[j];
        assert(c == child(*sd, a as int, j as int));
        let e = sub_exec(vd, vi, sd, si, c, path);
        if e.len() == 0 {
            found = true;
        }
        j += 1;
    }
    found
}

fn count_exec(vd: &JsonDoc, vi: usize, sd: &JsonDoc, si: usize, a: usize, path: &str) -> (r: usize)
    requires
        doc_wf(*vd),
        doc_wf(*sd),
        vi < vd.nodes@.len(),
        si < sd.nodes@.len(),
        a < sd.nodes@.len(),
    ensures
        r as int == count_valid(*vd, vi as int, *sd, si as int, a as int, path@, nchildren(*sd, a as int)),
    decreases sd.nodes@.len() - si, 1int,
{
    let n = sd.nodes[a].children.len();
    let mut count: usize = 0;
    let mut j: usize = 0;
    while j < n
        invariant
            doc_wf(*vd),
            doc_wf(*sd),
            vi < vd.nodes@.len(),
            si < sd.nodes@.len(),
            a < sd.nodes@.len(),
            n == sd.nodes@[a as int].children@.len(),
            j <= n,
            count <= j,
            count as int == count_valid(*vd, vi as int, *sd, si as int, a as int, path@, j as int),
        decreases n - j,
    {
        let c = sd.nodes[a].children[j];
        assert(c == child(*sd, a as int, j as int));
        let e = sub_exec(vd, vi, sd, si, c, path);
        if e.len() == 0 {
            count += 1;
        }
        j += 1;
    }
    count
}

fn props_exec(vd: &JsonDoc, vi: usize, sd: &JsonDoc, si: usize, p: usize, path: &str) -> (r: Vec<(String, String)>)
    requires
        doc_wf(*vd),
        doc_wf(*sd),
        vi < vd.nodes@.len(),
        si < sd.nodes@.len(),
        p < sd.nodes@.len(),
        sd.nodes@[p as int].kind is Object,
    ensures
        str_pairs(r@) == props_errs(*vd, vi as int, *sd, si as int, p as int, path@, nchildren(*sd, p as int)),
    decreases sd.nodes@.len() - si, 1int,
{
    let n = sd.nodes[p].children.len();
    let mut out: Vec<(String, String)> = Vec::new();
    assert(str_pairs(out@) =~= Seq::<(Seq<char>, Seq<char>)>::empty());
    let mut j: usize = 0;
    while j < n
        invariant
            doc_wf(*vd),
            doc_wf(*sd),
            vi < vd.nodes@.len(),
            si < sd.nodes@.len(),
            p < sd.nodes@.len(),
            sd.nodes@[p as int].kind is Object,
            n == sd.nodes@[p as int].children@.len(),
            j <= n,
            str_pairs(out@) == props_errs(*vd, vi as int, *sd, si as int, p as int, path@, j as int),
        decreases n - j,
    {
        let c = sd.nodes[p].children[j];
        assert(c == child(*sd, p as int, j as int));
        let k = sd.nodes[p].keys[j].as_str();
        match get_exec(vd, vi, k) {
            Some(v) => {
                let sub_path = join_path_exec(path, k);
                let e = sub_exec(vd, v, sd, si, c, sub_path.as_str());
                append(&mut out, &e);
            },
            None => {},
        }
        j += 1;
    }
    out
}

fn extra_exec(vd: &JsonDoc, vi: usize, sd: &JsonDoc, si: usize, ap: usize, props: Option<usize>, path: &str) -> (r: Vec<
    (String, String),
>)
    requires
        doc_wf(*vd),
        doc_wf(*sd),
        vi < vd.nodes@.len(),
        vd.nodes@[vi as int].kind is Object,
        si < sd.nodes@.len(),
        props matches Some(p) ==> p < sd.nodes@.len(),
    ensures
        str_pairs(r@) == extra_errs(*vd, vi as int, *sd, si as int, ap as int, opt_int(props), path@, nchildren(*vd, vi as int)),
    decreases sd.nodes@.len() - si, 1int,
{
    let n = vd.nodes[vi].children.len();
    let mut out: Vec<(String, String)> = Vec::new();
    assert(str_pairs(out@) =~= Seq::<(Seq<char>, Seq<char>)>::empty());
    let mut j: usize = 0;
    while j < n
        invariant
            doc_wf(*vd),
            doc_wf(*sd),
            vi < vd.nodes@.len(),
            vd.nodes@[vi as int].kind is Object,
            si < sd.nodes@.len(),
            props matches Some(p) ==> p < sd.nodes@.len(),
            n == vd.nodes@[vi as int].children@.len(),
            j <= n,
            str_pairs(out@) == extra_errs(*vd, vi as int, *sd, si as int, ap as int, opt_int(props), path@, j as int),
        decreases n - j,
    {
        let v = vd.nodes[vi].children[j];
        assert(v == child(*vd, vi as int, j as int));
        let k = vd.nodes[vi].keys[j].as_str();
        if !in_props_exec(sd, props, k) {
            let sub_path = join_path_exec(path, k);
            let e = sub_exec(vd, v, sd, si, ap, sub_path.as_str());
            append(&mut out, &e);
        }
        j += 1;
    }
    out
}

fn tuple_exec(vd: &JsonDoc, vi: usize, sd: &JsonDoc, si: usize, t: usize, path: &str) -> (r: Vec<(String, String)>)
    requires
        doc_wf(*vd),
        doc_wf(*sd),
        vi < vd.nodes@.len(),
        si < sd.nodes@.len(),
        t < sd.nodes@.len(),
    ensures
        str_pairs(r@) == tuple_errs(*vd, vi as int, *sd, si as int, t as int, path@, nchildren(*vd, vi as int)),
    decreases sd.nodes@.len() - si, 1int,
{
    let n = vd.nodes[vi].children.len();
    let m = sd.nodes[t].children.len();
    let mut out: Vec<(String, String)> = Vec::new();
    assert(str_pairs(out@) =~= Seq::<(Seq<char>, Seq<char>)>::empty());
    let mut j: usize = 0;
    while j < n
        invariant
            doc_wf(*vd),
            doc_wf(*sd),
            vi < vd.nodes@.len(),
            si < sd.nodes@.len(),
            t < sd.nodes@.len(),
            n == vd.nodes@[vi as int].children@.len(),
            m == sd.nodes@[t as int].children@.len(),
            j <= n,
            str_pairs(out@) == tuple_errs(*vd, vi as int, *sd, si as int, t as int, path@, j as int),
        decreases n - j,
    {
        if j < m {
            let v = vd.nodes[vi].children[j];
            assert(v == child(*vd, vi as int, j as int));
            let c = sd.nodes[t].children[j];
            assert(c == child(*sd, t as int, j as int));
            let idx = string_of(&decimal(j as u64));
            let sub_path = join_path_exec(path, idx.as_str());
            let e = sub_exec(vd, v, sd, si, c, sub_path.as_str());
            append(&mut out, &e);
        }
        j += 1;
    }
    out
}

fn items_exec(vd: &JsonDoc, vi: usize, sd: &JsonDoc, si: usize, s: usize, path: &str) -> (r: Vec<(String, String)>)
    requires
        doc_wf(*vd),
        doc_wf(*sd),
        vi < vd.nodes@.len(),
        si < sd.nodes@.len(),
    ensures
        str_pairs(r@) == items_errs(*vd, vi as int, *sd, si as int, s as int, path@, nchildren(*vd, vi as int)),
    decreases sd.nodes@.len() - si, 1int,
{
    let n = vd.nodes[vi].children.len();
    let mut out: Vec<(String, String)> = Vec::new();
    assert(str_pairs(out@) =~= Seq::<(Seq<char>, Seq<char>)>::empty());
    let mut j: usize = 0;
    while j < n
        invariant
            doc_wf(*vd),
            doc_wf(*sd),
            vi < vd.nodes@.len(),
            si < sd.nodes@.len(),
            n == vd.nodes@[vi as int].children@.len(),
            j <= n,
            str_pairs(out@) == items_errs(*vd, vi as int, *sd, si as int, s as int, path@, j as int),
        decreases n - j,
    {
        let v = vd.nodes[vi].children[j];
        assert(v == child(*vd, vi as int, j as int));
        let idx = string_of(&decimal(j as u64));
        let sub_path = join_path_exec(path, idx.as_str());
        let e = sub_exec(vd, v, sd, si, s, sub_path.as_str());
        append(&mut out, &e);
        j += 1;
    }
    out
}

fn kind_exec(vd: &JsonDoc, vi: usize, sd: &JsonDoc, si: usize, path: &str) -> (r: Vec<(String, String)>)
    requires
        doc_wf(*vd),
        doc_wf(*sd),
        vi < vd.nodes@.len(),
        si < sd.nodes@.len(),
    ensures
        str_pairs(r@) == kind_errs(*vd, vi as int, *sd, si as int, path@),
    decreases sd.nodes@.len() - si, 2int,
{
    let mut out: Vec<(String, String)> = Vec::new();
    assert(str_pairs(out@) =~= Seq::<(Seq<char>, Seq<char>)>::empty());
    match &vd.nodes[vi].kind {
        JsonKind::Object => {
            match get_kind(sd, si, "required", true) {
                Some(r) => {
                    let e = required_exec(vd, vi, sd, r, path);
                    append(&mut out, &e);
                },
                None => {},
            }
            let ghost req = str_pairs(out@);
            let props = get_kind(sd, si, "properties", false);
            match props {
                Some(p) => {
                    let e = props_exec(vd, vi, sd, si, p, path);
                    append(&mut out, &e);
                },
                None => {},
            }
            let ghost pe = str_pairs(out@);
            match get_exec(sd, si, "additionalProperties") {
                Some(ap) => match &sd.nodes[ap].kind {
                    JsonKind::Bool(b) => {
                        if !*b {
                            let e = unexpected_exec(vd, vi, sd, props, path);
                            append(&mut out, &e);
                        }
                    },
                    JsonKind::Object => {
                        let e = extra_exec(vd, vi, sd, si, ap, props, path);
                        append(&mut out, &e);
                    },
                    _ => {},
                },
                None => {},
            }
            proof {
                assert(opt_int(props) == get_object(*sd, si as int, "properties"@));
            }
        },
        JsonKind::Array => {
            let e = length_exec(vd.nodes[vi].children.len(), sd, si, path);
            append(&mut out, &e);
            match get_exec(sd, si, "items") {
                Some(t) => match &sd.nodes[t].kind {
                    JsonKind::Array => {
                        let e = tuple_exec(vd, vi, sd, si, t, path);
                        append(&mut out, &e);
                    },
                    JsonKind::Object => {
                        let e = items_exec(vd, vi, sd, si, t, path);
                        append(&mut out, &e);
                    },
                    _ => {},
                },
                None => {},
            }
        },
        JsonKind::Str(s) => {
            let e = string_exec(s.as_str(), sd, si, path);
            append(&mut out, &e);
        },
        JsonKind::Number(n) => {
            let e = number_exec(n, sd, si, path);
            append(&mut out, &e);
        },
        _ => {},
    }
    assert(str_pairs(out@) =~= kind_errs(*vd, vi as int, *sd, si as int, path@));
    out
}

fn pre_exec(vd: &JsonDoc, vi: usize, sd: &JsonDoc, si: usize, path: &str) -> (r: Vec<(String, String)>)
    requires
        doc_wf(*vd),
        doc_wf(*sd),
        vi < vd.nodes@.len(),
        si < sd.nodes@.len(),
    ensures
        str_pairs(r@) == pre_errs(*vd, vi as int, *sd, si as int, path@),
    decreases sd.nodes@.len() - si, 2int,
{
    let mut errors: Vec<(String, String)> = Vec::new();
    assert(str_pairs(errors@) =~= Seq::<(Seq<char>, Seq<char>)>::empty());
    match get_kind(sd, si, "allOf", true) {
        Some(a) => {
            let e = all_exec(vd, vi, sd, si, a, path);
            append(&mut errors, &e);
        },
        None => {},
    }
    match get_kind(sd, si, "anyOf", true) {
        Some(a) => {
            if !any_exec(vd, vi, sd, si, a, path) {
                push_error(&mut errors, display_path_exec(path), to_string("Expected value to match one of the allowed schemas"));
            }
        },
        None => {},
    }
    match get_kind(sd, si, "oneOf", true) {
        Some(a) => {
            if count_exec(vd, vi, sd, si, a, path) != 1 {
                push_error(
                    &mut errors,
                    display_path_exec(path),
                    to_string("Expected value to match exactly one of the allowed schemas"),
                );
            }
        },
        None => {},
    }
    match get_kind(sd, si, "enum", true) {
        Some(e) => {
            let x = enum_errs(vd, vi, sd, e, path);
            append(&mut errors, &x);
        },
        None => {},
    }
    match get_exec(sd, si, "const") {
        Some(c) => {
            if !str_eq(sd.nodes[c].eq_key.as_str(), vd.nodes[vi].eq_key.as_str()) {
                proof {
                    reveal_strlit("");
                }
                push_error(&mut errors, display_path_exec(path), with_text("Expected ", sd.nodes[c].text.as_str(), ""));
            }
        },
        None => {},
    }
    assert(str_pairs(errors@) =~= pre_errs(*vd, vi as int, *sd, si as int, path@));
    errors
}

/// The errors of value node `vi` against schema node `si`, as `(path,
/// message)` pairs; `path` names the value (`root` when empty).
pub fn validate_at(vd: &JsonDoc, vi: usize, sd: &JsonDoc, si: usize, path: &str) -> (r: Vec<(String, String)>)
    requires
        doc_wf(*vd),
        doc_wf(*sd),
        vi < vd.nodes@.len(),
        si < sd.nodes@.len(),
    ensures
        str_pairs(r@) == validate_spec(*vd, vi as int, *sd, si as int, path@),
    decreases sd.nodes@.len() - si, 3int,
{
    let mut errors = pre_exec(vd, vi, sd, si, path);
    let types = schema_types_exec(sd, si);
    let ghost tv = types@.map_values(|s: String| s@);
    if types.len() > 0 {
        let mut any = false;
        let mut k: usize = 0;
        while k < types.len()
            invariant
                vi < vd.nodes@.len(),
                k <= types@.len(),
                tv == types@.map_values(|s: String| s@),
                any == exists|q: int| 0 <= q < k && matches_type(*vd, vi as int, #[trigger] tv[q]),
            decreases types.len() - k,
        {
            assert(tv[k as int] == types@[k as int]@);
            if matches_type_exec(vd, vi, types[k].as_str()) {
                any = true;
            }
            k += 1;
        }
        if !any {
            let joined = join_strings(&types, " | ");
            proof {
                reveal_strlit("");
            }
            let ghost before = str_pairs(errors@);
            push_error(&mut errors, display_path_exec(path), with_text("Expected ", joined.as_str(), ""));
            return errors;
        }
    }
    let rest = kind_exec(vd, vi, sd, si, path);
    append(&mut errors, &rest);
    errors
}

/// Validates `value` against `schema` from their roots.
pub fn validate(value: &JsonDoc, schema: &JsonDoc, path: &str) -> (r: Vec<(String, String)>)
    requires
        doc_wf(*value),
        doc_wf(*schema),
        value.nodes@.len() > 0,
        schema.nodes@.len() > 0,
    ensures
        str_pairs(r@) == validate_spec(*value, 0, *schema, 0, path@),
{
    validate_at(value, 0, schema, 0, path)
}


/// Whether `d` is well formed: see `doc_wf`.
pub fn well_formed(d: &JsonDoc) -> (r: bool)
    ensures
        r == doc_wf(*d),
{
    let n = d.nodes.len();
    let mut i: usize = 0;
    while i < n
        invariant
            n == d.nodes@.len(),
            i <= n,
            forall|a: int, j: int|
                0 <= a < i && 0 <= j < d.nodes@[a].children@.len() ==> a < #[trigger] d.nodes@[a].children@[j] < n,
            forall|a: int| 0 <= a < i && (#[trigger] d.nodes@[a]).kind is Object ==> d.nodes@[a].keys@.len()
                == d.nodes@[a].children@.len(),
        decreases n - i,
    {
        let node = &d.nodes[i];
        if matches!(node.kind, JsonKind::Object) && node.keys.len() != node.children.len() {
            return false;
        }
        let mut j: usize = 0;
        while j < node.children.len()
            invariant
                n == d.nodes@.len(),
                i < n,
                *node == d.nodes@[i as int],
                j <= node.children@.len(),
                forall|q: int| 0 <= q < j ==> i < #[trigger] node.children@[q] < n,
            decreases node.children.len() - j,
        {
            let c = node.children[j];
            if c <= i || c >= n {
                assert(!(i < d.nodes@[i as int].children@[j as int] < n));
                return false;
            }
            j += 1;
        }
        i += 1;
    }
    true
}


pub open spec fn error_line(e: (Seq<char>, Seq<char>)) -> Seq<char> {
    "  - "@ + e.0 + ": "@ + e.1
}

/// The message for arguments of tool `tool_name` that fail validation:
/// one line per error, then the arguments as received.
pub open spec fn failure_spec(tool_name: Seq<char>, errors: Errors, received: Seq<char>) -> Seq<char> {
    "Validation failed for tool \""@ + tool_name + "\":\n"@ + join_spec(
        Seq::new(errors.len(), |i: int| error_line(errors[i])),
        "\n"@,
    ) + "\n\nReceived arguments:\n"@ + received
}

pub fn validation_failure(tool_name: &str, errors: &Vec<(String, String)>, received: &str) -> (r: String)
    ensures
        r@ == failure_spec(tool_name@, str_pairs(errors@), received@),
{
    let mut lines: Vec<String> = Vec::new();
    let mut i: usize = 0;
    while i < errors.len()
        invariant
            i <= errors@.len(),
            lines@.len() == i,
            forall|j: int| 0 <= j < i ==> #[trigger] lines@[j]@ == error_line(str_pairs(errors@)[j]),
        decreases errors.len() - i,
    {
        let mut v = chars_of("  - ");
        push_str(&mut v, errors[i].0.as_str());
        push_str(&mut v, ": ");
        push_str(&mut v, errors[i].1.as_str());
        lines.push(string_of(&v));
        i += 1;
    }
    let body = join_strings(&lines, "\n");
    assert(lines@.map_values(|s: String| s@) =~= Seq::new(
        str_pairs(errors@).len(),
        |k: int| error_line(str_pairs(errors@)[k]),
    ));
    let mut out = chars_of("Validation failed for tool \"");
    push_str(&mut out, tool_name);
    push_str(&mut out, "\":\n");
    push_str(&mut out, body.as_str());
    push_str(&mut out, "\n\nReceived arguments:\n");
    push_str(&mut out, received);
    string_of(&out)
}


// ---------------------------------------------------------------------------
// Optional nulls
// ---------------------------------------------------------------------------

/// The document of the single value `null`.
pub open spec fn is_null_doc(nd: JsonDoc) -> bool {
    &&& nd.nodes@.len() == 1
    &&& nd.nodes@[0].kind is Null
    &&& nd.nodes@[0].children@.len() == 0
    &&& nd.nodes@[0].keys@.len() == 0
    &&& nd.nodes@[0].text@ == "null"@
    &&& nd.nodes@[0].eq_key@ == "null"@
}

/// `key` is among the string members of the schema's `required`.
pub open spec fn required_has(sd: JsonDoc, si: int, key: Seq<char>) -> bool {
    match get_array(sd, si, "required"@) {
        Some(r) => exists|j: int| 0 <= j < nchildren(sd, r) && #[trigger] str_node_is(sd, child(sd, r, j), key),
        None => false,
    }
}

/// Node `i` is the string `key`.
pub open spec fn str_node_is(d: JsonDoc, i: int, key: Seq<char>) -> bool {
    match d.nodes@[i].kind {
        JsonKind::Str(s) => s@ == key,
        _ => false,
    }
}

/// `null` fails sub-schema `c` of `si`.
pub open spec fn null_rejected(nd: JsonDoc, sd: JsonDoc, si: int, c: int) -> bool {
    si < c < nlen(sd) && validate_spec(nd, 0, sd, c, Seq::empty()).len() > 0
}

/// The value nodes (object entries holding `null`) that normalizing drops:
/// an optional property whose schema has no `$ref` and rejects `null`;
/// arrays and other properties are followed into their schemas.
pub open spec fn drops_spec(vd: JsonDoc, vi: int, sd: JsonDoc, si: int, nd: JsonDoc) -> Seq<int>
    decreases nlen(sd) - si, 1int, 0int,
{
    match vd.nodes@[vi].kind {
        JsonKind::Array => match get(sd, si, "items"@) {
            Some(t) => if is_array(sd, t) {
                tuple_drops(vd, vi, sd, si, t, nd, nchildren(vd, vi))
            } else if is_object(sd, t) {
                item_drops(vd, vi, sd, si, t, nd, nchildren(vd, vi))
            } else {
                Seq::empty()
            },
            None => Seq::empty(),
        },
        JsonKind::Object => match get_object(sd, si, "properties"@) {
            Some(p) => prop_drops(vd, vi, sd, si, p, nd, nchildren(sd, p)),
            None => Seq::empty(),
        },
        _ => Seq::empty(),
    }
}

pub open spec fn sub_drops(vd: JsonDoc, v: int, sd: JsonDoc, si: int, c: int, nd: JsonDoc) -> Seq<int>
    decreases nlen(sd) - si, 0int, 0int,
{
    if si < c < nlen(sd) {
        drops_spec(vd, v, sd, c, nd)
    } else {
        Seq::empty()
    }
}

pub open spec fn tuple_drops(vd: JsonDoc, vi: int, sd: JsonDoc, si: int, t: int, nd: JsonDoc, j: int) -> Seq<int>
    decreases nlen(sd) - si, 0int, j,
{
    if j <= 0 {
        Seq::empty()
    } else {
        tuple_drops(vd, vi, sd, si, t, nd, j - 1) + if j - 1 < nchildren(sd, t) {
            sub_drops(vd, child(vd, vi, j - 1), sd, si, child(sd, t, j - 1), nd)
        } else {
            Seq::empty()
        }
    }
}

pub open spec fn item_drops(vd: JsonDoc, vi: int, sd: JsonDoc, si: int, t: int, nd: JsonDoc, j: int) -> Seq<int>
    decreases nlen(sd) - si, 0int, j,
{
    if j <= 0 {
        Seq::empty()
    } else {
        item_drops(vd, vi, sd, si, t, nd, j - 1) + sub_drops(vd, child(vd, vi, j - 1), sd, si, t, nd)
    }
}

pub open spec fn prop_drops(vd: JsonDoc, vi: int, sd: JsonDoc, si: int, p: int, nd: JsonDoc, j: int) -> Seq<int>
    decreases nlen(sd) - si, 0int, j,
{
    if j <= 0 {
        Seq::empty()
    } else {
        let prev = prop_drops(vd, vi, sd, si, p, nd, j - 1);
        let k = sd.nodes@[p].keys@[j - 1]@;
        let ps = child(sd, p, j - 1);
        match get(vd, vi, k) {
            Some(v) => if vd.nodes@[v].kind is Null && !required_has(sd, si, k) && get(sd, ps, "$ref"@) is None
                && null_rejected(nd, sd, si, ps) {
                prev.push(v)
            } else {
                prev + sub_drops(vd, v, sd, si, ps, nd)
            },
            None => prev,
        }
    }
}

fn required_has_exec(sd: &JsonDoc, si: usize, key: &str) -> (r: bool)
    requires
        doc_wf(*sd),
        si < sd.nodes@.len(),
    ensures
        r == required_has(*sd, si as int, key@),
{
    match get_kind(sd, si, "required", true) {
        Some(r) => {
            let n = sd.nodes[r].children.len();
            let mut j: usize = 0;
            while j < n
                invariant
                    doc_wf(*sd),
                    r < sd.nodes@.len(),
                    n == sd.nodes@[r as int].children@.len(),
                    si < sd.nodes@.len(),
                    get_array(*sd, si as int, "required"@) == Some(r as int),
                    j <= n,
                    forall|q: int| 0 <= q < j ==> !#[trigger] str_node_is(*sd, child(*sd, r as int, q), key@),
                decreases n - j,
            {
                let c = sd.nodes[r].children[j];
                assert(c == child(*sd, r as int, j as int));
                match &sd.nodes[c].kind {
                    JsonKind::Str(s) => {
                        if str_eq(s.as_str(), key) {
                            assert(str_node_is(*sd, child(*sd, r as int, j as int), key@));
                            return true;
                        }
                    },
                    _ => {},
                }
                j += 1;
            }
            false
        },
        None => false,
    }
}

fn drops_exec(vd: &JsonDoc, vi: usize, sd: &JsonDoc, si: usize, nd: &JsonDoc) -> (r: Vec<usize>)
    requires
        doc_wf(*vd),
        doc_wf(*sd),
        doc_wf(*nd),
        is_null_doc(*nd),
        vi < vd.nodes@.len(),
        si < sd.nodes@.len(),
    ensures
        ints(r@) == drops_spec(*vd, vi as int, *sd, si as int, *nd),
    decreases sd.nodes@.len() - si, 1int,
{
    let mut out: Vec<usize> = Vec::new();
    assert(ints(out@) =~= Seq::<int>::empty());
    match &vd.nodes[vi].kind {
        JsonKind::Array => {
            match get_exec(sd, si, "items") {
                Some(t) => {
                    let is_arr = matches!(sd.nodes[t].kind, JsonKind::Array);
                    let is_obj = matches!(sd.nodes[t].kind, JsonKind::Object);
                    if is_arr || is_obj {
                        let n = vd.nodes[vi].children.len();
                        let m = sd.nodes[t].children.len();
                        let mut j: usize = 0;
                        while j < n
                            invariant
                                doc_wf(*vd),
                                doc_wf(*sd),
                                doc_wf(*nd),
                                is_null_doc(*nd),
                                vi < vd.nodes@.len(),
                                si < sd.nodes@.len(),
                                t < sd.nodes@.len(),
                                is_arr == is_array(*sd, t as int),
                                is_obj == is_object(*sd, t as int),
                                is_arr || is_obj,
                                n == vd.nodes@[vi as int].children@.len(),
                                m == sd.nodes@[t as int].children@.len(),
                                j <= n,
                                is_arr ==> ints(out@) == tuple_drops(*vd, vi as int, *sd, si as int, t as int, *nd, j as int),
                                !is_arr ==> ints(out@) == item_drops(*vd, vi as int, *sd, si as int, t as int, *nd, j as int),
                            decreases n - j,
                        {
                            let v = vd.nodes[vi].children[j];
                            assert(v == child(*vd, vi as int, j as int));
                            if is_arr {
                                if j < m {
                                    let c = sd.nodes[t].children[j];
                                    assert(c == child(*sd, t as int, j as int));
                                    let e = sub_drops_exec(vd, v, sd, si, c, nd);
                                    append_ints(&mut out, &e);
                                } else {
                                    assert(ints(out@) =~= ints(out@) + Seq::<int>::empty());
                                }
                            } else {
                                let e = sub_drops_exec(vd, v, sd, si, t, nd);
                                append_ints(&mut out, &e);
                            }
                            j += 1;
                        }
                    }
                },
                None => {},
            }
        },
        JsonKind::Object => {
            match get_kind(sd, si, "properties", false) {
                Some(p) => {
                    let n = sd.nodes[p].children.len();
                    let mut j: usize = 0;
                    while j < n
                        invariant
                            doc_wf(*vd),
                            doc_wf(*sd),
                            doc_wf(*nd),
                            is_null_doc(*nd),
                            vi < vd.nodes@.len(),
                            si < sd.nodes@.len(),
                            p < sd.nodes@.len(),
                            si < p,
                            get_object(*sd, si as int, "properties"@) == Some(p as int),
                            sd.nodes@[p as int].kind is Object,
                            n == sd.nodes@[p as int].children@.len(),
                            j <= n,
                            ints(out@) == prop_drops(*vd, vi as int, *sd, si as int, p as int, *nd, j as int),
                        decreases n - j,
                    {
                        let c = sd.nodes[p].children[j];
                        assert(c == child(*sd, p as int, j as int));
                        let k = sd.nodes[p].keys[j].as_str();
                        match get_exec(vd, vi, k) {
                            Some(v) => {
                                proof {
                                    reveal_strlit("");
                                }
                                assert(si < c);
                                let is_null = matches!(vd.nodes[v].kind, JsonKind::Null);
                                let req = required_has_exec(sd, si, k);
                                let has_ref = get_exec(sd, c, "$ref").is_some();
                                let errs = validate_at(nd, 0, sd, c, "");
                                assert(str_pairs(errs@).len() == errs@.len());
                                let rejected = errs.len() > 0;
                                assert(""@ =~= Seq::<char>::empty());
                                assert(c < sd.nodes@.len());
                                assert(rejected == null_rejected(*nd, *sd, si as int, c as int));
                                let drop = is_null && !req && !has_ref && rejected;
                                assert(k@ == sd.nodes@[p as int].keys@[j as int]@);
                                if drop {
                                    let ghost before = ints(out@);
                                    out.push(v);
                                    assert(ints(out@) =~= before.push(v as int));
                                } else {
                                    let e = sub_drops_exec(vd, v, sd, si, c, nd);
                                    append_ints(&mut out, &e);
                                }
                            },
                            None => {},
                        }
                        j += 1;
                    }
                },
                None => {},
            }
        },
        _ => {},
    }
    out
}

fn sub_drops_exec(vd: &JsonDoc, v: usize, sd: &JsonDoc, si: usize, c: usize, nd: &JsonDoc) -> (r: Vec<usize>)
    requires
        doc_wf(*vd),
        doc_wf(*sd),
        doc_wf(*nd),
        is_null_doc(*nd),
        v < vd.nodes@.len(),
        si < sd.nodes@.len(),
    ensures
        ints(r@) == sub_drops(*vd, v as int, *sd, si as int, c as int, *nd),
    decreases sd.nodes@.len() - si, 0int,
{
    if si < c && c < sd.nodes.len() {
        drops_exec(vd, v, sd, c, nd)
    } else {
        let r: Vec<usize> = Vec::new();
        assert(ints(r@) =~= Seq::<int>::empty());
        r
    }
}

pub open spec fn ints(v: Seq<usize>) -> Seq<int> {
    v.map_values(|x: usize| x as int)
}

fn append_ints(out: &mut Vec<usize>, more: &Vec<usize>)
    ensures
        ints(final(out)@) == ints(old(out)@) + ints(more@),
{
    let ghost start = ints(out@);
    let mut i: usize = 0;
    while i < more.len()
        invariant
            i <= more@.len(),
            ints(out@) == start + ints(more@.take(i as int)),
        decreases more.len() - i,
    {
        let ghost before = out@;
        out.push(more[i]);
        assert(ints(out@) =~= ints(before).push(more@[i as int] as int));
        assert(ints(more@.take(i + 1)) =~= ints(more@.take(i as int)).push(more@[i as int] as int));
        i += 1;
    }
    assert(more@.take(more@.len() as int) =~= more@);
}

/// The nodes of `value` (object entries holding `null`) that dropping the
/// optional nulls for `schema` removes: see `drops_spec`.
pub fn optional_null_drops(value: &JsonDoc, schema: &JsonDoc) -> (r: Vec<usize>)
    requires
        doc_wf(*value),
        doc_wf(*schema),
        value.nodes@.len() > 0,
        schema.nodes@.len() > 0,
    ensures
        exists|nd: JsonDoc| is_null_doc(nd) && ints(r@) == #[trigger] drops_spec(*value, 0, *schema, 0, nd),
{
    let nd = JsonDoc {
        nodes: vec![
            JsonNode {
                kind: JsonKind::Null,
                children: Vec::new(),
                keys: Vec::new(),
                text: to_string("null"),
                eq_key: to_string("null"),
            },
        ],
    };
    assert(doc_wf(nd));
    drops_exec(value, 0, schema, 0, &nd)
}


/// The message of the `maxItems` check.
pub open spec fn max_items_msg(m: u64) -> Seq<char> {
    "Expected array length to be less or equal to "@ + decimal_spec(m as nat)
}

/// The message of the `minItems` check.
pub open spec fn min_items_msg(m: u64) -> Seq<char> {
    "Expected array length to be greater or equal to "@ + decimal_spec(m as nat)
}

proof fn lemma_items_msgs_differ(a: u64, b: u64)
    ensures
        max_items_msg(a) != min_items_msg(b),
{
    reveal_strlit("Expected array length to be less or equal to ");
    reveal_strlit("Expected array length to be greater or equal to ");
    assert(max_items_msg(a)[28] == 'l');
    assert(min_items_msg(b)[28] == 'g');
}

/// An array of `len` items is reported too long exactly when `len` is
/// greater than the schema's `maxItems`, and too short exactly when `len`
/// is less than its `minItems`.
pub proof fn lemma_array_length_errors(len: int, sd: JsonDoc, si: int, path: Seq<char>)
    ensures
        get_u64(sd, si, "maxItems"@) matches Some(m) ==> (length_errs(len, sd, si, path).contains(
            (display_path(path), max_items_msg(m)),
        ) <==> len > m),
        get_u64(sd, si, "minItems"@) matches Some(m) ==> (length_errs(len, sd, si, path).contains(
            (display_path(path), min_items_msg(m)),
        ) <==> len < m),
{
    let e = length_errs(len, sd, si, path);
    let dp = display_path(path);
    let lo = match get_u64(sd, si, "minItems"@) {
        Some(m) => bound_err(len < m, path, min_items_msg(m)),
        None => Seq::<(Seq<char>, Seq<char>)>::empty(),
    };
    let hi = match get_u64(sd, si, "maxItems"@) {
        Some(m) => bound_err(len > m, path, max_items_msg(m)),
        None => Seq::<(Seq<char>, Seq<char>)>::empty(),
    };
    assert(e == lo + hi);
    if let Some(m) = get_u64(sd, si, "maxItems"@) {
        if len > m {
            assert(e[lo.len() as int] == (dp, max_items_msg(m)));
        } else {
            if e.contains((dp, max_items_msg(m))) {
                let i = choose|i: int| 0 <= i < e.len() && e[i] == (dp, max_items_msg(m));
                if let Some(n) = get_u64(sd, si, "minItems"@) {
                    lemma_items_msgs_differ(m, n);
                }
                assert(false);
            }
        }
    }
    if let Some(m) = get_u64(sd, si, "minItems"@) {
        if len < m {
            assert(e[0] == (dp, min_items_msg(m)));
        } else {
            if e.contains((dp, min_items_msg(m))) {
                let i = choose|i: int| 0 <= i < e.len() && e[i] == (dp, min_items_msg(m));
                if let Some(n) = get_u64(sd, si, "maxItems"@) {
                    lemma_items_msgs_differ(n, m);
                }
                assert(false);
            }
        }
    }
}

/// An array checked against a schema that asks only for type `array` and
/// at most `m` items gets exactly the too-long error when it has more than
/// `m` items, and no error otherwise.
pub proof fn lemma_max_items_validate(vd: JsonDoc, vi: int, sd: JsonDoc, si: int, path: Seq<char>, m: u64)
    requires
        0 <= vi < nlen(vd),
        0 <= si < nlen(sd),
        vd.nodes@[vi].kind is Array,
        schema_types(sd, si) == seq!["array"@],
        get_u64(sd, si, "maxItems"@) == Some(m),
        get_u64(sd, si, "minItems"@) is None,
        get_array(sd, si, "allOf"@) is None,
        get_array(sd, si, "anyOf"@) is None,
        get_array(sd, si, "oneOf"@) is None,
        get_array(sd, si, "enum"@) is None,
        get(sd, si, "const"@) is None,
        get(sd, si, "items"@) is None,
    ensures
        validate_spec(vd, vi, sd, si, path) == (if nchildren(vd, vi) > m {
            seq![(display_path(path), max_items_msg(m))]
        } else {
            Seq::<(Seq<char>, Seq<char>)>::empty()
        }),
{
    reveal_strlit("array");
    reveal_strlit("number");
    reveal_strlit("integer");
    reveal_strlit("boolean");
    reveal_strlit("string");
    reveal_strlit("null");
    let types = schema_types(sd, si);
    assert(types[0] == "array"@);
    assert("array"@ != "number"@ && "array"@ != "integer"@ && "array"@ != "boolean"@);
    assert("array"@ != "string"@ && "array"@ != "null"@);
    assert(matches_type(vd, vi, types[0]));
    let pre = pre_errs(vd, vi, sd, si, path);
    assert(pre =~= Seq::<(Seq<char>, Seq<char>)>::empty());
    let k = kind_errs(vd, vi, sd, si, path);
    assert(k =~= length_errs(nchildren(vd, vi), sd, si, path));
    assert(validate_spec(vd, vi, sd, si, path) =~= pre + k);
    assert(length_errs(nchildren(vd, vi), sd, si, path) =~= (if nchildren(vd, vi) > m {
        seq![(display_path(path), max_items_msg(m))]
    } else {
        Seq::<(Seq<char>, Seq<char>)>::empty()
    }));
}

} // verus!
