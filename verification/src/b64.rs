//! Standard base64 (RFC 4648 alphabet, `=` padding), written out by hand.
//!
//! Encoding turns each 3-byte group into 4 symbols, padding a short final
//! group with `=`. Decoding ignores `=`, newlines and spaces, refuses any
//! other byte outside the alphabet, and turns each 4-symbol group back into
//! bytes (a short final group yields the whole bytes it carries).

use vstd::prelude::*;
use crate::text::{push_char, trim_str, trim_spec};

verus! {

/// The symbol for the 6-bit value `i`, as an ASCII code.
pub open spec fn symbol(i: int) -> u8 {
    if i < 26 {
        (65 + i) as u8
    } else if i < 52 {
        (97 + i - 26) as u8
    } else if i < 62 {
        (48 + i - 52) as u8
    } else if i == 62 {
        43u8
    } else {
        47u8
    }
}

/// The 6-bit value of an alphabet byte, or -1.
pub open spec fn sextet(b: u8) -> int {
    if 65 <= b <= 90 {
        b - 65
    } else if 97 <= b <= 122 {
        b - 97 + 26
    } else if 48 <= b <= 57 {
        b - 48 + 52
    } else if b == 43 {
        62
    } else if b == 47 {
        63
    } else {
        -1
    }
}

/// The four symbols of one group of 1 to 3 bytes.
pub open spec fn encode_group(g: Seq<u8>) -> Seq<u8> {
    let b0 = g[0] as int;
    let b1 = if g.len() > 1 { g[1] as int } else { 0 };
    let b2 = if g.len() > 2 { g[2] as int } else { 0 };
    let t = b0 * 65536 + b1 * 256 + b2;
    seq![
        symbol(t / 262144 % 64),
        symbol(t / 4096 % 64),
        if g.len() > 1 { symbol(t / 64 % 64) } else { 61u8 },
        if g.len() > 2 { symbol(t % 64) } else { 61u8 },
    ]
}

/// The base64 text of `b`, as ASCII codes.
#[verifier::opaque]
pub open spec fn encode_spec(b: Seq<u8>) -> Seq<u8>
    decreases b.len(),
{
    if b.len() == 0 {
        Seq::empty()
    } else if b.len() <= 3 {
        encode_group(b)
    } else {
        encode_group(b.take(3)) + encode_spec(b.skip(3))
    }
}

pub open spec fn ignored(b: u8) -> bool {
    b == 61 || b == 10 || b == 13 || b == 32
}

/// `s` without padding, newlines and spaces.
pub open spec fn strip_ignored(s: Seq<u8>) -> Seq<u8>
    decreases s.len(),
{
    if s.len() == 0 {
        s
    } else if ignored(s.last()) {
        strip_ignored(s.drop_last())
    } else {
        strip_ignored(s.drop_last()).push(s.last())
    }
}

/// The bytes carried by one group of 1 to 4 symbols.
pub open spec fn decode_group(g: Seq<u8>) -> Seq<u8> {
    let v0 = sextet(g[0]);
    if g.len() == 1 {
        Seq::empty()
    } else if g.len() == 2 {
        let acc = v0 * 64 + sextet(g[1]);
        seq![(acc / 16 % 256) as u8]
    } else if g.len() == 3 {
        let acc = v0 * 4096 + sextet(g[1]) * 64 + sextet(g[2]);
        seq![(acc / 1024 % 256) as u8, (acc / 4 % 256) as u8]
    } else {
        let acc = v0 * 262144 + sextet(g[1]) * 4096 + sextet(g[2]) * 64 + sextet(g[3]);
        seq![(acc / 65536 % 256) as u8, (acc / 256 % 256) as u8, (acc % 256) as u8]
    }
}

#[verifier::opaque]
pub open spec fn decode_groups(s: Seq<u8>) -> Seq<u8>
    decreases s.len(),
{
    if s.len() == 0 {
        Seq::empty()
    } else if s.len() <= 4 {
        decode_group(s)
    } else {
        decode_group(s.take(4)) + decode_groups(s.skip(4))
    }
}

/// The decoded bytes of `input`, or `None` when a byte outside the
/// alphabet (other than padding, newlines and spaces) occurs.
pub open spec fn decode_spec(input: Seq<u8>) -> Option<Seq<u8>> {
    let s = strip_ignored(input);
    if exists|i: int| 0 <= i < s.len() && sextet(#[trigger] s[i]) < 0 {
        None
    } else {
        Some(decode_groups(s))
    }
}

fn symbol_exec(i: u32) -> (r: u8)
    requires
        i < 64,
    ensures
        r == symbol(i as int),
{
    if i < 26 {
        (65 + i) as u8
    } else if i < 52 {
        (97 + i - 26) as u8
    } else if i < 62 {
        (48 + i - 52) as u8
    } else if i == 62 {
        43
    } else {
        47
    }
}

fn sextet_exec(b: u8) -> (r: i32)
    ensures
        r == sextet(b),
{
    if 65 <= b && b <= 90 {
        (b - 65) as i32
    } else if 97 <= b && b <= 122 {
        (b - 97 + 26) as i32
    } else if 48 <= b && b <= 57 {
        (b - 48 + 52) as i32
    } else if b == 43 {
        62
    } else if b == 47 {
        63
    } else {
        -1
    }
}

proof fn lemma_encode_split(b: Seq<u8>, i: int)
    requires
        0 <= i,
        i % 3 == 0,
        i < b.len(),
    ensures
        encode_spec(b.skip(i)) == (if b.len() - i <= 3 {
            encode_group(b.skip(i))
        } else {
            encode_group(b.skip(i).take(3)) + encode_spec(b.skip(i + 3))
        }),
{
    reveal(encode_spec);
    if b.len() - i > 3 {
        assert(b.skip(i).skip(3) =~= b.skip(i + 3));
    }
}

fn encode_group_exec(input: &[u8], i: usize, len: usize) -> (r: (u8, u8, u8, u8))
    requires
        1 <= len <= 3,
        i + len <= input@.len(),
    ensures
        seq![r.0, r.1, r.2, r.3] == encode_group(input@.subrange(i as int, i + len)),
{
    let ghost g = input@.subrange(i as int, i + len);
    let b0 = input[i] as u32;
    let b1 = if len > 1 {
        input[i + 1] as u32
    } else {
        0
    };
    let b2 = if len > 2 {
        input[i + 2] as u32
    } else {
        0
    };
    assert(b0 == g[0]);
    assert(len > 1 ==> b1 == g[1]);
    assert(len > 2 ==> b2 == g[2]);
    let t = b0 * 65536 + b1 * 256 + b2;
    let c0 = symbol_exec(t / 262144 % 64);
    let c1 = symbol_exec(t / 4096 % 64);
    let c2 = if len > 1 {
        symbol_exec(t / 64 % 64)
    } else {
        61
    };
    let c3 = if len > 2 {
        symbol_exec(t % 64)
    } else {
        61
    };
    (c0, c1, c2, c3)
}

pub open spec fn as_chars(b: Seq<u8>) -> Seq<char> {
    b.map_values(|c: u8| c as char)
}

proof fn lemma_encode_step(input: Seq<u8>, i: int, len: int, before: Seq<char>, after: Seq<char>)
    requires
        0 <= i,
        i % 3 == 0,
        i < input.len(),
        len == (if input.len() - i >= 3 { 3 } else { input.len() - i }),
        after == before + as_chars(encode_group(input.subrange(i, i + len))),
        before + as_chars(encode_spec(input.skip(i))) == as_chars(encode_spec(input)),
    ensures
        after + as_chars(encode_spec(input.skip(i + len))) == as_chars(encode_spec(input)),
{
    reveal(encode_spec);
    lemma_encode_split(input, i);
    let g = input.subrange(i, i + len);
    if input.len() - i > 3 {
        assert(g =~= input.skip(i).take(3));
        assert(as_chars(encode_group(g) + encode_spec(input.skip(i + 3))) =~= as_chars(encode_group(g))
            + as_chars(encode_spec(input.skip(i + 3))));
        assert(after + as_chars(encode_spec(input.skip(i + len))) =~= before + as_chars(encode_spec(input.skip(i))));
    } else {
        assert(g =~= input.skip(i));
        assert(input.skip(i + len) =~= Seq::<u8>::empty());
        assert(as_chars(encode_spec(input.skip(i + len))) =~= Seq::<char>::empty());
        assert(after + as_chars(encode_spec(input.skip(i + len))) =~= before + as_chars(encode_spec(input.skip(i))));
    }
}

/// The base64 text of `input`.
pub fn standard_b64_encode(input: &[u8]) -> (r: String)
    ensures
        r@ == as_chars(encode_spec(input@)),
{
    let mut out = String::new();
    let mut i: usize = 0;
    let n = input.len();
    assert(input@.skip(0) == input@);
    while i < n
        invariant
            n == input@.len(),
            i <= n,
            i % 3 == 0 || i == n,
            out@ + as_chars(encode_spec(input@.skip(i as int))) == as_chars(encode_spec(input@)),
        decreases n - i,
    {
        let len = if n - i >= 3 {
            3
        } else {
            n - i
        };
        let (c0, c1, c2, c3) = encode_group_exec(input, i, len);
        let ghost before = out@;
        push_char(&mut out, c0 as char);
        push_char(&mut out, c1 as char);
        push_char(&mut out, c2 as char);
        push_char(&mut out, c3 as char);
        proof {
            assert(out@ =~= before + as_chars(seq![c0, c1, c2, c3]));
            lemma_encode_step(input@, i as int, len as int, before, out@);
        }
        i = i + len;
    }
    assert(input@.skip(n as int) =~= Seq::<u8>::empty());
    assert(encode_spec(input@.skip(n as int)) == Seq::<u8>::empty()) by {
        reveal(encode_spec);
    }
    assert(as_chars(encode_spec(input@.skip(n as int))) =~= Seq::<char>::empty());
    assert(out@ =~= as_chars(encode_spec(input@)));
    out
}

proof fn lemma_strip_push(s: Seq<u8>, b: u8)
    ensures
        strip_ignored(s.push(b)) == if ignored(b) {
            strip_ignored(s)
        } else {
            strip_ignored(s).push(b)
        },
{
    assert(s.push(b).drop_last() =~= s);
}

proof fn lemma_decode_step(s: Seq<u8>, p: int, len: int, before: Seq<u8>, after: Seq<u8>)
    requires
        0 <= p,
        p % 4 == 0,
        p < s.len(),
        len == (if s.len() - p >= 4 { 4 } else { s.len() - p }),
        after == before + decode_group(s.subrange(p, p + len)),
        before + decode_groups(s.skip(p)) == decode_groups(s),
    ensures
        after + decode_groups(s.skip(p + len)) == decode_groups(s),
{
    reveal(decode_groups);
    lemma_decode_groups_split(s, p);
    let g = s.subrange(p, p + len);
    if s.len() - p > 4 {
        assert(g =~= s.skip(p).take(4));
        assert(after + decode_groups(s.skip(p + len)) =~= before + decode_groups(s.skip(p)));
    } else {
        assert(g =~= s.skip(p));
        assert(s.skip(p + len) =~= Seq::<u8>::empty());
        assert(after + decode_groups(s.skip(p + len)) =~= before + decode_groups(s.skip(p)));
    }
}

fn decode_group_exec(s: &Vec<u8>, p: usize, len: usize) -> (r: Vec<u8>)
    requires
        1 <= len <= 4,
        p + len <= s@.len(),
        forall|k: int| 0 <= k < s@.len() ==> sextet(#[trigger] s@[k]) >= 0,
    ensures
        r@ == decode_group(s@.subrange(p as int, p + len)),
{
    let n = s.len();
    let ghost g = s@.subrange(p as int, p + len);
    assert(g[0] == s@[p as int]);
    assert(sextet(s@[p as int]) >= 0);
    let v0 = sextet_exec(s[p]) as u32;
    let mut out: Vec<u8> = Vec::new();
    if len == 2 {
        assert(g[1] == s@[p + 1]);
        assert(sextet(s@[p + 1]) >= 0);
        let v1 = sextet_exec(s[p + 1]) as u32;
        let acc = v0 * 64 + v1;
        out.push((acc / 16 % 256) as u8);
    } else if len == 3 {
        assert(g[1] == s@[p + 1]);
        assert(g[2] == s@[p + 2]);
        assert(sextet(s@[p + 1]) >= 0);
        assert(sextet(s@[p + 2]) >= 0);
        let v1 = sextet_exec(s[p + 1]) as u32;
        let v2 = sextet_exec(s[p + 2]) as u32;
        let acc = v0 * 4096 + v1 * 64 + v2;
        out.push((acc / 1024 % 256) as u8);
        out.push((acc / 4 % 256) as u8);
    } else if len == 4 {
        assert(g[1] == s@[p + 1]);
        assert(g[2] == s@[p + 2]);
        assert(g[3] == s@[p + 3]);
        assert(sextet(s@[p + 1]) >= 0);
        assert(sextet(s@[p + 2]) >= 0);
        assert(sextet(s@[p + 3]) >= 0);
        let v1 = sextet_exec(s[p + 1]) as u32;
        let v2 = sextet_exec(s[p + 2]) as u32;
        let v3 = sextet_exec(s[p + 3]) as u32;
        let acc = v0 * 262144 + v1 * 4096 + v2 * 64 + v3;
        out.push((acc / 65536 % 256) as u8);
        out.push((acc / 256 % 256) as u8);
        out.push((acc % 256) as u8);
    }
    assert(out@ =~= decode_group(g));
    out
}

proof fn lemma_decode_groups_split(s: Seq<u8>, i: int)
    requires
        0 <= i,
        i % 4 == 0,
        i < s.len(),
    ensures
        decode_groups(s.skip(i)) == (if s.len() - i <= 4 {
            decode_group(s.skip(i))
        } else {
            decode_group(s.skip(i).take(4)) + decode_groups(s.skip(i + 4))
        }),
{
    reveal(decode_groups);
    if s.len() - i > 4 {
        assert(s.skip(i).skip(4) =~= s.skip(i + 4));
    }
}

/// The bytes that `input` encodes, or `None` if it holds a byte outside
/// the alphabet (padding, newlines and spaces are skipped).
#[verifier::spinoff_prover]
#[verifier::rlimit(40)]
pub fn base64_decode_bytes(input: &[u8]) -> (r: Option<Vec<u8>>)
    ensures
        match r {
            Some(v) => decode_spec(input@) == Some(v@),
            None => decode_spec(input@) is None,
        },
{
    let mut kept: Vec<u8> = Vec::new();
    let mut i: usize = 0;
    assert(input@.take(0) =~= Seq::<u8>::empty());
    while i < input.len()
        invariant
            i <= input@.len(),
            kept@ == strip_ignored(input@.take(i as int)),
        decreases input.len() - i,
    {
        let b = input[i];
        proof {
            assert(input@.take(i + 1) =~= input@.take(i as int).push(b));
            lemma_strip_push(input@.take(i as int), b);
        }
        if !(b == 61 || b == 10 || b == 13 || b == 32) {
            kept.push(b);
        }
        i += 1;
    }
    assert(input@.take(input@.len() as int) =~= input@);
    let ghost s = kept@;
    let mut j: usize = 0;
    while j < kept.len()
        invariant
            s == kept@,
            s == strip_ignored(input@),
            j <= kept@.len(),
            forall|k: int| 0 <= k < j ==> sextet(#[trigger] s[k]) >= 0,
        decreases kept.len() - j,
    {
        if sextet_exec(kept[j]) < 0 {
            assert(sextet(s[j as int]) < 0);
            return None;
        }
        j += 1;
    }
    let mut out: Vec<u8> = Vec::new();
    let n = kept.len();
    let mut p: usize = 0;
    assert(s.skip(0) == s);
    while p < n
        invariant
            s == kept@,
            n == s.len(),
            p <= n,
            p % 4 == 0 || p == n,
            forall|k: int| 0 <= k < n ==> sextet(#[trigger] s[k]) >= 0,
            out@ + decode_groups(s.skip(p as int)) == decode_groups(s),
        decreases n - p,
    {
        let len = if n - p >= 4 {
            4
        } else {
            n - p
        };
        let d = decode_group_exec(&kept, p, len);
        let ghost before = out@;
        let mut q: usize = 0;
        while q < d.len()
            invariant
                q <= d@.len(),
                out@ == before + d@.take(q as int),
            decreases d.len() - q,
        {
            out.push(d[q]);
            assert(d@.take(q + 1) =~= d@.take(q as int).push(d@[q as int]));
            q += 1;
        }
        proof {
            assert(d@.take(d@.len() as int) =~= d@);
            lemma_decode_step(s, p as int, len as int, before, out@);
        }
        p = p + len;
    }
    assert(s.skip(n as int) =~= Seq::<u8>::empty());
    assert(decode_groups(s.skip(n as int)) == Seq::<u8>::empty()) by {
        reveal(decode_groups);
    }
    assert(out@ =~= decode_groups(s));
    Some(out)
}

/// Decodes base64 text, ignoring surrounding whitespace, newlines and
/// spaces.
pub fn standard_b64_decode(input: &str) -> (r: Result<Vec<u8>, String>)
    ensures
        match r {
            Ok(v) => decode_spec(vstd::utf8::encode_utf8(trim_spec(input@))) == Some(v@),
            Err(e) => decode_spec(vstd::utf8::encode_utf8(trim_spec(input@))) is None && e@ == "Invalid base64"@,
        },
{
    let t = crate::text::string_of(&trim_str(input));
    let bytes = t.as_str().as_bytes();
    match base64_decode_bytes(bytes) {
        Some(v) => Ok(v),
        None => Err(crate::text::to_string("Invalid base64")),
    }
}


// ---------------------------------------------------------------------------
// Decoding undoes encoding
// ---------------------------------------------------------------------------

proof fn lemma_symbol(x: int)
    requires
        0 <= x < 64,
    ensures
        sextet(symbol(x)) == x,
        !ignored(symbol(x)),
{
}

proof fn lemma_strip_concat(a: Seq<u8>, c: Seq<u8>)
    ensures
        strip_ignored(a + c) == strip_ignored(a) + strip_ignored(c),
    decreases c.len(),
{
    if c.len() == 0 {
        assert(a + c =~= a);
        assert(strip_ignored(c) =~= Seq::<u8>::empty());
    } else {
        lemma_strip_concat(a, c.drop_last());
        assert((a + c).drop_last() =~= a + c.drop_last());
        assert((a + c).last() == c.last());
        if !ignored(c.last()) {
            assert(strip_ignored(a) + strip_ignored(c.drop_last()).push(c.last()) =~= (strip_ignored(a)
                + strip_ignored(c.drop_last())).push(c.last()));
        }
    }
}

proof fn lemma_strip_no_ignored(s: Seq<u8>)
    requires
        forall|i: int| 0 <= i < s.len() ==> !ignored(#[trigger] s[i]),
    ensures
        strip_ignored(s) == s,
    decreases s.len(),
{
    if s.len() > 0 {
        lemma_strip_no_ignored(s.drop_last());
        assert(s.drop_last().push(s.last()) =~= s);
    }
}

/// One group: its symbols, stripped of padding, are valid and decode to
/// the group.
proof fn lemma_group_roundtrip(g: Seq<u8>)
    requires
        1 <= g.len() <= 3,
    ensures
        strip_ignored(encode_group(g)).len() == g.len() + 1,
        forall|i: int| 0 <= i < strip_ignored(encode_group(g)).len() ==> sextet(
            #[trigger] strip_ignored(encode_group(g))[i],
        ) >= 0,
        decode_group(strip_ignored(encode_group(g))) == g,
{
    let b0 = g[0] as int;
    let b1 = if g.len() > 1 { g[1] as int } else { 0 };
    let b2 = if g.len() > 2 { g[2] as int } else { 0 };
    let t = b0 * 65536 + b1 * 256 + b2;
    let x0 = t / 262144 % 64;
    let x1 = t / 4096 % 64;
    let x2 = t / 64 % 64;
    let x3 = t % 64;
    lemma_symbol(x0);
    lemma_symbol(x1);
    lemma_symbol(x2);
    lemma_symbol(x3);
    let e = encode_group(g);
    let sym0 = symbol(x0);
    let sym1 = symbol(x1);
    let sym2 = symbol(x2);
    let sym3 = symbol(x3);
    if g.len() == 1 {
        let k = seq![sym0, sym1];
        assert(e =~= k + seq![61u8, 61u8]);
        lemma_strip_concat(k, seq![61u8, 61u8]);
        lemma_strip_no_ignored(k);
        assert(strip_ignored(seq![61u8, 61u8]) =~= Seq::<u8>::empty()) by {
            assert(seq![61u8, 61u8].drop_last() =~= seq![61u8]);
            assert(seq![61u8].drop_last() =~= Seq::<u8>::empty());
            assert(strip_ignored(Seq::<u8>::empty()) =~= Seq::<u8>::empty());
            assert(strip_ignored(seq![61u8]) =~= Seq::<u8>::empty());
        }
        assert(strip_ignored(e) =~= k);
        assert(x0 * 64 + x1 == 16 * b0) by (nonlinear_arith)
            requires
                0 <= b0 < 256,
                t == b0 * 65536,
                x0 == t / 262144 % 64,
                x1 == t / 4096 % 64,
        ;
        assert(decode_group(k) =~= g);
    } else if g.len() == 2 {
        let k = seq![sym0, sym1, sym2];
        assert(e =~= k + seq![61u8]);
        lemma_strip_concat(k, seq![61u8]);
        lemma_strip_no_ignored(k);
        assert(strip_ignored(seq![61u8]) =~= Seq::<u8>::empty()) by {
            assert(seq![61u8].drop_last() =~= Seq::<u8>::empty());
            assert(strip_ignored(Seq::<u8>::empty()) =~= Seq::<u8>::empty());
        }
        assert(strip_ignored(e) =~= k);
        assert(x0 * 4096 + x1 * 64 + x2 == t / 64) by (nonlinear_arith)
            requires
                0 <= t < 16777216,
                x0 == t / 262144 % 64,
                x1 == t / 4096 % 64,
                x2 == t / 64 % 64,
        ;
        assert((t / 64) / 1024 % 256 == b0 && (t / 64) / 4 % 256 == b1) by (nonlinear_arith)
            requires
                0 <= b0 < 256,
                0 <= b1 < 256,
                t == b0 * 65536 + b1 * 256,
        ;
        assert(decode_group(k) =~= g);
    } else {
        let k = seq![sym0, sym1, sym2, sym3];
        assert(e =~= k);
        lemma_strip_no_ignored(k);
        assert(x0 * 262144 + x1 * 4096 + x2 * 64 + x3 == t) by (nonlinear_arith)
            requires
                0 <= t < 16777216,
                x0 == t / 262144 % 64,
                x1 == t / 4096 % 64,
                x2 == t / 64 % 64,
                x3 == t % 64,
        ;
        assert(t / 65536 % 256 == b0 && t / 256 % 256 == b1 && t % 256 == b2) by (nonlinear_arith)
            requires
                0 <= b0 < 256,
                0 <= b1 < 256,
                0 <= b2 < 256,
                t == b0 * 65536 + b1 * 256 + b2,
        ;
        assert(decode_group(k) =~= g);
    }
}

proof fn lemma_encode_roundtrip(b: Seq<u8>)
    ensures
        forall|i: int| 0 <= i < strip_ignored(encode_spec(b)).len() ==> sextet(
            #[trigger] strip_ignored(encode_spec(b))[i],
        ) >= 0,
        decode_groups(strip_ignored(encode_spec(b))) == b,
    decreases b.len(),
{
    reveal(encode_spec);
    reveal(decode_groups);
    if b.len() == 0 {
        assert(strip_ignored(encode_spec(b)) =~= Seq::<u8>::empty());
    } else if b.len() <= 3 {
        lemma_group_roundtrip(b);
        let k = strip_ignored(encode_group(b));
        assert(decode_groups(k) == decode_group(k));
    } else {
        let g = b.take(3);
        let rest = b.skip(3);
        lemma_group_roundtrip(g);
        lemma_encode_roundtrip(rest);
        lemma_strip_concat(encode_group(g), encode_spec(rest));
        let k = strip_ignored(encode_group(g));
        let r = strip_ignored(encode_spec(rest));
        assert(strip_ignored(encode_spec(b)) == k + r);
        assert forall|i: int| 0 <= i < (k + r).len() implies sextet(#[trigger] (k + r)[i]) >= 0 by {
            if i < k.len() {
                assert((k + r)[i] == k[i]);
            } else {
                assert((k + r)[i] == r[i - k.len()]);
            }
        }
        assert(rest.len() > 0);
        assert(encode_spec(rest).len() > 0) by {
            reveal(encode_spec);
        }
        assert(r.len() > 0) by {
            lemma_encoded_nonempty(rest);
        }
        assert((k + r).take(4) =~= k);
        assert((k + r).skip(4) =~= r);
        assert(decode_groups(k + r) == decode_group(k) + decode_groups(r));
        assert(g + rest =~= b);
    }
}

proof fn lemma_encoded_nonempty(b: Seq<u8>)
    requires
        b.len() > 0,
    ensures
        strip_ignored(encode_spec(b)).len() > 0,
{
    reveal(encode_spec);
    if b.len() <= 3 {
        lemma_group_roundtrip(b);
    } else {
        lemma_group_roundtrip(b.take(3));
        lemma_strip_concat(encode_group(b.take(3)), encode_spec(b.skip(3)));
    }
}

/// Decoding the encoding of any bytes gives the bytes back.
pub proof fn lemma_decode_encode(b: Seq<u8>)
    ensures
        decode_spec(encode_spec(b)) == Some(b),
{
    lemma_encode_roundtrip(b);
}

} // verus!
