//! The wall clock, random bytes and fresh ids.

use vstd::prelude::*;

verus! {

/// Milliseconds since the Unix epoch by the system clock, 0 when the clock
/// is before the epoch (`SystemTime::now`). Nothing is promised of the
/// value: it is whatever the clock reads.
#[verifier::external_body]
pub(crate) fn now_ms() -> (r: u64) {
    std::time::SystemTime::now().duration_since(std::time::UNIX_EPOCH).map(|d| d.as_millis() as u64).unwrap_or(0)
}

/// `getrandom::fill` on 16 bytes: the bytes the system's random source
/// gave, or `None` when it reported an error. Nothing is promised of the
/// bytes.
#[verifier::external_body]
fn random16() -> (r: Option<Vec<u8>>)
    ensures
        r matches Some(b) ==> b@.len() == 16,
{
    let mut bytes = [0u8; 16];
    match getrandom::fill(&mut bytes) {
        Ok(()) => Some(bytes.to_vec()),
        Err(_) => None,
    }
}

/// A lowercase hexadecimal digit.
pub open spec fn lower_hex(c: char) -> bool {
    ('0' <= c && c <= '9') || ('a' <= c && c <= 'f')
}

/// 32 lowercase hexadecimal digits.
pub open spec fn simple_uuid_shape(s: Seq<char>) -> bool {
    s.len() == 32 && forall|i: int| 0 <= i < 32 ==> lower_hex(#[trigger] s[i])
}

/// 36 characters: hyphens at 8, 13, 18 and 23, lowercase hexadecimal
/// digits elsewhere.
pub open spec fn hyphenated_uuid_shape(s: Seq<char>) -> bool {
    &&& s.len() == 36
    &&& s[8] == '-' && s[13] == '-' && s[18] == '-' && s[23] == '-'
    &&& forall|i: int| 0 <= i < 36 && i != 8 && i != 13 && i != 18 && i != 23 ==> lower_hex(#[trigger] s[i])
}

/// What `uuid` renders, in its simple form, for the version-4 UUID made of
/// 16 bytes.
pub uninterp spec fn uuid_v4_simple(bytes: Seq<u8>) -> Seq<char>;

/// What `uuid` renders (hyphenated, its `Display`) for the version-7 UUID
/// of a millisecond timestamp and 10 counter/random bytes.
pub uninterp spec fn uuid_v7_text(millis: u64, bytes: Seq<u8>) -> Seq<char>;

/// `Builder::from_random_bytes(bytes).into_uuid().simple().to_string()`:
/// the version-4 UUID of `bytes` as 32 lowercase hexadecimal digits
/// (uuid's `format_simple` with the lowercase table).
#[verifier::external_body]
fn v4_text(bytes: &Vec<u8>) -> (r: String)
    requires
        bytes@.len() == 16,
    ensures
        r@ == uuid_v4_simple(bytes@),
        simple_uuid_shape(r@),
{
    let mut a = [0u8; 16];
    a.copy_from_slice(bytes);
    uuid::Builder::from_random_bytes(a).into_uuid().simple().to_string()
}

/// `Builder::from_unix_timestamp_millis(millis, bytes).into_uuid().to_string()`:
/// the version-7 UUID, hyphenated in lowercase as uuid's `Display` writes it
/// (`format_hyphenated` with the lowercase table).
#[verifier::external_body]
fn v7_text(millis: u64, bytes: &Vec<u8>) -> (r: String)
    requires
        bytes@.len() == 10,
    ensures
        r@ == uuid_v7_text(millis, bytes@),
        hyphenated_uuid_shape(r@),
{
    let mut a = [0u8; 10];
    a.copy_from_slice(bytes);
    uuid::Builder::from_unix_timestamp_millis(millis, &a).into_uuid().to_string()
}

/// `n` bytes: the system's random bytes, or, when the random source fails,
/// the clock reading in big-endian order padded with zeros.
fn entropy(n: usize) -> (r: Vec<u8>)
    requires
        n <= 16,
    ensures
        r@.len() == n,
{
    let source = match random16() {
        Some(b) => b,
        None => {
            let t = now_ms();
            let mut b: Vec<u8> = Vec::new();
            let mut k: usize = 0;
            while k < 16
                invariant
                    k <= 16,
                    b@.len() == k,
                decreases 16 - k,
            {
                if k < 8 {
                    let shift = (56 - 8 * k) as u64;
                    b.push(((t >> shift) & 0xff) as u8);
                } else {
                    b.push(0);
                }
                k += 1;
            }
            b
        },
    };
    let mut out: Vec<u8> = Vec::new();
    let mut i: usize = 0;
    while i < n
        invariant
            i <= n,
            n <= 16,
            source@.len() == 16,
            out@.len() == i,
        decreases n - i,
    {
        out.push(source[i]);
        i += 1;
    }
    out
}

/// A fresh version-4 UUID in its simple form: 32 lowercase hexadecimal
/// digits, made of system random bytes.
pub(crate) fn uid() -> (r: String)
    ensures
        simple_uuid_shape(r@),
        exists|b: Seq<u8>| b.len() == 16 && r@ == uuid_v4_simple(b),
{
    let b = entropy(16);
    v4_text(&b)
}

/// A fresh version-7 UUID: the clock's milliseconds and random bytes,
/// hyphenated in lowercase.
pub fn uuid_v7_now() -> (r: String)
    ensures
        hyphenated_uuid_shape(r@),
        exists|ms: u64, b: Seq<u8>| b.len() == 10 && r@ == uuid_v7_text(ms, b),
{
    let ms = now_ms();
    let b = entropy(10);
    v7_text(ms, &b)
}

} // verus!
