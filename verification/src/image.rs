//! Magic-byte image detection.
//!
//! Sniffs the image formats that model APIs accept. Besides the well-known
//! signatures it rejects files that would be refused downstream: JPEG-XR
//! (shares the JPEG start-of-image marker), animated PNG (an `acTL` chunk
//! before the first `IDAT`) and structurally invalid BMP headers. A wrong
//! `image/*` type is worse than none, so detection errs toward `None`.

use vstd::prelude::*;

verus! {

pub open spec fn png_signature() -> Seq<u8> {
    seq![0x89u8, 0x50u8, 0x4Eu8, 0x47u8, 0x0Du8, 0x0Au8, 0x1Au8, 0x0Au8]
}

pub open spec fn jpeg_soi() -> Seq<u8> {
    seq![0xFFu8, 0xD8u8, 0xFFu8]
}

/// `GIF87a` / `GIF89a`.
pub open spec fn gif_magic(v: u8) -> Seq<u8> {
    seq![0x47u8, 0x49u8, 0x46u8, 0x38u8, v, 0x61u8]
}

pub open spec fn ascii_riff() -> Seq<u8> {
    seq![0x52u8, 0x49u8, 0x46u8, 0x46u8]
}

pub open spec fn ascii_webp() -> Seq<u8> {
    seq![0x57u8, 0x45u8, 0x42u8, 0x50u8]
}

pub open spec fn ascii_bm() -> Seq<u8> {
    seq![0x42u8, 0x4Du8]
}

pub open spec fn ascii_ihdr() -> Seq<u8> {
    seq![0x49u8, 0x48u8, 0x44u8, 0x52u8]
}

pub open spec fn ascii_actl() -> Seq<u8> {
    seq![0x61u8, 0x63u8, 0x54u8, 0x4Cu8]
}

pub open spec fn ascii_idat() -> Seq<u8> {
    seq![0x49u8, 0x44u8, 0x41u8, 0x54u8]
}

/// `t` occurs in `b` at `off`.
pub open spec fn at(b: Seq<u8>, off: int, t: Seq<u8>) -> bool {
    0 <= off && off + t.len() <= b.len() && b.subrange(off, off + t.len()) == t
}

pub open spec fn u32_be(b: Seq<u8>, off: int) -> int {
    b[off] * 0x1000000 + b[off + 1] * 0x10000 + b[off + 2] * 0x100 + b[off + 3]
}

pub open spec fn u32_le(b: Seq<u8>, off: int) -> int {
    b[off] + b[off + 1] * 0x100 + b[off + 2] * 0x10000 + b[off + 3] * 0x1000000
}

pub open spec fn u16_le(b: Seq<u8>, off: int) -> int {
    b[off] + b[off + 1] * 0x100
}

/// The first chunk after the signature is `IHDR` with length 13.
pub open spec fn png_ok(b: Seq<u8>) -> bool {
    b.len() >= 16 && u32_be(b, 8) == 13 && at(b, 12, ascii_ihdr())
}

/// Walking the chunks from `off`: an `acTL` chunk comes before any `IDAT`.
pub open spec fn apng_from(b: Seq<u8>, off: int) -> bool
    decreases b.len() - off,
{
    if off < 0 || off + 8 > b.len() {
        false
    } else if at(b, off + 4, ascii_actl()) {
        true
    } else if at(b, off + 4, ascii_idat()) {
        false
    } else {
        let next = off + 8 + u32_be(b, off) + 4;
        if next > b.len() {
            false
        } else {
            apng_from(b, next)
        }
    }
}

pub open spec fn bmp_ok(b: Seq<u8>) -> bool {
    let size = u32_le(b, 2);
    let pixels = u32_le(b, 10);
    let dib = u32_le(b, 14);
    &&& b.len() >= 26
    &&& !(size != 0 && size < 26)
    &&& pixels >= 14 + dib
    &&& !(size != 0 && pixels >= size)
    &&& (dib == 12 || (40 <= dib <= 124 && b.len() >= 30))
    &&& {
        let (planes_at, bpp_at) = if dib == 12 {
            (22int, 24int)
        } else {
            (26int, 28int)
        };
        let bpp = u16_le(b, bpp_at);
        u16_le(b, planes_at) == 1 && (bpp == 1 || bpp == 4 || bpp == 8 || bpp == 16 || bpp == 24 || bpp
            == 32)
    }
}

/// The image type of `b`, if it is one the model APIs accept.
pub open spec fn mime_spec(b: Seq<u8>) -> Option<Seq<char>> {
    if at(b, 0, jpeg_soi()) {
        if b.len() > 3 && b[3] == 0xF7 {
            None
        } else {
            Some("image/jpeg"@)
        }
    } else if at(b, 0, png_signature()) {
        if png_ok(b) && !apng_from(b, 8) {
            Some("image/png"@)
        } else {
            None
        }
    } else if at(b, 0, gif_magic(0x37)) || at(b, 0, gif_magic(0x39)) {
        Some("image/gif"@)
    } else if at(b, 0, ascii_riff()) && b.len() >= 12 && at(b, 8, ascii_webp()) {
        Some("image/webp"@)
    } else if at(b, 0, ascii_bm()) && bmp_ok(b) {
        Some("image/bmp"@)
    } else {
        None
    }
}

/// `text` occurs in `bytes` at `offset`.
fn starts_with_ascii_at(bytes: &[u8], offset: usize, text: &[u8]) -> (r: bool)
    ensures
        r == at(bytes@, offset as int, text@),
{
    if offset > bytes.len() || text.len() > bytes.len() - offset {
        return false;
    }
    let n = bytes.len();
    let mut i: usize = 0;
    while i < text.len()
        invariant
            n == bytes@.len(),
            offset + text@.len() <= bytes@.len(),
            i <= text@.len(),
            forall|j: int| 0 <= j < i ==> bytes@[offset + j] == text@[j],
        decreases text.len() - i,
    {
        if bytes[offset + i] != text[i] {
            assert(bytes@.subrange(offset as int, offset + text@.len())[i as int] != text@[i as int]);
            return false;
        }
        i += 1;
    }
    assert(bytes@.subrange(offset as int, offset + text@.len()) =~= text@);
    true
}

fn read_u32_be(bytes: &[u8], offset: usize) -> (r: Option<u32>)
    ensures
        match r {
            Some(v) => offset + 4 <= bytes@.len() && v == u32_be(bytes@, offset as int),
            None => offset + 4 > bytes@.len(),
        },
{
    if offset > bytes.len() || bytes.len() - offset < 4 {
        return None;
    }
    let b0 = bytes[offset] as u32;
    let b1 = bytes[offset + 1] as u32;
    let b2 = bytes[offset + 2] as u32;
    let b3 = bytes[offset + 3] as u32;
    assert(b0 * 0x1000000 + b1 * 0x10000 + b2 * 0x100 + b3 <= 0xFFFF_FFFF) by (nonlinear_arith)
        requires
            b0 <= 255,
            b1 <= 255,
            b2 <= 255,
            b3 <= 255,
    ;
    Some(b0 * 0x1000000 + b1 * 0x10000 + b2 * 0x100 + b3)
}

fn read_u32_le(bytes: &[u8], offset: usize) -> (r: Option<u32>)
    ensures
        match r {
            Some(v) => offset + 4 <= bytes@.len() && v == u32_le(bytes@, offset as int),
            None => offset + 4 > bytes@.len(),
        },
{
    if offset > bytes.len() || bytes.len() - offset < 4 {
        return None;
    }
    let b0 = bytes[offset] as u32;
    let b1 = bytes[offset + 1] as u32;
    let b2 = bytes[offset + 2] as u32;
    let b3 = bytes[offset + 3] as u32;
    assert(b0 + b1 * 0x100 + b2 * 0x10000 + b3 * 0x1000000 <= 0xFFFF_FFFF) by (nonlinear_arith)
        requires
            b0 <= 255,
            b1 <= 255,
            b2 <= 255,
            b3 <= 255,
    ;
    Some(b0 + b1 * 0x100 + b2 * 0x10000 + b3 * 0x1000000)
}

fn read_u16_le(bytes: &[u8], offset: usize) -> (r: Option<u16>)
    ensures
        match r {
            Some(v) => offset + 2 <= bytes@.len() && v == u16_le(bytes@, offset as int),
            None => offset + 2 > bytes@.len(),
        },
{
    if offset > bytes.len() || bytes.len() - offset < 2 {
        return None;
    }
    let b0 = bytes[offset] as u16;
    let b1 = bytes[offset + 1] as u16;
    Some(b0 + b1 * 0x100)
}

fn is_png(bytes: &[u8]) -> (r: bool)
    ensures
        r == png_ok(bytes@),
{
    let ihdr: [u8; 4] = [0x49, 0x48, 0x44, 0x52];
    assert(ihdr@ == ascii_ihdr());
    bytes.len() >= 16 && read_u32_be(bytes, 8) == Some(13u32) && starts_with_ascii_at(bytes, 12, &ihdr)
}

fn is_animated_png(bytes: &[u8]) -> (r: bool)
    ensures
        r == apng_from(bytes@, 8),
{
    let actl: [u8; 4] = [0x61, 0x63, 0x54, 0x4C];
    let idat: [u8; 4] = [0x49, 0x44, 0x41, 0x54];
    assert(actl@ == ascii_actl());
    assert(idat@ == ascii_idat());
    let mut offset: usize = 8;
    while offset <= bytes.len() && bytes.len() - offset >= 8
        invariant
            apng_from(bytes@, offset as int) == apng_from(bytes@, 8),
            actl@ == ascii_actl(),
            idat@ == ascii_idat(),
        decreases bytes.len() - offset,
    {
        let chunk_length = match read_u32_be(bytes, offset) {
            Some(l) => l,
            None => return false,
        };
        let chunk_type_offset = offset + 4;
        if starts_with_ascii_at(bytes, chunk_type_offset, &actl) {
            return true;
        }
        if starts_with_ascii_at(bytes, chunk_type_offset, &idat) {
            return false;
        }
        let next = match (offset as u64 + 8).checked_add(chunk_length as u64 + 4) {
            Some(n) => n,
            None => return false,
        };
        if next > bytes.len() as u64 {
            return false;
        }
        offset = next as usize;
    }
    false
}

fn is_bmp(bytes: &[u8]) -> (r: bool)
    ensures
        r == bmp_ok(bytes@),
{
    if bytes.len() < 26 {
        return false;
    }
    let declared_file_size = match read_u32_le(bytes, 2) {
        Some(v) => v,
        None => 0,
    };
    let pixel_data_offset = match read_u32_le(bytes, 10) {
        Some(v) => v,
        None => 0,
    };
    let dib_header_size = match read_u32_le(bytes, 14) {
        Some(v) => v,
        None => 0,
    };
    if declared_file_size != 0 && declared_file_size < 26 {
        return false;
    }
    if (pixel_data_offset as u64) < 14 + dib_header_size as u64 {
        return false;
    }
    if declared_file_size != 0 && pixel_data_offset >= declared_file_size {
        return false;
    }
    let (color_planes, bits_per_pixel) = if dib_header_size == 12 {
        (read_u16_le(bytes, 22), read_u16_le(bytes, 24))
    } else if 40 <= dib_header_size && dib_header_size <= 124 {
        if bytes.len() < 30 {
            return false;
        }
        (read_u16_le(bytes, 26), read_u16_le(bytes, 28))
    } else {
        return false;
    };
    match (color_planes, bits_per_pixel) {
        (Some(p), Some(b)) => p == 1 && (b == 1 || b == 4 || b == 8 || b == 16 || b == 24 || b == 32),
        _ => false,
    }
}

/// The image type of `bytes` by its magic bytes, if it is one that model
/// APIs accept.
pub fn detect_supported_image_mime_type(bytes: &[u8]) -> (r: Option<&'static str>)
    ensures
        match r {
            Some(m) => mime_spec(bytes@) == Some(m@),
            None => mime_spec(bytes@) is None,
        },
{
    let soi: [u8; 3] = [0xFF, 0xD8, 0xFF];
    let png: [u8; 8] = [0x89, 0x50, 0x4E, 0x47, 0x0D, 0x0A, 0x1A, 0x0A];
    let gif7: [u8; 6] = [0x47, 0x49, 0x46, 0x38, 0x37, 0x61];
    let gif9: [u8; 6] = [0x47, 0x49, 0x46, 0x38, 0x39, 0x61];
    let riff: [u8; 4] = [0x52, 0x49, 0x46, 0x46];
    let webp: [u8; 4] = [0x57, 0x45, 0x42, 0x50];
    let bm: [u8; 2] = [0x42, 0x4D];
    assert(soi@ == jpeg_soi());
    assert(png@ == png_signature());
    assert(gif7@ == gif_magic(0x37));
    assert(gif9@ == gif_magic(0x39));
    assert(riff@ == ascii_riff());
    assert(webp@ == ascii_webp());
    assert(bm@ == ascii_bm());
    if starts_with_ascii_at(bytes, 0, &soi) {
        return if bytes.len() > 3 && bytes[3] == 0xF7 {
            None
        } else {
            Some("image/jpeg")
        };
    }
    if starts_with_ascii_at(bytes, 0, &png) {
        return if is_png(bytes) && !is_animated_png(bytes) {
            Some("image/png")
        } else {
            None
        };
    }
    if starts_with_ascii_at(bytes, 0, &gif7) || starts_with_ascii_at(bytes, 0, &gif9) {
        return Some("image/gif");
    }
    if starts_with_ascii_at(bytes, 0, &riff) && bytes.len() >= 12 && starts_with_ascii_at(bytes, 8, &webp) {
        return Some("image/webp");
    }
    if starts_with_ascii_at(bytes, 0, &bm) && is_bmp(bytes) {
        return Some("image/bmp");
    }
    None
}

/// The image type of `bytes` by its leading signature alone (no structure
/// checks), as the read tool sniffs files.
pub open spec fn sniff_spec(b: Seq<u8>) -> Option<Seq<char>> {
    if at(b, 0, png_signature()) {
        Some("image/png"@)
    } else if at(b, 0, jpeg_soi()) {
        Some("image/jpeg"@)
    } else if at(b, 0, gif_magic(0x37)) || at(b, 0, gif_magic(0x39)) {
        Some("image/gif"@)
    } else if b.len() >= 12 && at(b, 0, ascii_riff()) && at(b, 8, ascii_webp()) {
        Some("image/webp"@)
    } else if at(b, 0, ascii_bm()) {
        Some("image/bmp"@)
    } else {
        None
    }
}

/// Supported image types by their leading signature.
pub fn detect_image_mime(bytes: &[u8]) -> (r: Option<&'static str>)
    ensures
        match r {
            Some(m) => sniff_spec(bytes@) == Some(m@),
            None => sniff_spec(bytes@) is None,
        },
{
    let soi: [u8; 3] = [0xFF, 0xD8, 0xFF];
    let png: [u8; 8] = [0x89, 0x50, 0x4E, 0x47, 0x0D, 0x0A, 0x1A, 0x0A];
    let gif7: [u8; 6] = [0x47, 0x49, 0x46, 0x38, 0x37, 0x61];
    let gif9: [u8; 6] = [0x47, 0x49, 0x46, 0x38, 0x39, 0x61];
    let riff: [u8; 4] = [0x52, 0x49, 0x46, 0x46];
    let webp: [u8; 4] = [0x57, 0x45, 0x42, 0x50];
    let bm: [u8; 2] = [0x42, 0x4D];
    assert(soi@ == jpeg_soi());
    assert(png@ == png_signature());
    assert(gif7@ == gif_magic(0x37));
    assert(gif9@ == gif_magic(0x39));
    assert(riff@ == ascii_riff());
    assert(webp@ == ascii_webp());
    assert(bm@ == ascii_bm());
    if starts_with_ascii_at(bytes, 0, &png) {
        Some("image/png")
    } else if starts_with_ascii_at(bytes, 0, &soi) {
        Some("image/jpeg")
    } else if starts_with_ascii_at(bytes, 0, &gif7) || starts_with_ascii_at(bytes, 0, &gif9) {
        Some("image/gif")
    } else if bytes.len() >= 12 && starts_with_ascii_at(bytes, 0, &riff) && starts_with_ascii_at(
        bytes,
        8,
        &webp,
    ) {
        Some("image/webp")
    } else if starts_with_ascii_at(bytes, 0, &bm) {
        Some("image/bmp")
    } else {
        None
    }
}

} // verus!
