use zwork_sidecar::image::{detect_image_mime, detect_supported_image_mime_type};

const PNG_SIGNATURE: [u8; 8] = [0x89, b'P', b'N', b'G', 0x0D, 0x0A, 0x1A, 0x0A];

/// PNG header: signature + IHDR chunk (length, type, payload, CRC).
fn png_prefix() -> Vec<u8> {
    let mut v = PNG_SIGNATURE.to_vec();
    v.extend_from_slice(&13u32.to_be_bytes());
    v.extend_from_slice(b"IHDR");
    v.extend_from_slice(&[0; 13]);
    v.extend_from_slice(&[0; 4]);
    v
}

#[test]
fn detects_png() {
    assert_eq!(detect_supported_image_mime_type(&png_prefix()), Some("image/png"));
}

#[test]
fn rejects_animated_png() {
    let mut v = png_prefix();
    v.extend_from_slice(&8u32.to_be_bytes());
    v.extend_from_slice(b"acTL");
    v.extend_from_slice(&[0; 8]);
    assert_eq!(detect_supported_image_mime_type(&v), None);
}

#[test]
fn detects_jpeg_and_rejects_jpeg_xr() {
    assert_eq!(detect_supported_image_mime_type(&[0xFF, 0xD8, 0xFF, 0xE0]), Some("image/jpeg"));
    assert_eq!(detect_supported_image_mime_type(&[0xFF, 0xD8, 0xFF, 0xF7]), None);
}

#[test]
fn detects_gif_and_webp() {
    assert_eq!(detect_supported_image_mime_type(b"GIF89a...."), Some("image/gif"));
    let mut webp = b"RIFF".to_vec();
    webp.extend_from_slice(&[0, 0, 0, 0]);
    webp.extend_from_slice(b"WEBP");
    assert_eq!(detect_supported_image_mime_type(&webp), Some("image/webp"));
}

#[test]
fn validates_bmp_structure() {
    let mut bmp = vec![b'B', b'M'];
    bmp.extend_from_slice(&[0u8; 4]);
    bmp.extend_from_slice(&[0u8; 4]);
    bmp.extend_from_slice(&54u32.to_le_bytes());
    bmp.extend_from_slice(&40u32.to_le_bytes());
    bmp.extend_from_slice(&[0u8; 8]);
    bmp.extend_from_slice(&1u16.to_le_bytes());
    bmp.extend_from_slice(&24u16.to_le_bytes());
    bmp.resize(64, 0);
    assert_eq!(detect_supported_image_mime_type(&bmp), Some("image/bmp"));

    let mut bad = bmp.clone();
    bad[26..28].copy_from_slice(&2u16.to_le_bytes());
    assert_eq!(detect_supported_image_mime_type(&bad), None);
}

#[test]
fn rejects_non_images() {
    assert_eq!(detect_supported_image_mime_type(b"hello world, definitely text"), None);
    assert_eq!(detect_supported_image_mime_type(&[]), None);
}

#[test]
fn image_sniff() {
    assert_eq!(detect_image_mime(&[0x89, b'P', b'N', b'G', 0x0D, 0x0A, 0x1A, 0x0A, 0]), Some("image/png"));
    assert_eq!(detect_image_mime(b"hello"), None);
}

#[test]
fn png_chunk_walk_stops_at_idat_and_bad_lengths() {
    // IDAT before acTL: a still image.
    let mut v = png_prefix();
    v.extend_from_slice(&0u32.to_be_bytes());
    v.extend_from_slice(b"IDAT");
    v.extend_from_slice(&[0; 4]);
    v.extend_from_slice(&8u32.to_be_bytes());
    v.extend_from_slice(b"acTL");
    assert_eq!(detect_supported_image_mime_type(&v), Some("image/png"));
    // A chunk whose declared length runs past the end ends the walk.
    let mut w = png_prefix();
    w.extend_from_slice(&1000u32.to_be_bytes());
    w.extend_from_slice(b"tEXt");
    w.extend_from_slice(&[0; 8]);
    assert_eq!(detect_supported_image_mime_type(&w), Some("image/png"));
    // Wrong IHDR length: not a PNG we accept.
    let mut bad = png_prefix();
    bad[11] = 12;
    assert_eq!(detect_supported_image_mime_type(&bad), None);
}

#[test]
fn bmp_core_header_and_size_checks() {
    let mut core = vec![b'B', b'M'];
    core.extend_from_slice(&100u32.to_le_bytes());
    core.extend_from_slice(&[0u8; 4]);
    core.extend_from_slice(&26u32.to_le_bytes());
    core.extend_from_slice(&12u32.to_le_bytes());
    core.extend_from_slice(&[0u8; 4]);
    core.extend_from_slice(&1u16.to_le_bytes());
    core.extend_from_slice(&8u16.to_le_bytes());
    assert_eq!(core.len(), 26);
    assert_eq!(detect_supported_image_mime_type(&core), Some("image/bmp"));
    // Pixel data at or past the declared size is refused.
    let mut past = core.clone();
    past[2..6].copy_from_slice(&26u32.to_le_bytes());
    assert_eq!(detect_supported_image_mime_type(&past), None);
    // The lenient sniffer accepts any "BM".
    assert_eq!(detect_image_mime(b"BM"), Some("image/bmp"));
    assert_eq!(detect_supported_image_mime_type(b"BM"), None);
}
