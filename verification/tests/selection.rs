//! Tests of PNG classification and best-candidate selection.

use exelook::exelook::{best_icon, icon_compare_key, is_png, LookupError};

const PNG_SIG: [u8; 8] = [0x89, 0x50, 0x4e, 0x47, 0x0d, 0x0a, 0x1a, 0x0a];

fn push_be32(v: &mut Vec<u8>, x: u32) {
    v.push((x >> 24) as u8);
    v.push(((x >> 16) & 0xff) as u8);
    v.push(((x >> 8) & 0xff) as u8);
    v.push((x & 0xff) as u8);
}

fn push_le32(v: &mut Vec<u8>, x: u32) {
    v.push((x & 0xff) as u8);
    v.push(((x >> 8) & 0xff) as u8);
    v.push(((x >> 16) & 0xff) as u8);
    v.push(((x >> 24) & 0xff) as u8);
}

fn push_le16(v: &mut Vec<u8>, x: u16) {
    v.push((x & 0xff) as u8);
    v.push((x >> 8) as u8);
}

/// The first 24 bytes of a PNG image with the given dimensions.
fn png_bytes(w: u32, h: u32) -> Vec<u8> {
    let mut v = PNG_SIG.to_vec();
    push_be32(&mut v, 13); // IHDR chunk length
    v.extend_from_slice(b"IHDR");
    push_be32(&mut v, w);
    push_be32(&mut v, h);
    v
}

/// A 40-byte bitmap info header; the declared height is twice the true one.
fn dib_header(w: i32, h2: i32, planes: u16, bc: u16, comp: u32, clr_used: u32) -> Vec<u8> {
    let mut v = Vec::new();
    push_le32(&mut v, 40);
    push_le32(&mut v, w as u32);
    push_le32(&mut v, h2 as u32);
    push_le16(&mut v, planes);
    push_le16(&mut v, bc);
    push_le32(&mut v, comp);
    push_le32(&mut v, 0); // image size
    push_le32(&mut v, 0); // x pixels per meter
    push_le32(&mut v, 0); // y pixels per meter
    push_le32(&mut v, clr_used);
    push_le32(&mut v, 0); // important colors
    assert_eq!(v.len(), 40);
    v
}

#[test]
fn png_classification_needs_the_exact_signature() {
    assert!(is_png(&PNG_SIG));
    assert!(is_png(&png_bytes(1, 1)));
    assert!(!is_png(&PNG_SIG[..7]));
    assert!(!is_png(&[]));
    let mut wrong = PNG_SIG.to_vec();
    wrong[5] = 0x0b;
    assert!(!is_png(&wrong));
    let mut longer = PNG_SIG.to_vec();
    longer.extend_from_slice(&[1, 2, 3]);
    assert!(is_png(&longer));
}

#[test]
fn short_png_fails_malformed() {
    let buf = &png_bytes(8, 8)[..23];
    assert!(is_png(buf));
    assert_eq!(icon_compare_key(buf).unwrap_err(), LookupError::MalformedPng);
}

#[test]
fn png_without_header_chunk_fails_malformed() {
    let mut buf = PNG_SIG.to_vec();
    push_be32(&mut buf, 13);
    buf.extend_from_slice(b"IHDX");
    push_be32(&mut buf, 8);
    push_be32(&mut buf, 8);
    assert_eq!(icon_compare_key(&buf).unwrap_err(), LookupError::MalformedPng);
}

#[test]
fn png_key_uses_big_endian_dimensions_and_sentinel_depth() {
    let key = icon_compare_key(&png_bytes(16, 24)).unwrap();
    assert_eq!(key.width, 16);
    assert_eq!(key.height, 24);
    assert_eq!(key.bit_count, 64);
}

#[test]
fn bitmap_key_uses_header_fields() {
    let key = icon_compare_key(&dib_header(32, 64, 1, 8, 0, 0)).unwrap();
    assert_eq!(key.width, 32);
    assert_eq!(key.height, 64);
    assert_eq!(key.bit_count, 8);
}

#[test]
fn short_bitmap_has_no_key() {
    let buf = &dib_header(32, 64, 1, 8, 0, 0)[..39];
    assert_eq!(icon_compare_key(buf).unwrap_err(), LookupError::FormatError);
}

#[test]
fn best_icon_of_nothing_is_no_icon() {
    let icons: Vec<Result<&[u8], LookupError>> = Vec::new();
    assert_eq!(best_icon(&icons).unwrap_err(), LookupError::NoIconFound);
}

#[test]
fn best_icon_prefers_wider_bitmap_over_smaller_png() {
    // width is the primary key: (32, 64, 8) beats (16, 16, 64)
    let png = png_bytes(16, 16);
    let bmp = dib_header(32, 64, 1, 8, 0, 0);
    let icons: Vec<Result<&[u8], LookupError>> = vec![Ok(&png), Ok(&bmp)];
    let winner = best_icon(&icons).unwrap();
    assert_eq!(winner, &bmp[..]);
}

#[test]
fn best_icon_breaks_ties_in_favor_of_the_earliest() {
    // equal (width, height, depth) keys, distinguishable elsewhere
    let first = dib_header(32, 64, 1, 8, 0, 7);
    let second = dib_header(32, 64, 1, 8, 0, 9);
    let icons: Vec<Result<&[u8], LookupError>> = vec![Ok(&first), Ok(&second)];
    let winner = best_icon(&icons).unwrap();
    assert_eq!(winner, &first[..]);
}

#[test]
fn best_icon_is_deterministic() {
    let a = png_bytes(16, 16);
    let b = dib_header(16, 32, 1, 24, 0, 0);
    let c = dib_header(64, 128, 1, 1, 0, 0);
    let icons: Vec<Result<&[u8], LookupError>> = vec![Ok(&a), Ok(&b), Ok(&c)];
    let w1 = best_icon(&icons).unwrap();
    let w2 = best_icon(&icons).unwrap();
    assert_eq!(w1, w2);
    assert_eq!(w1, &c[..]);
}

#[test]
fn best_icon_fails_on_a_candidate_error() {
    let a = png_bytes(16, 16);
    let icons: Vec<Result<&[u8], LookupError>> =
        vec![Ok(&a), Err(LookupError::NoIconFound)];
    assert_eq!(best_icon(&icons).unwrap_err(), LookupError::NoIconFound);
}

#[test]
fn best_icon_fails_on_a_malformed_candidate_before_later_errors() {
    let broken = &PNG_SIG[..]; // PNG-signed but too short for a header
    let icons: Vec<Result<&[u8], LookupError>> =
        vec![Ok(broken), Err(LookupError::NoIconFound)];
    assert_eq!(best_icon(&icons).unwrap_err(), LookupError::MalformedPng);
}
