//! Tests of the legacy bitmap decoder.

use exelook::dib::decode_dib;
use exelook::exelook::{decode_icon, LookupError};

fn push_le32(v: &mut Vec<u8>, x: u32) {
    v.push((x & 0xff) as u8);
    v.push(((x >> 8) & 0xff) as u8);
    v.push(((x >> 16) & 0xff) as u8);
    v.push(((x >> 24) & 0xff) as u8);
}

fn push_le16(v: &mut Vec<u8>, x: u16) {
    v.push((x & 0xff) as u8);
    v.push((x >> 8) as u8);
}

fn dib_header(w: i32, h2: i32, planes: u16, bc: u16, comp: u32, clr_used: u32) -> Vec<u8> {
    let mut v = Vec::new();
    push_le32(&mut v, 40);
    push_le32(&mut v, w as u32);
    push_le32(&mut v, h2 as u32);
    push_le16(&mut v, planes);
    push_le16(&mut v, bc);
    push_le32(&mut v, comp);
    push_le32(&mut v, 0);
    push_le32(&mut v, 0);
    push_le32(&mut v, 0);
    push_le32(&mut v, clr_used);
    push_le32(&mut v, 0);
    v
}

/// A 32-bit W×H bitmap whose pixels, top-down RGBA, are given; rows are
/// stored bottom-up in blue-green-red-alpha order, with an all-zero mask.
fn bitmap32(w: usize, h: usize, rgba: &[[u8; 4]]) -> Vec<u8> {
    assert_eq!(rgba.len(), w * h);
    let mut v = dib_header(w as i32, (2 * h) as i32, 1, 32, 0, 0);
    for s in 0..h {
        let y = h - 1 - s;
        for x in 0..w {
            let p = rgba[y * w + x];
            v.push(p[2]);
            v.push(p[1]);
            v.push(p[0]);
            v.push(p[3]);
        }
    }
    // an all-zero AND mask, one padded row per scanline
    let mask_stride = ((w + 31) / 32) * 4;
    v.extend(std::iter::repeat(0u8).take(mask_stride * h));
    v
}

#[test]
fn rejects_two_planes() {
    let buf = dib_header(4, 8, 2, 32, 0, 0);
    assert_eq!(decode_dib(&buf).unwrap_err(), LookupError::PlanarNotSupported);
}

#[test]
fn rejects_compression() {
    let buf = dib_header(4, 8, 1, 32, 1, 0);
    assert_eq!(decode_dib(&buf).unwrap_err(), LookupError::UnknownCompression);
}

#[test]
fn rejects_planes_before_compression() {
    let buf = dib_header(4, 8, 0, 32, 1, 0);
    assert_eq!(decode_dib(&buf).unwrap_err(), LookupError::PlanarNotSupported);
}

#[test]
fn rejects_unknown_bit_depth() {
    let buf = dib_header(4, 8, 1, 16, 0, 0);
    assert_eq!(decode_dib(&buf).unwrap_err(), LookupError::UnrecognizedBPP);
}

#[test]
fn rejects_short_header() {
    let buf = &dib_header(4, 8, 1, 32, 0, 0)[..30];
    assert_eq!(decode_dib(buf).unwrap_err(), LookupError::FormatError);
}

#[test]
fn rejects_truncated_pixel_data() {
    let full = bitmap32(2, 2, &[[1, 2, 3, 4]; 4]);
    let buf = &full[..full.len() - 20];
    assert_eq!(decode_dib(buf).unwrap_err(), LookupError::FormatError);
}

#[test]
fn rejects_pixel_index_outside_color_table() {
    // 8-bit, one pixel of value 5, but only 2 table entries declared
    let mut v = dib_header(1, 2, 1, 8, 0, 2);
    v.extend_from_slice(&[0, 0, 0, 0, 255, 255, 255, 0]); // 2 entries
    v.extend_from_slice(&[5, 0, 0, 0]); // one padded scanline
    v.extend_from_slice(&[0, 0, 0, 0]); // mask row
    assert_eq!(decode_dib(&v).unwrap_err(), LookupError::FormatError);
}

#[test]
fn round_trips_a_32_bit_bitmap() {
    let pixels: Vec<[u8; 4]> = vec![
        [10, 20, 30, 255],
        [40, 50, 60, 128],
        [70, 80, 90, 0],
        [100, 110, 120, 7],
        [130, 140, 150, 255],
        [160, 170, 180, 1],
    ];
    let buf = bitmap32(3, 2, &pixels);
    let out = decode_dib(&buf).expect("a well-formed 32-bit bitmap decodes");
    assert_eq!(out.len(), 3 * 2 * 4);
    for y in 0..2 {
        for x in 0..3 {
            let o = 4 * (y * 3 + x);
            let p = pixels[y * 3 + x];
            assert_eq!(&out[o..o + 4], &p[..], "pixel ({x}, {y})");
        }
    }
}

#[test]
fn embedded_alpha_is_authoritative_for_32_bit() {
    // mask bits all set, but the stored alpha wins
    let mut buf = bitmap32(1, 1, &[[9, 8, 7, 200]]);
    let n = buf.len();
    buf[n - 4] = 0xff; // the mask row, which must be ignored
    let out = decode_dib(&buf).unwrap();
    assert_eq!(out, vec![9, 8, 7, 200]);
}

#[test]
fn decodes_a_4_bit_bitmap_with_mask() {
    // 2x2, 4-bit: table entries 0 and 1; pixel indices (0 1 / 1 0);
    // mask transparent exactly at the top-left pixel
    let mut v = dib_header(2, 4, 1, 4, 0, 2);
    v.extend_from_slice(&[10, 20, 30, 0]); // entry 0: blue, green, red
    v.extend_from_slice(&[55, 65, 75, 0]); // entry 1
    v.extend_from_slice(&[0x10, 0, 0, 0]); // bottom row: indices 1, 0
    v.extend_from_slice(&[0x01, 0, 0, 0]); // top row: indices 0, 1
    v.extend_from_slice(&[0x00, 0, 0, 0]); // bottom mask row: opaque
    v.extend_from_slice(&[0x80, 0, 0, 0]); // top mask row: bit for x = 0
    let out = decode_dib(&v).unwrap();
    assert_eq!(out.len(), 16);
    assert_eq!(&out[0..4], &[30, 20, 10, 0]); // (0,0): entry 0, transparent
    assert_eq!(&out[4..8], &[75, 65, 55, 255]); // (1,0): entry 1, opaque
    assert_eq!(&out[8..12], &[75, 65, 55, 255]); // (0,1): entry 1, opaque
    assert_eq!(&out[12..16], &[30, 20, 10, 255]); // (1,1): entry 0, opaque
}

#[test]
fn decodes_a_1_bit_bitmap() {
    // 2x1, 1-bit: the two leftmost bits of the single row byte
    let mut v = dib_header(2, 2, 1, 1, 0, 0);
    v.extend_from_slice(&[1, 2, 3, 0]); // entry 0
    v.extend_from_slice(&[200, 100, 50, 0]); // entry 1
    v.extend_from_slice(&[0x40, 0, 0, 0]); // pixels: 0 then 1
    v.extend_from_slice(&[0, 0, 0, 0]); // mask
    let out = decode_dib(&v).unwrap();
    assert_eq!(&out[0..4], &[3, 2, 1, 255]);
    assert_eq!(&out[4..8], &[50, 100, 200, 255]);
}

#[test]
fn decodes_a_24_bit_bitmap() {
    // 1x2 direct color, rows stored bottom to top with 4-byte padding
    let mut v = dib_header(1, 4, 1, 24, 0, 0);
    v.extend_from_slice(&[5, 6, 7, 0]); // bottom row: blue 5, green 6, red 7
    v.extend_from_slice(&[8, 9, 10, 0]); // top row
    v.extend_from_slice(&[0, 0, 0, 0]); // mask row (bottom)
    v.extend_from_slice(&[0, 0, 0, 0]); // mask row (top)
    let out = decode_dib(&v).unwrap();
    assert_eq!(&out[0..4], &[10, 9, 8, 255]);
    assert_eq!(&out[4..8], &[7, 6, 5, 255]);
}

#[test]
fn decode_icon_passes_png_through() {
    let mut png = vec![0x89, 0x50, 0x4e, 0x47, 0x0d, 0x0a, 0x1a, 0x0a];
    png.extend_from_slice(&[0, 0, 0, 13]);
    png.extend_from_slice(b"IHDR");
    png.extend_from_slice(&[0, 0, 0, 16, 0, 0, 0, 16]);
    let d = decode_icon(&png).unwrap();
    assert!(d.is_png);
    assert_eq!(d.width, 0);
    assert_eq!(d.height, 0);
    assert_eq!(d.pixels, png);
}

#[test]
fn decode_icon_reports_bitmap_dimensions() {
    let buf = bitmap32(3, 2, &[[1, 2, 3, 4]; 6]);
    let d = decode_icon(&buf).unwrap();
    assert!(!d.is_png);
    assert_eq!(d.width, 3);
    assert_eq!(d.height, 2);
    assert_eq!(d.pixels.len(), 24);
}
