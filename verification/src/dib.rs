//! Legacy device-independent bitmaps: the 40-byte info header and the
//! decoder that turns an uncompressed icon bitmap into a top-down RGBA
//! pixel buffer.

use vstd::prelude::*;

use crate::bytes::{
    read_le16, read_le32, read_le32_signed, spec_le16, spec_le32, spec_signed32,
};
use crate::exelook::LookupError;

verus! {

/// A buffer long enough to hold the whole 40-byte info header.
pub open spec fn dib_header_wf(b: Seq<u8>) -> bool {
    b.len() >= 40
}

/// Declared width, a signed 32-bit field at offset 4.
pub open spec fn dib_width(b: Seq<u8>) -> int {
    spec_signed32(spec_le32(b, 4))
}

/// Declared height, a signed 32-bit field at offset 8. For icon resources
/// this is twice the true image height: the color image is followed by the
/// transparency mask.
pub open spec fn dib_height(b: Seq<u8>) -> int {
    spec_signed32(spec_le32(b, 8))
}

/// Number of bit planes, at offset 12.
pub open spec fn dib_planes(b: Seq<u8>) -> int {
    spec_le16(b, 12)
}

/// Bits per pixel, at offset 14.
pub open spec fn dib_bit_count(b: Seq<u8>) -> int {
    spec_le16(b, 14)
}

/// Compression tag, at offset 16; zero means uncompressed.
pub open spec fn dib_compression(b: Seq<u8>) -> int {
    spec_le32(b, 16)
}

/// Number of color-table entries actually used, at offset 32; zero means
/// the full table implied by the bit count.
pub open spec fn dib_colors_used(b: Seq<u8>) -> int {
    spec_le32(b, 32)
}

/// A `BITMAPINFOHEADER`-prefixed byte buffer.
#[derive(Copy, Clone)]
pub struct BitmapInfoHeader<'a> {
    bytes: &'a [u8],
}

impl<'a> View for BitmapInfoHeader<'a> {
    type V = Seq<u8>;

    closed spec fn view(&self) -> Seq<u8> {
        self.bytes@
    }
}

impl<'a> BitmapInfoHeader<'a> {
    pub open spec fn wf(self) -> bool {
        dib_header_wf(self@)
    }

    /// Wraps a buffer that must be long enough for the fixed info header;
    /// a shorter buffer is a bounds violation.
    pub fn from_bytes(bytes: &'a [u8]) -> (r: Result<BitmapInfoHeader<'a>, LookupError>)
        ensures
            match r {
                Ok(h) => dib_header_wf(bytes@) && h@ == bytes@ && h.wf(),
                Err(e) => e == LookupError::FormatError && !dib_header_wf(bytes@),
            },
    {
        if bytes.len() < 40 {
            Err(LookupError::FormatError)
        } else {
            Ok(BitmapInfoHeader { bytes })
        }
    }

    pub fn width(&self) -> (r: i32)
        requires
            self.wf(),
        ensures
            r == dib_width(self@),
    {
        read_le32_signed(self.bytes, 4)
    }

    pub fn height(&self) -> (r: i32)
        requires
            self.wf(),
        ensures
            r == dib_height(self@),
    {
        read_le32_signed(self.bytes, 8)
    }

    pub fn planes(&self) -> (r: u16)
        requires
            self.wf(),
        ensures
            r == dib_planes(self@),
    {
        read_le16(self.bytes, 12)
    }

    pub fn bit_count(&self) -> (r: u16)
        requires
            self.wf(),
        ensures
            r == dib_bit_count(self@),
    {
        read_le16(self.bytes, 14)
    }

    pub fn compression(&self) -> (r: u32)
        requires
            self.wf(),
        ensures
            r == dib_compression(self@),
    {
        read_le32(self.bytes, 16)
    }

    pub fn colors_used(&self) -> (r: u32)
        requires
            self.wf(),
        ensures
            r == dib_colors_used(self@),
    {
        read_le32(self.bytes, 32)
    }
}

/// The true image height: the declared height covers the color image and
/// the transparency mask stacked on top of each other.
pub open spec fn dib_true_height(b: Seq<u8>) -> int {
    dib_height(b) / 2
}

/// The bit depths the decoder handles.
pub open spec fn dib_supported_bpp(bc: int) -> bool {
    bc == 1 || bc == 4 || bc == 8 || bc == 24 || bc == 32
}

/// The full color table size implied by an indexed bit depth.
pub open spec fn dib_full_table(bc: int) -> int {
    if bc == 1 {
        2
    } else if bc == 4 {
        16
    } else {
        256
    }
}

/// The number of color-table entries stored: the full table of the bit
/// depth, or the declared used count when nonzero and smaller. Direct-color
/// bitmaps carry no table.
pub open spec fn dib_table_entries(b: Seq<u8>) -> int {
    if dib_bit_count(b) <= 8 {
        let full = dib_full_table(dib_bit_count(b));
        if dib_colors_used(b) != 0 && dib_colors_used(b) < full {
            dib_colors_used(b)
        } else {
            full
        }
    } else {
        0
    }
}

/// Where the pixel data starts: after the header and the color table.
pub open spec fn dib_data_offset(b: Seq<u8>) -> int {
    40 + 4 * dib_table_entries(b)
}

/// Bytes per stored scanline of the color image, rounded up to a 4-byte
/// boundary.
pub open spec fn dib_xor_stride(b: Seq<u8>) -> int {
    ((dib_width(b) * dib_bit_count(b) + 31) / 32) * 4
}

/// Bytes per stored scanline of the 1-bit transparency mask, rounded up to
/// a 4-byte boundary.
pub open spec fn dib_mask_stride(b: Seq<u8>) -> int {
    ((dib_width(b) + 31) / 32) * 4
}

/// Where the transparency mask starts: after all color scanlines.
pub open spec fn dib_mask_offset(b: Seq<u8>) -> int {
    dib_data_offset(b) + dib_xor_stride(b) * dib_true_height(b)
}

/// The total byte length the buffer must hold. A 32-bit bitmap carries its
/// own alpha channel, so its mask is never read.
pub open spec fn dib_needed_len(b: Seq<u8>) -> int {
    if dib_bit_count(b) == 32 {
        dib_mask_offset(b)
    } else {
        dib_mask_offset(b) + dib_mask_stride(b) * dib_true_height(b)
    }
}

/// Start of the stored color scanline that becomes output row `y`: rows
/// are stored bottom to top.
pub open spec fn dib_xor_row(b: Seq<u8>, y: int) -> int {
    dib_data_offset(b) + (dib_true_height(b) - 1 - y) * dib_xor_stride(b)
}

/// Value of bit position `k` counted from the least significant end.
pub open spec fn bit_weight(k: int) -> int {
    if k == 0 {
        1
    } else if k == 1 {
        2
    } else if k == 2 {
        4
    } else if k == 3 {
        8
    } else if k == 4 {
        16
    } else if k == 5 {
        32
    } else if k == 6 {
        64
    } else {
        128
    }
}

/// The raw color-table index stored for pixel `(x, y)` of the output, for
/// the indexed bit depths. Pixels are packed most significant bits first.
pub open spec fn dib_pixel_index(b: Seq<u8>, x: int, y: int) -> int {
    let row = dib_xor_row(b, y);
    if dib_bit_count(b) == 1 {
        (b[row + x / 8] as int / bit_weight(7 - (x % 8))) % 2
    } else if dib_bit_count(b) == 4 {
        if x % 2 == 0 {
            b[row + x / 2] as int / 16
        } else {
            b[row + x / 2] as int % 16
        }
    } else {
        b[row + x] as int
    }
}

/// The transparency mask bit of output pixel `(x, y)`; mask rows are also
/// stored bottom to top and packed most significant bits first.
pub open spec fn dib_mask_bit(b: Seq<u8>, x: int, y: int) -> int {
    let row = dib_mask_offset(b) + (dib_true_height(b) - 1 - y) * dib_mask_stride(b);
    (b[row + x / 8] as int / bit_weight(7 - (x % 8))) % 2
}

/// Mask bit 1 means fully transparent, 0 fully opaque.
pub open spec fn dib_mask_alpha(b: Seq<u8>, x: int, y: int) -> int {
    if dib_mask_bit(b, x, y) == 1 {
        0
    } else {
        255
    }
}

/// Color-table entry `idx` as (red, green, blue): entries are stored
/// blue-green-red-reserved.
pub open spec fn dib_table_rgb(b: Seq<u8>, idx: int) -> (int, int, int) {
    (b[40 + 4 * idx + 2] as int, b[40 + 4 * idx + 1] as int, b[40 + 4 * idx] as int)
}

/// The (red, green, blue, alpha) of output pixel `(x, y)`: direct color is
/// stored blue-green-red(-alpha); indexed color goes through the table;
/// everything below 32 bits takes its alpha from the mask.
pub open spec fn dib_rgba(b: Seq<u8>, x: int, y: int) -> (int, int, int, int) {
    let bc = dib_bit_count(b);
    if bc == 32 {
        let p = dib_xor_row(b, y) + 4 * x;
        (b[p + 2] as int, b[p + 1] as int, b[p] as int, b[p + 3] as int)
    } else if bc == 24 {
        let p = dib_xor_row(b, y) + 3 * x;
        (b[p + 2] as int, b[p + 1] as int, b[p] as int, dib_mask_alpha(b, x, y))
    } else {
        let t = dib_table_rgb(b, dib_pixel_index(b, x, y));
        (t.0, t.1, t.2, dib_mask_alpha(b, x, y))
    }
}

/// A bitmap whose header passed every validation step and whose buffer is
/// long enough for all the scanlines the decoder reads.
pub open spec fn dib_geometry_ok(b: Seq<u8>) -> bool {
    &&& dib_header_wf(b)
    &&& dib_planes(b) == 1
    &&& dib_compression(b) == 0
    &&& dib_supported_bpp(dib_bit_count(b))
    &&& dib_width(b) >= 0
    &&& dib_height(b) >= 0
    &&& b.len() >= dib_needed_len(b)
}

/// Every stored pixel of an indexed bitmap points inside its color table.
pub open spec fn dib_indices_ok(b: Seq<u8>) -> bool {
    dib_bit_count(b) <= 8 ==> forall|x: int, y: int|
        0 <= x < dib_width(b) && 0 <= y < dib_true_height(b) ==> #[trigger] dib_pixel_index(
            b,
            x,
            y,
        ) < dib_table_entries(b)
}

/// The validation outcome of a bitmap buffer, in order: header present,
/// single plane, uncompressed, known bit depth, sane dimensions, buffer
/// long enough, and every pixel index inside the color table.
pub open spec fn dib_check(b: Seq<u8>) -> Result<(), LookupError> {
    if !dib_header_wf(b) {
        Err(LookupError::FormatError)
    } else if dib_planes(b) != 1 {
        Err(LookupError::PlanarNotSupported)
    } else if dib_compression(b) != 0 {
        Err(LookupError::UnknownCompression)
    } else if !dib_supported_bpp(dib_bit_count(b)) {
        Err(LookupError::UnrecognizedBPP)
    } else if dib_width(b) < 0 || dib_height(b) < 0 {
        Err(LookupError::FormatError)
    } else if b.len() < dib_needed_len(b) {
        Err(LookupError::FormatError)
    } else if !dib_indices_ok(b) {
        Err(LookupError::FormatError)
    } else {
        Ok(())
    }
}

/// Output pixel `(x, y)` of the decoded buffer equals the bitmap's pixel:
/// 4 bytes per pixel in red, green, blue, alpha order, rows top-down.
pub open spec fn pixel_matches(pix: Seq<u8>, b: Seq<u8>, x: int, y: int) -> bool {
    let o = 4 * (y * dib_width(b) + x);
    &&& pix[o] as int == dib_rgba(b, x, y).0
    &&& pix[o + 1] as int == dib_rgba(b, x, y).1
    &&& pix[o + 2] as int == dib_rgba(b, x, y).2
    &&& pix[o + 3] as int == dib_rgba(b, x, y).3
}

/// Geometry derived from a validated header, all in machine integers.
#[derive(Copy, Clone)]
struct DibGeom {
    w: u64,
    true_h: u64,
    bc: u16,
    table_entries: u64,
    data_off: u64,
    xor_stride: u64,
    mask_off: u64,
    mask_stride: u64,
    needed: u64,
}

impl DibGeom {
    spec fn matches(self, b: Seq<u8>) -> bool {
        &&& self.w == dib_width(b)
        &&& self.true_h == dib_true_height(b)
        &&& self.bc == dib_bit_count(b)
        &&& self.table_entries == dib_table_entries(b)
        &&& self.data_off == dib_data_offset(b)
        &&& self.xor_stride == dib_xor_stride(b)
        &&& self.mask_off == dib_mask_offset(b)
        &&& self.mask_stride == dib_mask_stride(b)
        &&& self.needed == dib_needed_len(b)
    }
}

fn read_geometry(bytes: &[u8]) -> (g: DibGeom)
    requires
        dib_header_wf(bytes@),
        dib_supported_bpp(dib_bit_count(bytes@)),
        dib_width(bytes@) >= 0,
        dib_height(bytes@) >= 0,
    ensures
        g.matches(bytes@),
{
    let w_i = read_le32_signed(bytes, 4);
    let h_i = read_le32_signed(bytes, 8);
    let bc = read_le16(bytes, 14);
    let w = (w_i as u32) as u64;
    let h = (h_i as u32) as u64;
    let true_h = h / 2;
    let cu = read_le32(bytes, 32) as u64;
    let table_entries: u64 = if bc <= 8 {
        let full: u64 = if bc == 1 {
            2
        } else if bc == 4 {
            16
        } else {
            256
        };
        if cu != 0 && cu < full {
            cu
        } else {
            full
        }
    } else {
        0
    };
    let data_off = 40 + 4 * table_entries;
    assert(w * (bc as u64) <= 0x7fff_ffffu64 * 32) by (nonlinear_arith)
        requires
            w <= 0x7fff_ffffu64,
            bc <= 32,
    ;
    let xor_stride = ((w * (bc as u64) + 31) / 32) * 4;
    let mask_stride = ((w + 31) / 32) * 4;
    proof {
        vstd::arithmetic::div_mod::lemma_div_is_ordered(
            w * (bc as u64) + 31,
            0x7fff_ffffu64 * 32 + 31,
            32,
        );
        vstd::arithmetic::div_mod::lemma_div_is_ordered(w + 31, 0x7fff_ffffu64 + 31, 32);
    }
    assert(xor_stride <= 0x2_0000_0000u64);
    assert(mask_stride <= 0x1000_0000u64);
    assert(xor_stride * true_h <= 0x2_0000_0000u64 * 0x4000_0000) by (nonlinear_arith)
        requires
            xor_stride <= 0x2_0000_0000u64,
            true_h <= 0x4000_0000u64,
    ;
    assert(mask_stride * true_h <= 0x1000_0000u64 * 0x4000_0000) by (nonlinear_arith)
        requires
            mask_stride <= 0x1000_0000u64,
            true_h <= 0x4000_0000u64,
    ;
    let mask_off = data_off + xor_stride * true_h;
    let needed = if bc == 32 {
        mask_off
    } else {
        mask_off + mask_stride * true_h
    };
    DibGeom { w, true_h, bc, table_entries, data_off, xor_stride, mask_off, mask_stride, needed }
}

fn weight_of(k: u64) -> (r: u8)
    requires
        k < 8,
    ensures
        r as int == bit_weight(k as int),
{
    if k == 0 {
        1
    } else if k == 1 {
        2
    } else if k == 2 {
        4
    } else if k == 3 {
        8
    } else if k == 4 {
        16
    } else if k == 5 {
        32
    } else if k == 6 {
        64
    } else {
        128
    }
}

/// With the bit count fixed, the scanline stride takes a concrete form.
proof fn lemma_xor_stride_eq(b: Seq<u8>, k: int)
    requires
        dib_bit_count(b) == k,
    ensures
        dib_xor_stride(b) == ((k * dib_width(b) + 31) / 32) * 4,
{
    vstd::arithmetic::mul::lemma_mul_is_commutative(dib_width(b), dib_bit_count(b));
}

/// The start of stored row `src` of a region beginning at `base` with the
/// given stride lies `stride` bytes short of the region's end.
proof fn lemma_row_bound(base: int, stride: int, rows: int, src: int)
    requires
        0 <= src < rows,
        stride >= 0,
    ensures
        base + src * stride + stride <= base + rows * stride,
{
    vstd::arithmetic::mul::lemma_mul_inequality(src + 1, rows, stride);
    vstd::arithmetic::mul::lemma_mul_is_distributive_add_other_way(stride, src, 1);
}

fn mask_bit_at(bytes: &[u8], g: &DibGeom, x: usize, y: usize) -> (r: u8)
    requires
        dib_geometry_ok(bytes@),
        g.matches(bytes@),
        g.bc != 32,
        x < g.w,
        y < g.true_h,
    ensures
        r as int == dib_mask_bit(bytes@, x as int, y as int),
        r == 0 || r == 1,
{
    let src = g.true_h - 1 - (y as u64);
    proof {
        lemma_row_bound(g.mask_off as int, g.mask_stride as int, g.true_h as int, src as int);
    }
    let row = g.mask_off + src * g.mask_stride;
    let xb = (x as u64) / 8;
    assert(8 * xb <= x as u64);
    assert(g.mask_stride * 8 >= g.w) by {
        assert(((g.w + 31) / 32) * 32 >= g.w);
    }
    assert(xb < g.mask_stride);
    let off = row + xb;
    assert(off < bytes@.len());
    let byte = bytes[off as usize];
    let wgt = weight_of(7 - ((x as u64) % 8));
    (byte / wgt) % 2
}

fn pixel_index_at(bytes: &[u8], g: &DibGeom, x: usize, y: usize) -> (r: u8)
    requires
        dib_geometry_ok(bytes@),
        g.matches(bytes@),
        g.bc <= 8,
        x < g.w,
        y < g.true_h,
    ensures
        r as int == dib_pixel_index(bytes@, x as int, y as int),
{
    let src = g.true_h - 1 - (y as u64);
    proof {
        lemma_row_bound(g.data_off as int, g.xor_stride as int, g.true_h as int, src as int);
        assert(dib_mask_offset(bytes@) <= dib_needed_len(bytes@));
    }
    let row = g.data_off + src * g.xor_stride;
    if g.bc == 1 {
        let xb = (x as u64) / 8;
        assert(8 * xb <= x as u64);
        assert(g.xor_stride * 8 >= g.w) by {
            lemma_xor_stride_eq(bytes@, 1);
            assert(((1 * g.w + 31) / 32) * 32 >= g.w);
        }
        assert(xb < g.xor_stride);
        let byte = bytes[(row + xb) as usize];
        let wgt = weight_of(7 - ((x as u64) % 8));
        (byte / wgt) % 2
    } else if g.bc == 4 {
        let xb = (x as u64) / 2;
        assert(2 * xb <= x as u64);
        assert(g.xor_stride * 8 >= 4 * g.w) by {
            lemma_xor_stride_eq(bytes@, 4);
            assert(((4 * g.w + 31) / 32) * 32 >= 4 * g.w);
        }
        assert(xb < g.xor_stride);
        let byte = bytes[(row + xb) as usize];
        if x % 2 == 0 {
            byte / 16
        } else {
            byte % 16
        }
    } else {
        assert(g.xor_stride * 8 >= 8 * g.w) by {
            lemma_xor_stride_eq(bytes@, 8);
            assert(((8 * g.w + 31) / 32) * 32 >= 8 * g.w);
        }
        assert((x as u64) < g.xor_stride);
        bytes[(row + x as u64) as usize]
    }
}

/// Resolves one output pixel to its red, green, blue and alpha bytes.
fn decode_pixel(bytes: &[u8], g: &DibGeom, x: usize, y: usize) -> (p: (u8, u8, u8, u8))
    requires
        dib_geometry_ok(bytes@),
        g.matches(bytes@),
        x < g.w,
        y < g.true_h,
        g.bc <= 8 ==> dib_pixel_index(bytes@, x as int, y as int) < dib_table_entries(bytes@),
    ensures
        (p.0 as int, p.1 as int, p.2 as int, p.3 as int) == dib_rgba(
            bytes@,
            x as int,
            y as int,
        ),
{
    let src = g.true_h - 1 - (y as u64);
    proof {
        lemma_row_bound(g.data_off as int, g.xor_stride as int, g.true_h as int, src as int);
        assert(dib_mask_offset(bytes@) <= dib_needed_len(bytes@));
    }
    let row = g.data_off + src * g.xor_stride;
    if g.bc == 32 {
        assert(g.xor_stride == 4 * g.w) by {
            lemma_xor_stride_eq(bytes@, 32);
            assert((32 * g.w + 31) / 32 == g.w);
        }
        assert(4 * (x as u64) + 4 <= 4 * g.w);
        let p = row + 4 * (x as u64);
        (
            bytes[(p + 2) as usize],
            bytes[(p + 1) as usize],
            bytes[p as usize],
            bytes[(p + 3) as usize],
        )
    } else if g.bc == 24 {
        assert(g.xor_stride * 8 >= 24 * g.w) by {
            lemma_xor_stride_eq(bytes@, 24);
            assert(((24 * g.w + 31) / 32) * 32 >= 24 * g.w);
        }
        assert(3 * (x as u64) + 3 <= 3 * g.w);
        let p = row + 3 * (x as u64);
        let a = mask_bit_at(bytes, g, x, y);
        (
            bytes[(p + 2) as usize],
            bytes[(p + 1) as usize],
            bytes[p as usize],
            if a == 1 {
                0
            } else {
                255
            },
        )
    } else {
        let idx = pixel_index_at(bytes, g, x, y);
        let t = 40 + 4 * (idx as u64);
        assert(4 * (idx as u64) + 4 <= 4 * g.table_entries);
        let a = mask_bit_at(bytes, g, x, y);
        (
            bytes[(t + 2) as usize],
            bytes[(t + 1) as usize],
            bytes[t as usize],
            if a == 1 {
                0
            } else {
                255
            },
        )
    }
}

/// Scans every stored pixel index of an indexed bitmap against the color
/// table size.
fn check_indices(bytes: &[u8], g: &DibGeom) -> (ok: bool)
    requires
        dib_geometry_ok(bytes@),
        g.matches(bytes@),
        g.bc <= 8,
    ensures
        ok <==> dib_indices_ok(bytes@),
{
    let w = g.w as usize;
    let true_h = g.true_h as usize;
    let mut y: usize = 0;
    while y < true_h
        invariant
            dib_geometry_ok(bytes@),
            g.matches(bytes@),
            g.bc <= 8,
            w == g.w,
            true_h == g.true_h,
            y <= true_h,
            forall|xx: int, yy: int|
                0 <= xx < g.w && 0 <= yy < y ==> #[trigger] dib_pixel_index(bytes@, xx, yy)
                    < dib_table_entries(bytes@),
        decreases true_h - y,
    {
        let mut x: usize = 0;
        while x < w
            invariant
                dib_geometry_ok(bytes@),
                g.matches(bytes@),
                g.bc <= 8,
                w == g.w,
                true_h == g.true_h,
                y < true_h,
                x <= w,
                forall|xx: int, yy: int|
                    0 <= xx < g.w && 0 <= yy < y ==> #[trigger] dib_pixel_index(bytes@, xx, yy)
                        < dib_table_entries(bytes@),
                forall|xx: int|
                    0 <= xx < x ==> #[trigger] dib_pixel_index(bytes@, xx, y as int)
                        < dib_table_entries(bytes@),
            decreases w - x,
        {
            let idx = pixel_index_at(bytes, g, x, y);
            if (idx as u64) >= g.table_entries {
                return false;
            }
            x = x + 1;
        }
        y = y + 1;
    }
    true
}

/// Decodes a legacy bitmap into a tightly packed, top-down buffer of
/// `width × trueHeight` pixels, 4 bytes per pixel in red, green, blue,
/// alpha order. Validation is fatal and ordered: a missing or short
/// header, more than one plane, any compression, an unknown bit depth,
/// negative dimensions, a buffer too short for its scanlines, or a pixel
/// index outside the color table each abort with their own error.
pub fn decode_dib(bytes: &[u8]) -> (r: Result<Vec<u8>, LookupError>)
    ensures
        match r {
            Ok(pix) => {
                &&& dib_check(bytes@) is Ok
                &&& pix@.len() == 4 * dib_width(bytes@) * dib_true_height(bytes@)
                &&& forall|x: int, y: int|
                    0 <= x < dib_width(bytes@) && 0 <= y < dib_true_height(bytes@)
                        ==> #[trigger] pixel_matches(pix@, bytes@, x, y)
            },
            Err(e) => dib_check(bytes@) == Err::<(), LookupError>(e),
        },
{
    let hdr = match BitmapInfoHeader::from_bytes(bytes) {
        Ok(h) => h,
        Err(e) => {
            return Err(e);
        },
    };
    if hdr.planes() != 1 {
        return Err(LookupError::PlanarNotSupported);
    }
    if hdr.compression() != 0 {
        return Err(LookupError::UnknownCompression);
    }
    let bc = hdr.bit_count();
    if !(bc == 1 || bc == 4 || bc == 8 || bc == 24 || bc == 32) {
        return Err(LookupError::UnrecognizedBPP);
    }
    if hdr.width() < 0 || hdr.height() < 0 {
        return Err(LookupError::FormatError);
    }
    let g = read_geometry(bytes);
    if (bytes.len() as u64) < g.needed {
        return Err(LookupError::FormatError);
    }
    if bc <= 8 {
        if !check_indices(bytes, &g) {
            return Err(LookupError::FormatError);
        }
    }
    let w = g.w as usize;
    let true_h = g.true_h as usize;
    let ghost bb = bytes@;
    let ghost ww = dib_width(bb);
    let mut out: Vec<u8> = Vec::new();
    let mut y: usize = 0;
    while y < true_h
        invariant
            dib_geometry_ok(bb),
            dib_indices_ok(bb),
            g.matches(bb),
            bb == bytes@,
            w == g.w,
            true_h == g.true_h,
            ww == dib_width(bb),
            y <= true_h,
            out@.len() == 4 * (y as int * ww),
            forall|xx: int, yy: int|
                0 <= xx < ww && 0 <= yy < y ==> #[trigger] pixel_matches(out@, bb, xx, yy),
        decreases true_h - y,
    {
        let mut x: usize = 0;
        while x < w
            invariant
                dib_geometry_ok(bb),
                dib_indices_ok(bb),
                g.matches(bb),
                bb == bytes@,
                w == g.w,
                true_h == g.true_h,
                ww == dib_width(bb),
                y < true_h,
                x <= w,
                out@.len() == 4 * (y as int * ww + x as int),
                forall|xx: int, yy: int|
                    0 <= xx < ww && 0 <= yy < y ==> #[trigger] pixel_matches(out@, bb, xx, yy),
                forall|xx: int|
                    0 <= xx < x ==> #[trigger] pixel_matches(out@, bb, xx, y as int),
            decreases w - x,
        {
            let p = decode_pixel(bytes, &g, x, y);
            let ghost prev = out@;
            out.push(p.0);
            out.push(p.1);
            out.push(p.2);
            out.push(p.3);
            proof {
                assert(out@ =~= prev + seq![p.0, p.1, p.2, p.3]);
                assert(pixel_matches(out@, bb, x as int, y as int)) by {
                    assert(out@[prev.len() as int] == p.0);
                    assert(out@[prev.len() as int + 1] == p.1);
                    assert(out@[prev.len() as int + 2] == p.2);
                    assert(out@[prev.len() as int + 3] == p.3);
                }
                assert forall|xx: int, yy: int|
                    0 <= xx < ww && 0 <= yy < y implies #[trigger] pixel_matches(
                    out@,
                    bb,
                    xx,
                    yy,
                ) by {
                    assert(pixel_matches(prev, bb, xx, yy));
                    assert(4 * (yy * ww + xx) + 4 <= 4 * (y as int * ww + x as int)) by {
                        vstd::arithmetic::mul::lemma_mul_inequality(yy + 1, y as int, ww);
                        vstd::arithmetic::mul::lemma_mul_is_distributive_add_other_way(
                            ww,
                            yy,
                            1,
                        );
                    }
                    assert(out@[4 * (yy * ww + xx)] == prev[4 * (yy * ww + xx)]);
                    assert(out@[4 * (yy * ww + xx) + 1] == prev[4 * (yy * ww + xx) + 1]);
                    assert(out@[4 * (yy * ww + xx) + 2] == prev[4 * (yy * ww + xx) + 2]);
                    assert(out@[4 * (yy * ww + xx) + 3] == prev[4 * (yy * ww + xx) + 3]);
                }
                assert forall|xx: int| 0 <= xx < x as int + 1 implies #[trigger] pixel_matches(
                    out@,
                    bb,
                    xx,
                    y as int,
                ) by {
                    if xx < x as int {
                        assert(pixel_matches(prev, bb, xx, y as int));
                        assert(out@[4 * (y as int * ww + xx)] == prev[4 * (y as int * ww + xx)]);
                        assert(out@[4 * (y as int * ww + xx) + 1] == prev[4 * (y as int * ww + xx)
                            + 1]);
                        assert(out@[4 * (y as int * ww + xx) + 2] == prev[4 * (y as int * ww + xx)
                            + 2]);
                        assert(out@[4 * (y as int * ww + xx) + 3] == prev[4 * (y as int * ww + xx)
                            + 3]);
                    }
                }
            }
            x = x + 1;
        }
        proof {
            assert(4 * (y as int * ww + w as int) == 4 * ((y as int + 1) * ww)) by {
                vstd::arithmetic::mul::lemma_mul_is_distributive_add_other_way(ww, y as int, 1);
            }
        }
        y = y + 1;
    }
    proof {
        assert(4 * (true_h as int * ww) == 4 * ww * true_h as int) by {
            vstd::arithmetic::mul::lemma_mul_is_commutative(true_h as int, ww);
            vstd::arithmetic::mul::lemma_mul_is_associative(4, ww, true_h as int);
        }
    }
    Ok(out)
}

/// For any buffer whose header is present, more than one plane is rejected
/// as planar, and — with one plane — any compression is rejected as
/// unknown, before anything else of the bitmap is looked at.
pub proof fn lemma_dib_rejects_planar_and_compressed(b: Seq<u8>)
    requires
        dib_header_wf(b),
    ensures
        dib_planes(b) != 1 ==> dib_check(b) == Err::<(), LookupError>(
            LookupError::PlanarNotSupported,
        ),
        dib_planes(b) == 1 && dib_compression(b) != 0 ==> dib_check(b) == Err::<(), LookupError>(
            LookupError::UnknownCompression,
        ),
{
}

/// The stored bytes of a 32-bit bitmap hold the top-down RGBA pixel
/// sequence `pix`: scanlines bottom to top, each pixel blue-green-red-alpha.
pub open spec fn stores_rgba32(b: Seq<u8>, pix: Seq<u8>, w: int, x: int, y: int) -> bool {
    let p = dib_xor_row(b, y) + 4 * x;
    let o = 4 * (y * w + x);
    &&& b[p] as int == pix[o + 2] as int
    &&& b[p + 1] as int == pix[o + 1] as int
    &&& b[p + 2] as int == pix[o] as int
    &&& b[p + 3] as int == pix[o + 3] as int
}

/// Round trip: a 32-bit uncompressed bitmap of true size W×H (declared
/// height 2·H) whose scanlines store a known top-down RGBA pixel sequence
/// passes validation, and decoding reproduces that sequence exactly, pixel
/// for pixel and channel for channel — whatever its trailing mask holds.
pub proof fn lemma_bitmap32_round_trip(b: Seq<u8>, pix: Seq<u8>, w: int, h: int)
    requires
        dib_header_wf(b),
        dib_bit_count(b) == 32,
        dib_planes(b) == 1,
        dib_compression(b) == 0,
        dib_width(b) == w,
        dib_height(b) == 2 * h,
        w >= 0,
        h >= 0,
        b.len() >= dib_needed_len(b),
        pix.len() == 4 * w * h,
        forall|x: int, y: int|
            0 <= x < w && 0 <= y < h ==> #[trigger] stores_rgba32(b, pix, w, x, y),
    ensures
        dib_check(b) is Ok,
        dib_true_height(b) == h,
        forall|x: int, y: int|
            0 <= x < w && 0 <= y < h ==> #[trigger] dib_rgba(b, x, y) == (
                pix[4 * (y * w + x)] as int,
                pix[4 * (y * w + x) + 1] as int,
                pix[4 * (y * w + x) + 2] as int,
                pix[4 * (y * w + x) + 3] as int,
            ),
{
    assert(dib_true_height(b) == h);
    assert forall|x: int, y: int| 0 <= x < w && 0 <= y < h implies #[trigger] dib_rgba(b, x, y)
        == (
        pix[4 * (y * w + x)] as int,
        pix[4 * (y * w + x) + 1] as int,
        pix[4 * (y * w + x) + 2] as int,
        pix[4 * (y * w + x) + 3] as int,
    ) by {
        assert(stores_rgba32(b, pix, w, x, y));
    }
}

/// Byte `k` of the little-endian encoding of `v`.
pub open spec fn le_byte(v: int, k: int) -> u8 {
    (((v / (if k == 0 {
        1int
    } else if k == 1 {
        0x100int
    } else if k == 2 {
        0x1_0000int
    } else {
        0x100_0000int
    })) % 256) as u8)
}

/// The four little-endian bytes of a 32-bit value recompose to it.
proof fn lemma_le_bytes_value(v: int)
    requires
        0 <= v < 0x1_0000_0000,
    ensures
        le_byte(v, 0) + 0x100 * le_byte(v, 1) + 0x1_0000 * le_byte(v, 2) + 0x100_0000 * le_byte(
            v,
            3,
        ) == v,
{
}

/// Header byte `i` of a synthetically built 32-bit uncompressed icon
/// bitmap of true size W×H: size 40, width W, declared height 2·H, one
/// plane, 32 bits per pixel, no compression, and every other field zero.
pub open spec fn bitmap32_header_byte(w: int, h: int, i: int) -> u8 {
    if i == 0 {
        40u8
    } else if 4 <= i < 8 {
        le_byte(w, i - 4)
    } else if 8 <= i < 12 {
        le_byte(2 * h, i - 8)
    } else if i == 12 {
        1u8
    } else if i == 14 {
        32u8
    } else {
        0u8
    }
}

/// A synthetically built 32-bit uncompressed icon bitmap: the header,
/// then the W×H pixels of the top-down RGBA sequence `pix`, stored as
/// scanlines bottom to top with each pixel in blue-green-red-alpha order.
pub open spec fn build_bitmap32(w: int, h: int, pix: Seq<u8>) -> Seq<u8> {
    Seq::new(
        (40 + 4 * w * h) as nat,
        |i: int|
            if i < 40 {
                bitmap32_header_byte(w, h, i)
            } else {
                let o = i - 40;
                let s = o / (4 * w);
                let c = (o % (4 * w)) / 4;
                let ch = o % 4;
                let base = 4 * ((h - 1 - s) * w + c);
                if ch == 0 {
                    pix[base + 2]
                } else if ch == 1 {
                    pix[base + 1]
                } else if ch == 2 {
                    pix[base]
                } else {
                    pix[base + 3]
                }
            },
    )
}

/// Data byte `ch` of pixel `(x, h-1-s0)` of a built bitmap reads the
/// right channel of the pixel sequence it was built from.
proof fn lemma_build_data_byte(w: int, h: int, pix: Seq<u8>, s0: int, x: int, ch: int)
    requires
        1 <= w,
        0 <= h,
        pix.len() == 4 * w * h,
        0 <= s0 < h,
        0 <= x < w,
        0 <= ch < 4,
    ensures
        ({
            let b = build_bitmap32(w, h, pix);
            let i = 40 + s0 * (4 * w) + 4 * x + ch;
            let base = 4 * ((h - 1 - s0) * w + x);
            &&& 40 <= i < b.len()
            &&& b[i] == (if ch == 0 {
                pix[base + 2]
            } else if ch == 1 {
                pix[base + 1]
            } else if ch == 2 {
                pix[base]
            } else {
                pix[base + 3]
            })
        }),
{
    let b = build_bitmap32(w, h, pix);
    let i = 40 + s0 * (4 * w) + 4 * x + ch;
    let o = i - 40;
    vstd::arithmetic::mul::lemma_mul_nonnegative(s0, 4 * w);
    assert(s0 * (4 * w) + 4 * w <= h * (4 * w)) by {
        vstd::arithmetic::mul::lemma_mul_inequality(s0 + 1, h, 4 * w);
        vstd::arithmetic::mul::lemma_mul_is_distributive_add_other_way(4 * w, s0, 1);
    }
    assert(h * (4 * w) == 4 * w * h) by {
        vstd::arithmetic::mul::lemma_mul_is_commutative(h, 4 * w);
        vstd::arithmetic::mul::lemma_mul_is_associative(4, w, h);
    }
    assert(b.len() == 40 + 4 * w * h);
    vstd::arithmetic::div_mod::lemma_fundamental_div_mod_converse_div(o, 4 * w, s0, 4 * x + ch);
    vstd::arithmetic::div_mod::lemma_fundamental_div_mod_converse_mod(o, 4 * w, s0, 4 * x + ch);
    vstd::arithmetic::div_mod::lemma_fundamental_div_mod_converse_div(4 * x + ch, 4, x, ch);
    vstd::arithmetic::div_mod::lemma_fundamental_div_mod_converse_mod(4 * x + ch, 4, x, ch);
    assert(o == (s0 * w + x) * 4 + ch) by {
        vstd::arithmetic::mul::lemma_mul_is_distributive_add_other_way(4, s0 * w, x);
        vstd::arithmetic::mul::lemma_mul_is_commutative(s0 * w + x, 4);
        vstd::arithmetic::mul::lemma_mul_is_commutative(s0 * w, 4);
        vstd::arithmetic::mul::lemma_mul_is_commutative(s0, 4 * w);
        vstd::arithmetic::mul::lemma_mul_is_associative(4, w, s0);
        vstd::arithmetic::mul::lemma_mul_is_commutative(w, s0);
        vstd::arithmetic::mul::lemma_mul_is_associative(4, s0, w);
    }
    vstd::arithmetic::div_mod::lemma_fundamental_div_mod_converse_mod(o, 4, s0 * w + x, ch);
    assert(o / (4 * w) == s0 && (o % (4 * w)) / 4 == x && o % 4 == ch);
}

/// Round trip: a synthetically built 32-bit uncompressed bitmap of true
/// size W×H passes every validation step, and decoding it reproduces the
/// pixel values it was built from, exactly.
pub proof fn lemma_build_bitmap32_round_trip(w: int, h: int, pix: Seq<u8>)
    requires
        1 <= w <= 0x7fff_ffff,
        0 <= h <= 0x3fff_ffff,
        pix.len() == 4 * w * h,
    ensures
        ({
            let b = build_bitmap32(w, h, pix);
            &&& dib_check(b) is Ok
            &&& dib_width(b) == w
            &&& dib_true_height(b) == h
            &&& forall|x: int, y: int|
                0 <= x < w && 0 <= y < h ==> #[trigger] dib_rgba(b, x, y) == (
                    pix[4 * (y * w + x)] as int,
                    pix[4 * (y * w + x) + 1] as int,
                    pix[4 * (y * w + x) + 2] as int,
                    pix[4 * (y * w + x) + 3] as int,
                )
        }),
{
    let b = build_bitmap32(w, h, pix);
    vstd::arithmetic::mul::lemma_mul_nonnegative(w, h);
    vstd::arithmetic::mul::lemma_mul_is_associative(4, w, h);
    assert(b.len() == 40 + 4 * w * h);
    assert(spec_le32(b, 0) == 40);
    assert(dib_width(b) == w) by {
        lemma_le_bytes_value(w);
    }
    assert(dib_height(b) == 2 * h) by {
        lemma_le_bytes_value(2 * h);
    }
    assert(dib_planes(b) == 1);
    assert(dib_bit_count(b) == 32);
    assert(dib_compression(b) == 0);
    assert(dib_colors_used(b) == 0);
    assert(dib_true_height(b) == h);
    assert(dib_xor_stride(b) == 4 * w) by {
        lemma_xor_stride_eq(b, 32);
        assert((32 * w + 31) / 32 == w);
    }
    assert(dib_mask_offset(b) == 40 + (4 * w) * h);
    assert(b.len() >= dib_needed_len(b)) by {
        vstd::arithmetic::mul::lemma_mul_is_associative(4, w, h);
    }
    assert forall|x: int, y: int| 0 <= x < w && 0 <= y < h implies #[trigger] stores_rgba32(
        b,
        pix,
        w,
        x,
        y,
    ) by {
        let s0 = h - 1 - y;
        let p = dib_xor_row(b, y) + 4 * x;
        assert(p == 40 + s0 * (4 * w) + 4 * x);
        vstd::arithmetic::mul::lemma_mul_nonnegative(s0, 4 * w);
        vstd::arithmetic::mul::lemma_mul_inequality(s0, h - 1, 4 * w);
        assert(s0 * (4 * w) + 4 * w <= h * (4 * w)) by {
            vstd::arithmetic::mul::lemma_mul_is_distributive_add_other_way(4 * w, h - 1, 1);
        }
        assert(h * (4 * w) == 4 * w * h) by {
            vstd::arithmetic::mul::lemma_mul_is_commutative(h, 4 * w);
            vstd::arithmetic::mul::lemma_mul_is_associative(4, w, h);
        }
        let base = 4 * (y * w + x);
        assert(base + 4 <= 4 * w * h) by {
            vstd::arithmetic::mul::lemma_mul_inequality(y + 1, h, w);
            vstd::arithmetic::mul::lemma_mul_is_distributive_add_other_way(w, y, 1);
            vstd::arithmetic::mul::lemma_mul_is_commutative(h, w);
            vstd::arithmetic::mul::lemma_mul_is_associative(4, w, h);
        }
        lemma_build_data_byte(w, h, pix, s0, x, 0);
        lemma_build_data_byte(w, h, pix, s0, x, 1);
        lemma_build_data_byte(w, h, pix, s0, x, 2);
        lemma_build_data_byte(w, h, pix, s0, x, 3);
        assert(b[p] == pix[base + 2]);
        assert(b[p + 1] == pix[base + 1]);
        assert(b[p + 2] == pix[base]);
        assert(b[p + 3] == pix[base + 3]);
    }
    lemma_bitmap32_round_trip(b, pix, w, h);
}

} // verus!
