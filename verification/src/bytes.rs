//! Little- and big-endian integer fields read out of raw byte buffers.

use vstd::prelude::*;

verus! {

/// The little-endian 16-bit value stored at offset `i`.
pub open spec fn spec_le16(b: Seq<u8>, i: int) -> int {
    b[i] + 0x100 * b[i + 1]
}

/// The little-endian 32-bit value stored at offset `i`.
pub open spec fn spec_le32(b: Seq<u8>, i: int) -> int {
    b[i] + 0x100 * b[i + 1] + 0x1_0000 * b[i + 2] + 0x100_0000 * b[i + 3]
}

/// The big-endian 32-bit value stored at offset `i`.
pub open spec fn spec_be32(b: Seq<u8>, i: int) -> int {
    0x100_0000 * b[i] + 0x1_0000 * b[i + 1] + 0x100 * b[i + 2] + b[i + 3]
}

/// Reinterpretation of a 32-bit unsigned value as a two's-complement
/// signed value.
pub open spec fn spec_signed32(x: int) -> int {
    if x >= 0x8000_0000 {
        x - 0x1_0000_0000
    } else {
        x
    }
}

pub fn read_le16(b: &[u8], i: usize) -> (r: u16)
    requires
        i + 2 <= b@.len(),
    ensures
        r == spec_le16(b@, i as int),
{
    b[i] as u16 + 0x100 * (b[i + 1] as u16)
}

pub fn read_le32(b: &[u8], i: usize) -> (r: u32)
    requires
        i + 4 <= b@.len(),
    ensures
        r == spec_le32(b@, i as int),
{
    b[i] as u32 + 0x100 * (b[i + 1] as u32) + 0x1_0000 * (b[i + 2] as u32) + 0x100_0000 * (b[i
        + 3] as u32)
}

pub fn read_be32(b: &[u8], i: usize) -> (r: u32)
    requires
        i + 4 <= b@.len(),
    ensures
        r == spec_be32(b@, i as int),
{
    0x100_0000 * (b[i] as u32) + 0x1_0000 * (b[i + 1] as u32) + 0x100 * (b[i + 2] as u32) + b[i
        + 3] as u32
}

/// Reads a little-endian 32-bit field as a signed quantity.
pub fn read_le32_signed(b: &[u8], i: usize) -> (r: i32)
    requires
        i + 4 <= b@.len(),
    ensures
        r == spec_signed32(spec_le32(b@, i as int)),
{
    let u = read_le32(b, i);
    reinterpret_signed32(u)
}

/// Reads a big-endian 32-bit field as a signed quantity.
pub fn read_be32_signed(b: &[u8], i: usize) -> (r: i32)
    requires
        i + 4 <= b@.len(),
    ensures
        r == spec_signed32(spec_be32(b@, i as int)),
{
    let u = read_be32(b, i);
    reinterpret_signed32(u)
}

/// Two's-complement reinterpretation of an unsigned 32-bit value.
pub fn reinterpret_signed32(u: u32) -> (r: i32)
    ensures
        r == spec_signed32(u as int),
{
    if u >= 0x8000_0000 {
        -((0xFFFF_FFFFu32 - u) as i32) - 1
    } else {
        u as i32
    }
}

} // verus!
