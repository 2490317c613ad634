//! Fixed-width integers read from a byte buffer.

use vstd::prelude::*;
use vstd::slice::slice_subrange;

verus! {

/// The unsigned 16-bit integer whose little-endian bytes start at `at`.
pub open spec fn le_u16(bytes: Seq<u8>, at: int) -> int {
    bytes[at] as int + 256 * (bytes[at + 1] as int)
}

/// The unsigned 32-bit integer whose little-endian bytes start at `at`.
pub open spec fn le_u32(bytes: Seq<u8>, at: int) -> int {
    bytes[at] as int + 256 * (bytes[at + 1] as int) + 65536 * (bytes[at + 2] as int) + 16777216
        * (bytes[at + 3] as int)
}

/// The value of a 32-bit field read as a two's complement signed integer.
pub open spec fn signed32(v: int) -> int {
    if v < 0x8000_0000 {
        v
    } else {
        v - 0x1_0000_0000
    }
}

/// Reads the little-endian `u32` held in the first four bytes of `slice`.
pub fn u32_from_slice(slice: &[u8]) -> (v: u32)
    requires
        slice@.len() >= 4,
    ensures
        v == le_u32(slice@, 0),
{
    let b0: u32 = slice[0] as u32;
    let b1: u32 = slice[1] as u32;
    let b2: u32 = slice[2] as u32;
    let b3: u32 = slice[3] as u32;
    b0 + 256 * b1 + 65536 * b2 + 16777216 * b3
}

/// Reads the little-endian `u16` held in the first two bytes of `slice`.
pub fn u16_from_slice(slice: &[u8]) -> (v: u16)
    requires
        slice@.len() >= 2,
    ensures
        v == le_u16(slice@, 0),
{
    let b0: u16 = slice[0] as u16;
    let b1: u16 = slice[1] as u16;
    b0 + 256 * b1
}

/// Reads the little-endian `u32` at offset `at` of `bytes`.
pub fn read_u32(bytes: &[u8], at: usize) -> (v: u32)
    requires
        at + 4 <= bytes@.len(),
    ensures
        v == le_u32(bytes@, at as int),
{
    let len: usize = bytes.len();
    assert(at + 4 <= len);
    u32_from_slice(slice_subrange(bytes, at, at + 4))
}

/// Reads the little-endian `u16` at offset `at` of `bytes`.
pub fn read_u16(bytes: &[u8], at: usize) -> (v: u16)
    requires
        at + 2 <= bytes@.len(),
    ensures
        v == le_u16(bytes@, at as int),
{
    let len: usize = bytes.len();
    assert(at + 2 <= len);
    u16_from_slice(slice_subrange(bytes, at, at + 2))
}

/// Reinterprets a 32-bit field as a two's complement signed integer.
pub fn to_signed(v: u32) -> (s: i32)
    ensures
        s == signed32(v as int),
{
    if v < 0x8000_0000 {
        v as i32
    } else {
        let low: i32 = (v - 0x8000_0000) as i32;
        low + i32::MIN
    }
}

} // verus!
