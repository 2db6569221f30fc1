//! Little-endian fields in a byte slice.
//!
//! Every Mach-O structure that the library reads is a run of little-endian
//! integers at fixed offsets, as on every platform that loads such images
//! today.

use vstd::prelude::*;

verus! {

/// The 32-bit little-endian integer that the four bytes from `at` on hold.
pub open spec fn le_u32(s: Seq<u8>, at: int) -> u32 {
    (s[at] + 0x100 * s[at + 1] + 0x1_0000 * s[at + 2] + 0x100_0000 * s[at + 3]) as u32
}

/// The 64-bit little-endian integer that the eight bytes from `at` on hold.
pub open spec fn le_u64(s: Seq<u8>, at: int) -> u64 {
    (le_u32(s, at) + 0x1_0000_0000 * le_u32(s, at + 4)) as u64
}

/// Whether `len` bytes from `at` on lie inside a slice of `total` bytes.
pub open spec fn in_bounds(total: int, at: int, len: int) -> bool {
    0 <= at && 0 <= len && at + len <= total
}

/// Reads the 32-bit field at `at`, or nothing if it does not lie inside
/// `bytes`.
pub fn read_u32(bytes: &[u8], at: usize) -> (r: Option<u32>)
    ensures
        r is Some <==> in_bounds(bytes@.len() as int, at as int, 4),
        r matches Some(v) ==> v == le_u32(bytes@, at as int),
{
    if bytes.len() < 4 || at > bytes.len() - 4 {
        return None;
    }
    let b0: u32 = bytes[at] as u32;
    let b1: u32 = bytes[at + 1] as u32;
    let b2: u32 = bytes[at + 2] as u32;
    let b3: u32 = bytes[at + 3] as u32;
    Some(b0 + 0x100 * b1 + 0x1_0000 * b2 + 0x100_0000 * b3)
}

/// Reads the 64-bit field at `at`, or nothing if it does not lie inside
/// `bytes`.
pub fn read_u64(bytes: &[u8], at: usize) -> (r: Option<u64>)
    ensures
        r is Some <==> in_bounds(bytes@.len() as int, at as int, 8),
        r matches Some(v) ==> v == le_u64(bytes@, at as int),
{
    if bytes.len() < 8 || at > bytes.len() - 8 {
        return None;
    }
    let low: Option<u32> = read_u32(bytes, at);
    let high: Option<u32> = read_u32(bytes, at + 4);
    match (low, high) {
        (Some(l), Some(h)) => {
            let l64: u64 = l as u64;
            let h64: u64 = h as u64;
            Some(l64 + 0x1_0000_0000 * h64)
        },
        _ => None,
    }
}

} // verus!
