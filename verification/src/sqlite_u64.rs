//! Storing unsigned 64-bit values in SQLite's signed 64-bit integers.
use vstd::prelude::*;

verus! {

/// Half of `2^64`: the distance between the unsigned and the signed ranges.
pub const OFFSET: u64 = 9_223_372_036_854_775_808;

/// The order-preserving map of `u64` onto `i64`: subtract `2^63`.
pub fn u64_to_i64_shift(value: u64) -> (r: i64)
    ensures
        r == value - 0x8000_0000_0000_0000,
{
    let w = value.wrapping_sub(OFFSET);
    assert((value.wrapping_sub(OFFSET) as i64) == value - 0x8000_0000_0000_0000) by (bit_vector);
    w as i64
}

/// The inverse of `u64_to_i64_shift`: add `2^63`.
pub fn i64_to_u64_shift(value: i64) -> (r: u64)
    ensures
        r == value + 0x8000_0000_0000_0000,
{
    let u = value as u64;
    assert(((value as u64).wrapping_add(OFFSET)) == value + 0x8000_0000_0000_0000) by (bit_vector);
    u.wrapping_add(OFFSET)
}

/// Shifting into the signed range and back gives the value back, both ways.
pub proof fn lemma_shift_roundtrip(u: u64, i: i64)
    ensures
        u - 0x8000_0000_0000_0000 + 0x8000_0000_0000_0000 == u,
        i64::MIN <= u - 0x8000_0000_0000_0000 <= i64::MAX,
        0 <= i + 0x8000_0000_0000_0000 <= u64::MAX,
        i + 0x8000_0000_0000_0000 - 0x8000_0000_0000_0000 == i,
{
}

/// The `i64` with the same bits as a `u64`.
pub fn u64_to_i64_transmute(value: u64) -> (r: i64)
    ensures
        r == (if value <= i64::MAX { value as int } else { value - 0x1_0000_0000_0000_0000 }),
{
    assert((value as i64) == (if value <= 0x7FFF_FFFF_FFFF_FFFFu64 { value as int } else {
        value - 0x1_0000_0000_0000_0000
    })) by (bit_vector);
    value as i64
}

/// The `u64` with the same bits as an `i64`.
pub fn i64_to_u64_transmute(value: i64) -> (r: u64)
    ensures
        r == (if value >= 0 { value as int } else { value + 0x1_0000_0000_0000_0000 }),
{
    assert((value as u64) == (if value >= 0 { value as int } else { value + 0x1_0000_0000_0000_0000 }))
        by (bit_vector);
    value as u64
}

/// The `i64` with the same bits as a `u64` (see `u64_to_i64_transmute`).
pub fn u64_to_i64_ptr(value: u64) -> (r: i64)
    ensures
        r == (if value <= i64::MAX { value as int } else { value - 0x1_0000_0000_0000_0000 }),
{
    u64_to_i64_transmute(value)
}

/// The `u64` with the same bits as an `i64` (see `i64_to_u64_transmute`).
pub fn i64_to_u64_ptr(value: i64) -> (r: u64)
    ensures
        r == (if value >= 0 { value as int } else { value + 0x1_0000_0000_0000_0000 }),
{
    i64_to_u64_transmute(value)
}

} // verus!
