//! Zigzag mapping between signed and unsigned integers of a common width:
//! small magnitudes of either sign map to small unsigned codes, so they take
//! few bytes under the bit7 encoding.

use vstd::prelude::*;

verus! {

/// The zigzag image of a signed value: non-negative `v` maps to `2*v`,
/// negative `v` to `-2*v - 1`.
pub open spec fn zigzag(v: int) -> int {
    if v >= 0 {
        2 * v
    } else {
        -2 * v - 1
    }
}

/// The inverse of `zigzag`: even codes are halved, odd codes fold back to
/// the negatives.
pub open spec fn unzigzag(u: int) -> int
    recommends
        u >= 0,
{
    if u % 2 == 0 {
        u / 2
    } else {
        -(u / 2) - 1
    }
}

/// Zigzag round trip: decoding an encoded signed value gives it back, over
/// the whole signed range of every width.
pub proof fn lemma_zigzag_round_trip(v: int)
    ensures
        unzigzag(zigzag(v)) == v,
{
}

/// Zigzag is onto: every unsigned code is the image of its decoding.
pub proof fn lemma_zigzag_onto(u: int)
    requires
        u >= 0,
    ensures
        zigzag(unzigzag(u)) == u,
{
}

pub fn zig_zag_encode_u16(v: i16) -> (r: u16)
    ensures
        r as int == zigzag(v as int),
{
    if v >= 0 {
        (v as u16) * 2
    } else {
        let m: i32 = -(v as i32);
        (2 * m - 1) as u16
    }
}

pub fn zig_zag_encode_u32(v: i32) -> (r: u32)
    ensures
        r as int == zigzag(v as int),
{
    if v >= 0 {
        (v as u32) * 2
    } else {
        let m: i64 = -(v as i64);
        (2 * m - 1) as u32
    }
}

pub fn zig_zag_encode_u64(v: i64) -> (r: u64)
    ensures
        r as int == zigzag(v as int),
{
    if v >= 0 {
        (v as u64) * 2
    } else {
        let m: i128 = -(v as i128);
        (2 * m - 1) as u64
    }
}

pub fn zig_zag_decode_i16(v: u16) -> (r: i16)
    ensures
        r as int == unzigzag(v as int),
{
    let h: u16 = v / 2;
    if v % 2 == 0 {
        h as i16
    } else {
        (-(h as i32) - 1) as i16
    }
}

pub fn zig_zag_decode_i32(v: u32) -> (r: i32)
    ensures
        r as int == unzigzag(v as int),
{
    let h: u32 = v / 2;
    if v % 2 == 0 {
        h as i32
    } else {
        (-(h as i64) - 1) as i32
    }
}

pub fn zig_zag_decode_i64(v: u64) -> (r: i64)
    ensures
        r as int == unzigzag(v as int),
{
    let h: u64 = v / 2;
    if v % 2 == 0 {
        h as i64
    } else {
        (-(h as i128) - 1) as i64
    }
}

} // verus!
