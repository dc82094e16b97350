//! IEEE-754 bit patterns.
//!
//! Floating-point payloads travel as their bit patterns: a binary64 value is a
//! `u64`, a binary32 value is four little-endian bytes. The codec only needs
//! to tell NaN apart, to bound a magnitude and to normalise negative zero, and
//! all three are statements about the bits.
//!
//! A binary64 pattern is a sign bit, eleven exponent bits and 52 fraction
//! bits. Without the sign, patterns order as the magnitudes they stand for;
//! infinity is `0x7FF0_0000_0000_0000`, and every pattern above it is NaN.

use vstd::prelude::*;

verus! {

/// The sign bit of a binary64 pattern; also the pattern of negative zero.
pub const DOUBLE_SIGN_BIT: u64 = 0x8000_0000_0000_0000;

/// The pattern of positive infinity.
pub const DOUBLE_INFINITY: u64 = 0x7FF0_0000_0000_0000;

/// The pattern of 90.0, the largest latitude.
pub const DOUBLE_90: u64 = 0x4056_8000_0000_0000;

/// The pattern of 180.0, the largest longitude.
pub const DOUBLE_180: u64 = 0x4066_8000_0000_0000;

/// The pattern of positive infinity in binary32.
pub const SINGLE_INFINITY: u32 = 0x7F80_0000;

/// The pattern without its sign bit.
pub open spec fn double_magnitude(bits: u64) -> u64 {
    (bits % 0x8000_0000_0000_0000) as u64
}

/// The pattern stands for NaN.
pub open spec fn double_is_nan(bits: u64) -> bool {
    double_magnitude(bits) > DOUBLE_INFINITY
}

/// The pattern stands for a number whose absolute value is above that of `limit`.
///
/// NaN is above nothing, as in a floating-point comparison.
pub open spec fn double_exceeds(bits: u64, limit: u64) -> bool {
    !double_is_nan(bits) && double_magnitude(bits) > limit
}

/// Negative zero becomes positive zero; every other pattern stays.
pub open spec fn double_normalized(bits: u64) -> u64 {
    if bits == DOUBLE_SIGN_BIT {
        0
    } else {
        bits
    }
}

/// The binary32 magnitude held in four little-endian bytes.
pub open spec fn single_magnitude(b0: u8, b1: u8, b2: u8, b3: u8) -> nat {
    (b0 + 256 * b1 + 65536 * b2 + 16777216 * (b3 % 128)) as nat
}

/// The four little-endian bytes stand for a binary32 NaN.
pub open spec fn single_is_nan(b0: u8, b1: u8, b2: u8, b3: u8) -> bool {
    single_magnitude(b0, b1, b2, b3) > SINGLE_INFINITY
}

/// Some four-byte group of `data` is a binary32 NaN.
pub open spec fn singles_have_nan(data: Seq<u8>) -> bool {
    exists|k: int| 0 <= k && 4 * k + 3 < data.len() && #[trigger] single_nan_at(data, k)
}

/// The `k`-th four-byte group of `data` is a binary32 NaN.
pub open spec fn single_nan_at(data: Seq<u8>, k: int) -> bool {
    single_is_nan(data[4 * k], data[4 * k + 1], data[4 * k + 2], data[4 * k + 3])
}

/// Tells whether a binary64 pattern is NaN.
pub fn is_nan_bits(bits: u64) -> (res: bool)
    ensures
        res == double_is_nan(bits),
{
    bits % 0x8000_0000_0000_0000 > DOUBLE_INFINITY
}

/// Tells whether the number behind a pattern lies outside `[-limit, limit]`.
pub fn exceeds_bits(bits: u64, limit: u64) -> (res: bool)
    ensures
        res == double_exceeds(bits, limit),
{
    let magnitude: u64 = bits % 0x8000_0000_0000_0000;
    magnitude <= DOUBLE_INFINITY && magnitude > limit
}

/// Replaces negative zero by positive zero.
pub fn normalize_zero_bits(bits: u64) -> (res: u64)
    ensures
        res == double_normalized(bits),
{
    if bits == DOUBLE_SIGN_BIT {
        0
    } else {
        bits
    }
}

/// Tells whether any four-byte group of `data` is a binary32 NaN.
pub fn has_nan_single(data: &[u8]) -> (res: bool)
    ensures
        res == singles_have_nan(data@),
{
    let mut i: usize = 0;
    while i + 3 < data.len() && i < usize::MAX - 3
        invariant
            i % 4 == 0,
            forall|k: int| 0 <= k && 4 * k < i ==> !single_nan_at(data@, k),
        decreases data.len() - i,
    {
        let magnitude: u32 = data[i] as u32 + 256 * (data[i + 1] as u32) + 65536 * (data[i + 2] as u32)
            + 16777216 * ((data[i + 3] % 128) as u32);
        if magnitude > SINGLE_INFINITY {
            proof {
                assert(single_nan_at(data@, i as int / 4));
            }
            return true;
        }
        proof {
            assert forall|k: int| 0 <= k && 4 * k < i + 4 implies !single_nan_at(data@, k) by {
                if 4 * k >= i {
                    assert(k == i as int / 4);
                }
            }
        }
        i = i + 4;
    }
    false
}

} // verus!
