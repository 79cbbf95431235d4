//! Depth keys: the `u32` that the depth buffers hold for a depth, computed
//! from the IEEE-754 single-precision bit pattern of the depth (as
//! `f32::to_bits` gives it). Keys compare as the depths do, so the depth
//! test can compare keys.
use vstd::prelude::*;

use crate::planet_lab::framebuffer::FAR_DEPTH;

verus! {

/// The bit pattern is a NaN: all exponent bits set and a non-zero fraction.
pub open spec fn is_nan_bits(bits: u32) -> bool {
    bits & 0x7F80_0000u32 == 0x7F80_0000u32 && bits & 0x007F_FFFFu32 != 0
}

/// The order value of a non-NaN bit pattern: its magnitude bits (exponent
/// and fraction, which order the magnitudes of IEEE-754 numbers, infinity
/// included) with the sign bit applied. Two non-NaN singles compare as
/// their order values do; `-0.0` and `0.0` both have order value 0.
pub open spec fn order_value(bits: u32) -> int {
    let m = (bits & 0x7FFF_FFFFu32) as int;
    if bits & 0x8000_0000u32 != 0 {
        -m
    } else {
        m
    }
}

/// The key of a depth with bit pattern `bits`: NaN gets the largest key,
/// so that it is never nearer than anything; any other depth gets its
/// order value moved into the unsigned range, negatives below positives.
pub open spec fn depth_key_spec(bits: u32) -> u32 {
    if is_nan_bits(bits) {
        u32::MAX
    } else if order_value(bits) < 0 {
        (0x7FFF_FFFF + order_value(bits)) as u32
    } else {
        (0x8000_0000 + order_value(bits)) as u32
    }
}

/// The depth key of the single whose bit pattern is `bits`.
pub fn depth_key(bits: u32) -> (key: u32)
    ensures
        key == depth_key_spec(bits),
        is_nan_bits(bits) ==> key == u32::MAX,
        bits == 0x7F80_0000u32 ==> key == FAR_DEPTH,
        bits == 0x8000_0000u32 ==> key == depth_key_spec(0),
{
    assert(0x7F80_0000u32 & 0x007F_FFFFu32 == 0 && 0x7F80_0000u32 & 0x7FFF_FFFFu32 == 0x7F80_0000u32
        && 0x7F80_0000u32 & 0x8000_0000u32 == 0) by (bit_vector);
    assert(0x8000_0000u32 & 0x7F80_0000u32 == 0 && 0x8000_0000u32 & 0x7FFF_FFFFu32 == 0 && 0u32
        & 0x7FFF_FFFFu32 == 0 && 0u32 & 0x8000_0000u32 == 0 && 0u32 & 0x7F80_0000u32 == 0)
        by (bit_vector);
    let nan = bits & 0x7F80_0000u32 == 0x7F80_0000u32 && bits & 0x007F_FFFFu32 != 0;
    if nan {
        return u32::MAX;
    }
    if bits == 0x8000_0000u32 {
        return 0x8000_0000u32;
    }
    if bits & 0x8000_0000u32 != 0 {
        assert(bits & 0x8000_0000u32 != 0 && bits != 0x8000_0000u32 ==> (!bits == 0x7FFF_FFFFu32 - (bits
            & 0x7FFF_FFFFu32) && (bits & 0x7FFF_FFFFu32) != 0)) by (bit_vector);
        !bits
    } else {
        assert(bits & 0x8000_0000u32 == 0 ==> (bits | 0x8000_0000u32 == 0x8000_0000u32 + (bits
            & 0x7FFF_FFFFu32) && bits & 0x7FFF_FFFFu32 == bits)) by (bit_vector);
        assert(0x7F80_0000u32 & 0x7FFF_FFFFu32 == 0x7F80_0000u32 && 0x7F80_0000u32 & 0x8000_0000u32
            == 0) by (bit_vector);
        assert(0x7F80_0000u32 & 0x007F_FFFFu32 == 0) by (bit_vector);
        bits | 0x8000_0000u32
    }
}

/// Keys order depths as the depths order themselves: for any two non-NaN
/// singles, one key is below the other exactly when its depth is below the
/// other's, and the keys are equal exactly when the depths are equal
/// (`-0.0` and `0.0` share a key). A NaN's key is at least every key.
pub proof fn lemma_depth_key_order(a: u32, b: u32)
    ensures
        !is_nan_bits(a) && !is_nan_bits(b) ==> (depth_key_spec(a) < depth_key_spec(b) <==> order_value(a)
            < order_value(b)),
        !is_nan_bits(a) && !is_nan_bits(b) ==> (depth_key_spec(a) == depth_key_spec(b) <==> order_value(a)
            == order_value(b)),
        is_nan_bits(a) ==> depth_key_spec(b) <= depth_key_spec(a),
{
    assert(a & 0x7FFF_FFFFu32 <= 0x7FFF_FFFFu32) by (bit_vector);
    assert(b & 0x7FFF_FFFFu32 <= 0x7FFF_FFFFu32) by (bit_vector);
}

} // verus!
