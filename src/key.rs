//! Order keys for the bit patterns of single-precision floats.
//!
//! An IEEE 754 single is stored as a sign bit over a 31-bit magnitude, and
//! for every value that is not NaN, the order of the values is the order of
//! the signed magnitudes (both zeros being equal). The key below maps that
//! signed magnitude onto `u32` without changing its order, so that the
//! histogram can count such values with integer comparisons alone.
use vstd::prelude::*;

verus! {

/// The signed magnitude of a single-precision bit pattern: its low 31 bits,
/// negated when the sign bit is set.
pub open spec fn signed_magnitude(bits: u32) -> int {
    if bits >= 0x8000_0000 {
        -(bits - 0x8000_0000)
    } else {
        bits as int
    }
}

/// The bit pattern is a NaN: all exponent bits set and a nonzero fraction.
pub open spec fn is_nan(b: u32) -> bool {
    b % 0x8000_0000 > 0x7f80_0000
}

/// The order key of a single-precision bit pattern: its signed magnitude
/// shifted up by `2^31`. Two patterns compare as their keys do, and the two
/// zeros share one key.
/// A NaN is ordered against nothing and has no key.
pub fn order_key(bits: u32) -> (r: u32)
    requires
        !is_nan(bits),
    ensures
        r as int == 0x8000_0000 + signed_magnitude(bits),
{
    if bits >= 0x8000_0000 {
        0x8000_0000 - (bits - 0x8000_0000)
    } else {
        0x8000_0000 + bits
    }
}

/// The bit pattern of a key: the inverse of `order_key`, giving positive
/// zero for the key that both zeros share. Key zero belongs to no pattern.
pub fn key_bits(key: u32) -> (r: u32)
    requires
        key > 0,
    ensures
        0x8000_0000 + signed_magnitude(r) == key as int,
        r != 0x8000_0000,
{
    if key >= 0x8000_0000 {
        key - 0x8000_0000
    } else {
        0x8000_0000 + (0x8000_0000 - key)
    }
}

/// Two bit patterns share a signed magnitude, and so a key, exactly when
/// they are equal or are the two zeros.
pub proof fn lemma_signed_magnitude_shared(a: u32, b: u32)
    ensures
        signed_magnitude(a) == signed_magnitude(b) <==> (a == b || (a == 0 && b == 0x8000_0000)
            || (a == 0x8000_0000 && b == 0)),
        -0x7fff_ffff <= signed_magnitude(a) <= 0x7fff_ffff,
{
}

} // verus!
