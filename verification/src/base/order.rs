use vstd::prelude::*;

verus! {

/// The sign bit of a 64-bit IEEE 754 pattern.
pub const SIGN_BIT: u64 = 0x8000_0000_0000_0000;

/// The pattern of positive infinity: every exponent bit set, no mantissa bit.
pub const INFINITY_BITS: u64 = 0x7FF0_0000_0000_0000;

/// The pattern without its sign bit.
pub open spec fn magnitude(bits: u64) -> int {
    if bits >= SIGN_BIT {
        bits - SIGN_BIT
    } else {
        bits as int
    }
}

/// Whether the pattern is one of the NaN patterns: its magnitude lies above
/// that of infinity.
pub open spec fn is_nan(bits: u64) -> bool {
    magnitude(bits) > INFINITY_BITS
}

/// The pattern read as sign and magnitude: the magnitude itself where the
/// sign bit is clear, its negation where it is set. Both zeros read as 0.
pub open spec fn signed_magnitude(bits: u64) -> int {
    if bits >= SIGN_BIT {
        -(bits - SIGN_BIT)
    } else {
        bits as int
    }
}

/// An integer that orders 64-bit floating-point patterns as the numbers they
/// stand for are ordered. IEEE 754 lays the patterns out so that, NaN aside,
/// a number is smaller than another exactly when its sign-and-magnitude
/// reading is smaller, and the two zeros are the only distinct patterns that
/// compare equal. That fact about the number format is not proved here; what
/// is proved is that the key is the sign-and-magnitude reading, and that NaN
/// patterns, which compare with nothing, get no key.
pub fn order_key(bits: u64) -> (key: Option<i64>)
    ensures
        key is None <==> is_nan(bits),
        key matches Some(k) ==> k == signed_magnitude(bits),
{
    let negative = bits >= SIGN_BIT;
    let mag: u64 = if negative {
        bits - SIGN_BIT
    } else {
        bits
    };
    if mag > INFINITY_BITS {
        None
    } else if negative {
        Some(-(mag as i64))
    } else {
        Some(mag as i64)
    }
}

/// Distinct patterns have distinct keys, but for the two zeros, which share
/// the key 0.
pub proof fn lemma_key_identifies_pattern(a: u64, b: u64)
    requires
        signed_magnitude(a) == signed_magnitude(b),
    ensures
        a == b || (magnitude(a) == 0 && magnitude(b) == 0),
{
}

/// Among patterns with the sign bit clear a larger pattern has a larger key;
/// among those with it set a larger pattern has a smaller key; and no key of
/// a pattern with the sign bit set lies above one of a pattern with it clear.
pub proof fn lemma_key_order(a: u64, b: u64)
    ensures
        a < SIGN_BIT && b < SIGN_BIT ==> (a < b <==> signed_magnitude(a) < signed_magnitude(b)),
        a >= SIGN_BIT && b >= SIGN_BIT ==> (a < b <==> signed_magnitude(a) > signed_magnitude(b)),
        a >= SIGN_BIT && b < SIGN_BIT ==> signed_magnitude(a) <= signed_magnitude(b),
        -INFINITY_BITS <= signed_magnitude(a) <= INFINITY_BITS <==> !is_nan(a),
{
}

} // verus!
