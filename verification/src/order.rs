//! The order of double-precision numbers, read off their bit patterns.
use vstd::prelude::*;

verus! {

/// The exponent field with every bit set: the pattern of positive infinity.
pub const INFINITY_BITS: u64 = 0x7ff0_0000_0000_0000;

/// The bit that holds the sign.
pub const SIGN_BIT: u64 = 0x8000_0000_0000_0000;

/// The pattern without its sign.
pub open spec fn magnitude_bits(bits: u64) -> int {
    (bits % SIGN_BIT) as int
}

/// Whether the pattern is one of those that stand for no number.
pub open spec fn is_nan(bits: u64) -> bool {
    magnitude_bits(bits) > INFINITY_BITS
}

/// A whole number that orders patterns as the numbers that they stand for: both
/// zeros have rank zero, and the ranks of two numbers compare as the numbers do.
pub open spec fn rank(bits: u64) -> int {
    if bits < SIGN_BIT {
        magnitude_bits(bits)
    } else {
        -magnitude_bits(bits)
    }
}

/// Whether the number of pattern `a` is less than that of pattern `b`; false where
/// either stands for no number.
pub open spec fn bits_less(a: u64, b: u64) -> bool {
    !is_nan(a) && !is_nan(b) && rank(a) < rank(b)
}

/// The rank of a pattern, or `None` where it stands for no number.
pub fn rank_of_bits(bits: u64) -> (r: Option<i64>)
    ensures
        r matches Some(k) ==> !is_nan(bits) && k == rank(bits),
        r is None <==> is_nan(bits),
{
    let magnitude: u64 = if bits < SIGN_BIT {
        bits
    } else {
        bits - SIGN_BIT
    };
    if magnitude > INFINITY_BITS {
        None
    } else if bits < SIGN_BIT {
        Some(magnitude as i64)
    } else {
        Some(-(magnitude as i64))
    }
}

/// Compares the numbers of two patterns.
pub fn less_bits(a: u64, b: u64) -> (r: bool)
    ensures
        r == bits_less(a, b),
{
    match (rank_of_bits(a), rank_of_bits(b)) {
        (Some(x), Some(y)) => x < y,
        _ => false,
    }
}

/// The order of patterns is that of a line: it is irreflexive and transitive, and of
/// two numbers that it does not set apart, neither is set apart from a third by
/// being exchanged for the other.
pub proof fn law_order_is_linear(a: u64, b: u64, c: u64)
    requires
        !is_nan(a),
        !is_nan(b),
        !is_nan(c),
    ensures
        !bits_less(a, a),
        bits_less(a, b) && bits_less(b, c) ==> bits_less(a, c),
        !bits_less(a, b) && !bits_less(b, a) ==> bits_less(a, c) == bits_less(b, c),
        !bits_less(a, b) && !bits_less(b, a) ==> bits_less(c, a) == bits_less(c, b),
{
}

/// The exponent of a pattern: its eleven bits after the sign.
pub open spec fn exponent_of(bits: u64) -> int {
    bits as int / 0x10_0000_0000_0000 % 0x800
}

/// The fraction of a pattern: its low 52 bits.
pub open spec fn fraction_of(bits: u64) -> int {
    bits as int % 0x10_0000_0000_0000
}

/// The pattern of the number with the opposite sign.
pub open spec fn opposite_bits(bits: u64) -> u64 {
    if bits < SIGN_BIT {
        (bits + SIGN_BIT) as u64
    } else {
        (bits - SIGN_BIT) as u64
    }
}

/// Patterns are read as those of double-precision numbers. No number has the
/// greatest exponent and a fraction. Numbers without a sign compare by their exponents and
/// then by their fractions; a number with a sign is below every number without one unless
/// both are zero; and opposite signs reverse the order.
pub proof fn law_order_reads_exponent_and_fraction(a: u64, b: u64)
    ensures
        is_nan(a) <==> exponent_of(a) == 0x7ff && fraction_of(a) != 0,
        !is_nan(a) && !is_nan(b) && a < SIGN_BIT && b < SIGN_BIT ==> (bits_less(a, b) <==> {
            ||| exponent_of(a) < exponent_of(b)
            ||| exponent_of(a) == exponent_of(b) && fraction_of(a) < fraction_of(b)
        }),
        !is_nan(a) && !is_nan(b) && a >= SIGN_BIT && b < SIGN_BIT ==> {
            &&& !bits_less(b, a)
            &&& bits_less(a, b) <==> !(exponent_of(a) == 0 && fraction_of(a) == 0 && exponent_of(b)
                == 0 && fraction_of(b) == 0)
        },
        bits_less(opposite_bits(a), opposite_bits(b)) <==> bits_less(b, a),
{
}

} // verus!
