//! IEEE 754 values as bit patterns.
//!
//! Field values and scores hold floating-point numbers as their bit
//! patterns. What this crate needs to know of such a number (whether it is a
//! NaN, finite or zero, and how two of them are ordered) is read off the
//! pattern with integer operations.
use vstd::arithmetic::power2::{lemma2_to64, lemma_pow2_strictly_increases, lemma_pow2_unfold, pow2};
use vstd::prelude::*;

verus! {

/// The sign bit of a single-precision pattern.
pub const SINGLE_SIGN: u32 = 0x8000_0000;

/// The pattern of single-precision positive infinity: all exponent bits set.
pub const SINGLE_INFINITY: u32 = 0x7f80_0000;

/// The sign bit of a double-precision pattern.
pub const DOUBLE_SIGN: u64 = 0x8000_0000_0000_0000;

/// The pattern of double-precision positive infinity: all exponent bits set.
pub const DOUBLE_INFINITY: u64 = 0x7ff0_0000_0000_0000;

/// The pattern without its sign bit: the magnitude of the value.
pub open spec fn single_magnitude(bits: u32) -> u32 {
    if bits >= SINGLE_SIGN {
        (bits - SINGLE_SIGN) as u32
    } else {
        bits
    }
}

/// The pattern without its sign bit: the magnitude of the value.
pub open spec fn double_magnitude(bits: u64) -> u64 {
    if bits >= DOUBLE_SIGN {
        (bits - DOUBLE_SIGN) as u64
    } else {
        bits
    }
}

/// The value is a NaN: its magnitude is above that of infinity.
pub open spec fn single_is_nan(bits: u32) -> bool {
    single_magnitude(bits) > SINGLE_INFINITY
}

/// The value is a NaN: its magnitude is above that of infinity.
pub open spec fn double_is_nan(bits: u64) -> bool {
    double_magnitude(bits) > DOUBLE_INFINITY
}

/// The value is neither an infinity nor a NaN.
pub open spec fn single_is_finite(bits: u32) -> bool {
    single_magnitude(bits) < SINGLE_INFINITY
}

/// The value is neither an infinity nor a NaN.
pub open spec fn double_is_finite(bits: u64) -> bool {
    double_magnitude(bits) < DOUBLE_INFINITY
}

/// The value is positive or negative zero.
pub open spec fn single_is_zero(bits: u32) -> bool {
    single_magnitude(bits) == 0
}

/// The value is positive or negative zero.
pub open spec fn double_is_zero(bits: u64) -> bool {
    double_magnitude(bits) == 0
}

/// A number by which values that are no NaN are ordered as IEEE 754 orders
/// them: the magnitude for a value with the sign bit clear, its negation for
/// one with the sign bit set. Both zeros have rank zero.
pub open spec fn single_rank(bits: u32) -> int {
    if bits >= SINGLE_SIGN {
        -(single_magnitude(bits) as int)
    } else {
        bits as int
    }
}

/// A number by which values that are no NaN are ordered as IEEE 754 orders
/// them: the magnitude for a value with the sign bit clear, its negation for
/// one with the sign bit set. Both zeros have rank zero.
pub open spec fn double_rank(bits: u64) -> int {
    if bits >= DOUBLE_SIGN {
        -(double_magnitude(bits) as int)
    } else {
        bits as int
    }
}

/// The amount of a magnitude below that of infinity, laid out as a double:
/// the magnitude moved to the place that a double has for it, under an
/// exponent that makes up for the difference in bias. The least magnitudes,
/// which single precision holds without a leading one, are first doubled
/// until they have one, each doubling taking one from the exponent.
pub open spec fn widened(magnitude: int, exponent: int) -> int
    decreases 0x100_0000 - magnitude,
{
    if magnitude <= 0 {
        0
    } else if magnitude < 0x80_0000 {
        widened(2 * magnitude, exponent - 1)
    } else {
        exponent * 0x10_0000_0000_0000 + magnitude * 0x2000_0000
    }
}

/// The bit pattern of the double with the amount of the finite
/// single-precision value with the pattern `bits`.
pub open spec fn double_of_single(bits: u32) -> u64 {
    let sign: int = if bits >= SINGLE_SIGN {
        DOUBLE_SIGN as int
    } else {
        0
    };
    (sign + widened(single_magnitude(bits) as int, 896)) as u64
}

/// A magnitude without a leading one is laid out below the least magnitude
/// that has one.
pub proof fn lemma_widened_below_leading_one(magnitude: int, exponent: int)
    requires
        0 < magnitude < 0x80_0000,
    ensures
        widened(magnitude, exponent) < (exponent + 1) * 0x10_0000_0000_0000,
    decreases 0x100_0000 - magnitude,
{
    if 2 * magnitude < 0x80_0000 {
        lemma_widened_below_leading_one(2 * magnitude, exponent - 1);
    } else {
        assert(widened(2 * magnitude, exponent - 1) == (exponent - 1) * 0x10_0000_0000_0000 + 2
            * magnitude * 0x2000_0000);
    }
}

/// A greater magnitude is laid out as a greater one.
pub proof fn lemma_widened_increases(lesser: int, greater: int, exponent: int)
    requires
        0 < lesser < greater,
    ensures
        widened(lesser, exponent) < widened(greater, exponent),
    decreases 0x100_0000 - lesser,
{
    if lesser < 0x80_0000 {
        if greater < 0x80_0000 {
            lemma_widened_increases(2 * lesser, 2 * greater, exponent - 1);
        } else {
            lemma_widened_below_leading_one(lesser, exponent);
            assert(widened(greater, exponent) >= (exponent + 1) * 0x10_0000_0000_0000);
        }
    }
}

/// Widening keeps what a finite value is: the double is finite, has the sign
/// of the single, and is zero exactly where the single is.
pub proof fn lemma_widening_keeps_kind(bits: u32)
    requires
        single_is_finite(bits),
    ensures
        double_is_finite(double_of_single(bits)),
        double_of_single(bits) >= DOUBLE_SIGN <==> bits >= SINGLE_SIGN,
        double_magnitude(double_of_single(bits)) == widened(single_magnitude(bits) as int, 896),
        double_is_zero(double_of_single(bits)) <==> single_is_zero(bits),
{
    let magnitude = single_magnitude(bits) as int;
    if 0 < magnitude {
        if magnitude < 0x80_0000 {
            lemma_widened_below_leading_one(magnitude, 896);
        }
        if 1 < magnitude {
            lemma_widened_increases(1, magnitude, 896);
        }
        assert(widened(1, 896) == 874 * 0x10_0000_0000_0000) by {
            reveal_with_fuel(widened, 25);
        }
    }
}

/// Widening keeps the order of the amounts: of two finite values the one with
/// the lesser rank has the double with the lesser rank, and values of one
/// rank have doubles of one rank.
pub proof fn lemma_widening_keeps_rank_order(a: u32, b: u32)
    requires
        single_is_finite(a),
        single_is_finite(b),
    ensures
        single_rank(a) < single_rank(b) <==> double_rank(double_of_single(a)) < double_rank(
            double_of_single(b),
        ),
        single_rank(a) == single_rank(b) <==> double_rank(double_of_single(a)) == double_rank(
            double_of_single(b),
        ),
{
    lemma_widening_keeps_kind(a);
    lemma_widening_keeps_kind(b);
    let x = single_magnitude(a) as int;
    let y = single_magnitude(b) as int;
    if 0 < x < y {
        lemma_widened_increases(x, y, 896);
    }
    if 0 < y < x {
        lemma_widened_increases(y, x, 896);
    }
}

/// The bit pattern of the double with the amount of a finite single-precision
/// value.
pub fn widen_single(bits: u32) -> (double: u64)
    requires
        single_is_finite(bits),
    ensures
        double == double_of_single(bits),
{
    let sign: u64 = if bits >= SINGLE_SIGN {
        DOUBLE_SIGN
    } else {
        0
    };
    let mut magnitude: u64 = single_magnitude_of(bits) as u64;
    if magnitude == 0 {
        return sign;
    }
    let mut exponent: u64 = 896;
    proof {
        lemma2_to64();
    }
    while magnitude < 0x80_0000
        invariant
            0 < magnitude < 0x7f80_0000,
            873 <= exponent <= 896,
            pow2((896 - exponent) as nat) <= magnitude,
            widened(magnitude as int, exponent as int) == widened(
                single_magnitude(bits) as int,
                896,
            ),
        decreases 0x100_0000 - magnitude,
    {
        proof {
            let doublings = (896 - exponent) as nat;
            lemma2_to64();
            if doublings >= 23 {
                if doublings > 23 {
                    lemma_pow2_strictly_increases(23, doublings);
                }
                assert(false);
            }
            lemma_pow2_unfold(doublings + 1);
        }
        magnitude = 2 * magnitude;
        exponent = exponent - 1;
    }
    sign + (exponent * 0x10_0000_0000_0000 + magnitude * 0x2000_0000)
}

/// The magnitude of a single-precision pattern.
pub fn single_magnitude_of(bits: u32) -> (m: u32)
    ensures
        m == single_magnitude(bits),
{
    if bits >= SINGLE_SIGN {
        bits - SINGLE_SIGN
    } else {
        bits
    }
}

/// The magnitude of a double-precision pattern.
pub fn double_magnitude_of(bits: u64) -> (m: u64)
    ensures
        m == double_magnitude(bits),
{
    if bits >= DOUBLE_SIGN {
        bits - DOUBLE_SIGN
    } else {
        bits
    }
}

/// The rank of a single-precision pattern.
pub fn single_rank_of(bits: u32) -> (rank: i64)
    ensures
        rank == single_rank(bits),
{
    if bits >= SINGLE_SIGN {
        -((bits - SINGLE_SIGN) as i64)
    } else {
        bits as i64
    }
}

/// The rank of a double-precision pattern.
pub fn double_rank_of(bits: u64) -> (rank: i128)
    ensures
        rank == double_rank(bits),
{
    if bits >= DOUBLE_SIGN {
        -((bits - DOUBLE_SIGN) as i128)
    } else {
        bits as i128
    }
}

} // verus!
