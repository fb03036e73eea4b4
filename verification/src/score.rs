//! Correlation scores and confidence levels.
//!
//! A score is an IEEE 754 binary32 number. It is held as its bit pattern:
//! one sign bit, eight exponent bits, twenty-three fraction bits. Among the
//! numbers that are not NaN, the order of the values is the order of their
//! signed magnitudes, and the two zeros are equal.

use vstd::arithmetic::div_mod::{lemma_basic_div, lemma_small_mod};
use vstd::arithmetic::power2::{
    lemma2_to64, lemma2_to64_rest, lemma_pow2_strictly_increases, lemma_pow2_unfold, pow2,
};
use vstd::prelude::*;

verus! {

/// Bit pattern of the sign bit alone, which is also that of negative zero.
pub const SIGN_BIT: u32 = 0x8000_0000;

/// Bit pattern of positive infinity, the largest magnitude that is a number.
pub const INFINITY_BITS: u32 = 0x7F80_0000;

/// Bit pattern of 1.0.
pub const ONE_BITS: u32 = 0x3F80_0000;

/// Bit pattern of the binary32 number nearest to 0.3, the confidence level
/// that is used where none is given.
pub const DEFAULT_CONFIDENCE_BITS: u32 = 0x3E99_999A;

/// Bit pattern of the binary64 number 1.0.
pub const DOUBLE_ONE_BITS: u64 = 0x3FF0_0000_0000_0000;

/// Bit pattern of the sign bit of a binary64 number alone, which is also
/// that of negative zero.
pub const DOUBLE_SIGN_BIT: u64 = 0x8000_0000_0000_0000;

/// Bit pattern of the binary64 number nearest to 0.3.
pub const DEFAULT_CONFIDENCE_DOUBLE_BITS: u64 = 0x3FD3_3333_3333_3333;

/// Number of patterns of the fraction field of a binary64 number, 2^52.
pub const DOUBLE_FRACTIONS: u64 = 0x10_0000_0000_0000;

/// A binary32 number, held as its bit pattern.
#[derive(Clone, Copy, Debug, PartialEq, Eq, Structural)]
pub struct Score {
    pub bits: u32,
}

impl Score {
    /// The bits without the sign.
    pub open spec fn magnitude(self) -> int {
        self.bits as int % 0x8000_0000
    }

    /// Whether the sign bit is set.
    pub open spec fn negative(self) -> bool {
        self.bits >= SIGN_BIT
    }

    /// Whether the pattern is no number.
    pub open spec fn is_nan(self) -> bool {
        self.magnitude() > INFINITY_BITS
    }

    /// The signed magnitude. For two patterns that are numbers, the one
    /// with the larger value has the larger rank, and equal values have
    /// equal ranks.
    pub open spec fn rank(self) -> int {
        if self.negative() {
            -self.magnitude()
        } else {
            self.magnitude()
        }
    }

    /// The comparison `self > other` of binary32 numbers: false as soon as
    /// one side is NaN.
    pub open spec fn greater_than(self, other: Score) -> bool {
        !self.is_nan() && !other.is_nan() && self.rank() > other.rank()
    }

    /// Whether the number lies in the closed interval from 0.0 to 1.0.
    pub open spec fn in_unit_interval(self) -> bool {
        !self.is_nan() && 0 <= self.rank() <= ONE_BITS
    }

    /// The score with the given bit pattern.
    pub fn from_bits(bits: u32) -> (s: Score)
        ensures
            s.bits == bits,
    {
        Score { bits }
    }

    /// The bit pattern of the score.
    pub fn to_bits(&self) -> (bits: u32)
        ensures
            bits == self.bits,
    {
        self.bits
    }

    /// Whether this score is greater than `other`.
    pub fn exceeds(&self, other: &Score) -> (r: bool)
        ensures
            r == self.greater_than(*other),
    {
        let a: u32 = self.bits % SIGN_BIT;
        let b: u32 = other.bits % SIGN_BIT;
        if a > INFINITY_BITS || b > INFINITY_BITS {
            false
        } else if self.bits >= SIGN_BIT {
            // A negative number exceeds only a negative number of larger magnitude.
            other.bits >= SIGN_BIT && a < b
        } else {
            // A positive number exceeds every negative one but negative
            // zero against positive zero, and a positive one of smaller
            // magnitude.
            if other.bits >= SIGN_BIT {
                a > 0 || b > 0
            } else {
                a > b
            }
        }
    }

    /// Whether this score is a valid confidence level: a number from 0.0
    /// to 1.0.
    pub fn is_confidence(&self) -> (r: bool)
        ensures
            r == self.in_unit_interval(),
    {
        self.bits <= ONE_BITS || self.bits == SIGN_BIT
    }
}

/// The confidence level that is used where none is given: 0.3.
pub fn default_confidence() -> (s: Score)
    ensures
        s.bits == DEFAULT_CONFIDENCE_BITS,
        s.in_unit_interval(),
{
    Score { bits: DEFAULT_CONFIDENCE_BITS }
}

/// Whether a match with the given score is trusted at the given confidence
/// level: the score must be greater than the level.
pub fn validate_match_result(max_value: Score, confidence_threshold: Score) -> (r: bool)
    ensures
        r == max_value.greater_than(confidence_threshold),
{
    max_value.exceeds(&confidence_threshold)
}

/// On numbers, `greater_than` is a strict order: nothing exceeds itself, and
/// the comparison is transitive.
pub proof fn lemma_greater_than_is_strict_order(a: Score, b: Score, c: Score)
    ensures
        !a.greater_than(a),
        a.greater_than(b) && b.greater_than(c) ==> a.greater_than(c),
        a.greater_than(b) ==> !b.greater_than(a),
{
}

/// Two numbers of which neither exceeds the other have the same rank.
pub proof fn lemma_numbers_are_comparable(a: Score, b: Score)
    requires
        !a.is_nan(),
        !b.is_nan(),
    ensures
        a.greater_than(b) || b.greater_than(a) || a.rank() == b.rank(),
{
}

/// Whether the binary64 number with the given bit pattern lies in the
/// closed interval from 0.0 to 1.0. The patterns from 0 to that of 1.0 are
/// the numbers from 0.0 to 1.0 in their order, and negative zero is zero.
pub open spec fn double_in_unit_interval(bits: u64) -> bool {
    bits <= DOUBLE_ONE_BITS || bits == DOUBLE_SIGN_BIT
}

/// `x / d` rounded to the nearest whole number, a tie going to the even
/// one.
pub open spec fn round_half_even(x: nat, d: nat) -> nat {
    let quotient = x / d;
    let rest = x % d;
    if 2 * rest > d || (2 * rest == d && quotient % 2 == 1) {
        quotient + 1
    } else {
        quotient
    }
}

/// The binary32 number nearest to a binary64 number from 0.0 to 1.0, a tie
/// going to the one whose last bit is 0. With the exponent field `e` and the
/// fraction field `f`, the number is `(2^52 + f) * 2^(e - 1075)`. From
/// `2^-126` on, the binary32 exponent field is `e - 896` and the fraction
/// loses its last 29 bits; below, the result counts units of `2^-149`, of
/// which the number holds `(2^52 + f) / 2^(926 - e)`. A carry out of the
/// fraction goes into the exponent, as it must.
pub open spec fn narrowed(bits: u64) -> Score {
    let exponent = bits as nat / 0x10_0000_0000_0000;
    let fraction = bits as nat % 0x10_0000_0000_0000;
    if bits == DOUBLE_SIGN_BIT {
        Score { bits: SIGN_BIT }
    } else if exponent >= 897 {
        Score {
            bits: ((exponent - 896) * 0x80_0000 + round_half_even(fraction, 0x2000_0000)) as u32,
        }
    } else if exponent >= 1 {
        Score {
            bits: round_half_even(
                0x10_0000_0000_0000 + fraction,
                pow2((926 - exponent) as nat),
            ) as u32,
        }
    } else {
        Score { bits: 0 }
    }
}

/// Computes `x / d` rounded to nearest, ties to even.
pub fn divide_rounding(x: u64, d: u64) -> (r: u64)
    requires
        d > 0,
        2 * (d - 1) <= u64::MAX,
    ensures
        r == round_half_even(x as nat, d as nat),
        r <= x / d + 1,
{
    let quotient: u64 = x / d;
    let rest: u64 = x % d;
    if 2 * rest > d || (2 * rest == d && quotient % 2 == 1) {
        proof {
            vstd::arithmetic::div_mod::lemma_fundamental_div_mod(x as int, d as int);
        }
        assert(quotient < u64::MAX) by (nonlinear_arith)
            requires
                quotient == x / d,
                x % d > 0,
                d > 0,
                x <= u64::MAX,
                x == d * (x / d) + x % d,
        {
        }
        quotient + 1
    } else {
        quotient
    }
}

/// Takes a confidence level given as the bit pattern of a binary64 number.
/// A number from 0.0 to 1.0 is narrowed to the nearest binary32 number;
/// anything else is no confidence level.
pub fn confidence_from_double(bits: u64) -> (r: Option<Score>)
    ensures
        r is Some <==> double_in_unit_interval(bits),
        r is Some ==> r->0 == narrowed(bits),
        r is Some ==> r->0.in_unit_interval(),
{
    if bits == DOUBLE_SIGN_BIT {
        return Some(Score { bits: SIGN_BIT });
    }
    if bits > DOUBLE_ONE_BITS {
        return None;
    }
    let exponent: u64 = bits / DOUBLE_FRACTIONS;
    let fraction: u64 = bits % DOUBLE_FRACTIONS;
    assert(exponent <= 1023 && (exponent == 1023 ==> fraction == 0));
    if exponent >= 897 {
        let rounded: u64 = divide_rounding(fraction, 0x2000_0000);
        assert(fraction / 0x2000_0000 < 0x80_0000);
        let pattern: u64 = (exponent - 896) * 0x80_0000 + rounded;
        Some(Score { bits: pattern as u32 })
    } else if exponent >= 872 {
        let shift: u64 = 926 - exponent;
        let mut divisor: u64 = 0x4000_0000;
        let mut k: u64 = 30;
        proof {
            lemma2_to64();
        }
        while k < shift
            invariant
                30 <= k <= shift <= 54,
                divisor == pow2(k as nat),
                0x4000_0000 <= divisor <= 0x40_0000_0000_0000,
            decreases shift - k,
        {
            proof {
                lemma_pow2_unfold((k + 1) as nat);
                lemma2_to64_rest();
                if k + 1 < 54 {
                    lemma_pow2_strictly_increases((k + 1) as nat, 54);
                }
            }
            divisor = divisor * 2;
            k = k + 1;
        }
        let whole: u64 = DOUBLE_FRACTIONS + fraction;
        let rounded: u64 = divide_rounding(whole, divisor);
        assert(whole / divisor <= 0x80_0000) by (nonlinear_arith)
            requires
                whole < 0x20_0000_0000_0000,
                divisor >= 0x4000_0000,
        {
        }
        Some(Score { bits: rounded as u32 })
    } else {
        proof {
            if exponent >= 1 {
                let d = pow2((926 - exponent) as nat);
                let whole = (DOUBLE_FRACTIONS + fraction) as nat;
                lemma2_to64_rest();
                if 926 - exponent > 55 {
                    lemma_pow2_strictly_increases(55, (926 - exponent) as nat);
                }
                lemma_basic_div(whole as int, d as int);
                lemma_small_mod(whole, d);
            }
        }
        Some(Score { bits: 0 })
    }
}

/// The confidence level that is used where none is given, as a binary64
/// pattern: 0.3.
pub fn default_confidence_double() -> (bits: u64)
    ensures
        bits == DEFAULT_CONFIDENCE_DOUBLE_BITS,
        double_in_unit_interval(bits),
        narrowed(bits) == (Score { bits: DEFAULT_CONFIDENCE_BITS }),
{
    DEFAULT_CONFIDENCE_DOUBLE_BITS
}

/// The narrowing of a number from 0.0 to 1.0 is a number from 0.0 to 1.0.
pub proof fn lemma_narrowed_is_confidence(bits: u64)
    requires
        double_in_unit_interval(bits),
    ensures
        narrowed(bits).in_unit_interval(),
{
    let exponent = bits as nat / 0x10_0000_0000_0000;
    let fraction = bits as nat % 0x10_0000_0000_0000;
    if bits != DOUBLE_SIGN_BIT {
        assert(exponent <= 1023 && (exponent == 1023 ==> fraction == 0));
        if exponent >= 897 {
            assert(fraction / 0x2000_0000 < 0x80_0000);
        } else if exponent >= 1 {
            let d = pow2((926 - exponent) as nat);
            lemma2_to64();
            if 926 - exponent > 30 {
                lemma_pow2_strictly_increases(30, (926 - exponent) as nat);
            }
            let whole = 0x10_0000_0000_0000 + fraction;
            assert(whole as int / d as int <= 0x80_0000 - 1 || whole as int / d as int
                <= 0x80_0000) by (nonlinear_arith)
                requires
                    0 <= whole < 0x20_0000_0000_0000,
                    d >= 0x4000_0000,
            {
            }
        }
    }
}

} // verus!
