//! Hysteresis thresholds for edge detection: a fixed pair of whole
//! numbers, and a pair derived from the mean and the standard deviation of a
//! picture.
//!
//! A threshold is a fraction, held as a count of units of 1/65536. That is
//! the spacing of binary32 numbers between 128 and 256, and every threshold
//! from 0 to 255 in these units is a binary32 number. With `n` samples, their
//! sum `S` and the sum `Q` of their squares, the mean is `S / n` and the
//! standard deviation is `sqrt(n * Q - S * S) / n`, so `mean - deviation` and
//! `mean + 2 * deviation` can be cut to whole units exactly with integers.

use crate::raster::GrayImage;
use vstd::prelude::*;

verus! {

/// Units in 1.0.
pub const UNIT: u32 = 65536;

/// Lower threshold of the fixed pair as a whole number.
pub const BASELINE_LOW_WHOLE: u8 = 100;

/// Upper threshold of the fixed pair as a whole number.
pub const BASELINE_HIGH_WHOLE: u8 = 200;

/// The least value that an adaptive lower threshold takes, 50.0, in units.
pub const LOW_FLOOR: u32 = 50 * 65536;

/// The greatest value that an adaptive upper threshold takes, 250.0, in
/// units.
pub const HIGH_CEILING: u32 = 250 * 65536;

/// The greatest value that an adaptive lower threshold takes, 255.0, in
/// units.
pub const LOW_CEILING: u32 = 255 * 65536;

/// A pair of hysteresis thresholds on the edge strength, each in units of
/// 1/65536. The upper one can lie below the lower one.
#[derive(Clone, Copy, Debug, PartialEq, Eq, Structural)]
pub struct Thresholds {
    pub low: u32,
    pub high: u32,
}

/// Sum of the samples.
pub open spec fn total(samples: Seq<u8>) -> nat
    decreases samples.len(),
{
    if samples.len() == 0 {
        0
    } else {
        total(samples.drop_last()) + samples.last() as nat
    }
}

/// Sum of the squares of the samples.
pub open spec fn total_squares(samples: Seq<u8>) -> nat
    decreases samples.len(),
{
    if samples.len() == 0 {
        0
    } else {
        total_squares(samples.drop_last()) + (samples.last() * samples.last()) as nat
    }
}

/// `count * squares - sum * sum`: the variance of the samples, times the
/// square of their number.
pub open spec fn dispersion(count: nat, sum: nat, squares: nat) -> int {
    count * squares - sum * sum
}

/// Whether `r` is the whole part of the square root of `x`.
pub open spec fn is_floor_sqrt(x: nat, r: nat) -> bool {
    r * r <= x < (r + 1) * (r + 1)
}

/// The whole part of the square root of `x`.
pub open spec fn floor_sqrt(x: nat) -> nat {
    choose|r: nat| is_floor_sqrt(x, r)
}

/// The least whole number that is no less than the square root of `x`.
pub open spec fn ceil_sqrt(x: nat) -> nat {
    let r = floor_sqrt(x);
    if r * r == x {
        r
    } else {
        r + 1
    }
}

/// The dispersion in square units: `dispersion * 65536 * 65536`.
pub open spec fn scaled_dispersion(count: nat, sum: nat, squares: nat) -> int {
    dispersion(count, sum, squares) * 0x1_0000_0000
}

/// The adaptive lower threshold in units: `mean - deviation` cut to whole
/// units, but at least 50.0. Without samples it is 50.0.
pub open spec fn adaptive_low(count: nat, sum: nat, squares: nat) -> int {
    if count == 0 {
        LOW_FLOOR as int
    } else {
        let root = ceil_sqrt(scaled_dispersion(count, sum, squares) as nat);
        let below = (sum * 65536 - root as int) / (count as int);
        if below < LOW_FLOOR {
            LOW_FLOOR as int
        } else {
            below
        }
    }
}

/// The adaptive upper threshold in units: `mean + 2 * deviation` cut to
/// whole units, but at most 250.0. Without samples it is 250.0.
pub open spec fn adaptive_high(count: nat, sum: nat, squares: nat) -> int {
    if count == 0 {
        HIGH_CEILING as int
    } else {
        let root = floor_sqrt((4 * scaled_dispersion(count, sum, squares)) as nat);
        let above = (sum * 65536 + root as int) / (count as int);
        if above > HIGH_CEILING {
            HIGH_CEILING as int
        } else {
            above
        }
    }
}

/// The adaptive thresholds of a sequence of samples.
pub open spec fn adaptive_thresholds(samples: Seq<u8>) -> Thresholds {
    Thresholds {
        low: adaptive_low(samples.len(), total(samples), total_squares(samples)) as u32,
        high: adaptive_high(samples.len(), total(samples), total_squares(samples)) as u32,
    }
}

/// The pair that the detector is given for a pair of thresholds. The
/// detector takes no threshold of 0 and no lower threshold above the upper
/// one. So a threshold of 0 is raised to one unit, the least value above 0;
/// and a lower threshold above the upper one is lowered to it, since above
/// the upper threshold the lower one selects nothing that the upper one does
/// not select already.
pub open spec fn detector_pair(t: Thresholds) -> Thresholds {
    let high = if t.high == 0 {
        1u32
    } else {
        t.high
    };
    let low = if t.low == 0 {
        1u32
    } else if t.low > high {
        high
    } else {
        t.low
    };
    Thresholds { low, high }
}

/// Computes the pair that the detector is given: both thresholds above 0
/// and in order.
pub fn detector_thresholds(t: Thresholds) -> (d: Thresholds)
    ensures
        d == detector_pair(t),
        1 <= d.low <= d.high,
        1 <= t.low <= t.high ==> d == t,
{
    let high: u32 = if t.high == 0 {
        1
    } else {
        t.high
    };
    let low: u32 = if t.low == 0 {
        1
    } else if t.low > high {
        high
    } else {
        t.low
    };
    Thresholds { low, high }
}

/// A number has at most one whole square root.
pub proof fn lemma_floor_sqrt_unique(x: nat, a: nat, b: nat)
    requires
        is_floor_sqrt(x, a),
        is_floor_sqrt(x, b),
    ensures
        a == b,
{
    assert(a == b) by (nonlinear_arith)
        requires
            a * a <= x < (a + 1) * (a + 1),
            b * b <= x < (b + 1) * (b + 1),
    ;
}

/// Every number has a whole square root.
pub proof fn lemma_floor_sqrt_exists(x: nat)
    ensures
        is_floor_sqrt(x, floor_sqrt(x)),
    decreases x,
{
    if x == 0 {
        assert(is_floor_sqrt(0, 0)) by (nonlinear_arith);
    } else {
        lemma_floor_sqrt_exists((x - 1) as nat);
        let r = floor_sqrt((x - 1) as nat);
        if (r + 1) * (r + 1) <= x {
            assert(is_floor_sqrt(x, r + 1)) by (nonlinear_arith)
                requires
                    r * r <= x - 1 < (r + 1) * (r + 1),
                    (r + 1) * (r + 1) <= x,
            ;
        } else {
            assert(is_floor_sqrt(x, r));
        }
    }
}

/// A number that squares to at most `x` and whose successor does not is the
/// whole square root of `x`.
pub proof fn lemma_floor_sqrt_is(x: nat, r: nat)
    requires
        is_floor_sqrt(x, r),
    ensures
        floor_sqrt(x) == r,
{
    lemma_floor_sqrt_unique(x, r, floor_sqrt(x));
}

/// Computes the whole part of the square root.
pub fn integer_sqrt(x: u128) -> (r: u64)
    requires
        x < 0x10_0000_0000_0000_0000_0000_0000_0000,
    ensures
        r == floor_sqrt(x as nat),
        is_floor_sqrt(x as nat, r as nat),
        r < 0x400_0000_0000_0000,
{
    let mut lo: u64 = 0;
    let mut hi: u64 = 0x400_0000_0000_0000;
    assert(0x400_0000_0000_0000int * 0x400_0000_0000_0000int
        == 0x10_0000_0000_0000_0000_0000_0000_0000int) by (nonlinear_arith);
    while hi - lo > 1
        invariant
            lo < hi <= 0x400_0000_0000_0000,
            lo * lo <= x < hi * hi,
        decreases hi - lo,
    {
        let mid: u64 = lo + (hi - lo) / 2;
        assert(mid * mid < 0x10_0000_0000_0000_0000_0000_0000_0000) by (nonlinear_arith)
            requires
                0 <= mid < 0x400_0000_0000_0000,
        ;
        let square: u128 = (mid as u128) * (mid as u128);
        if square <= x {
            lo = mid;
        } else {
            hi = mid;
        }
    }
    proof {
        lemma_floor_sqrt_is(x as nat, lo as nat);
    }
    lo
}

/// Adding a sample adds it to the sum and its square to the sum of squares.
pub proof fn lemma_totals_step(samples: Seq<u8>, i: int)
    requires
        0 <= i < samples.len(),
    ensures
        total(samples.take(i + 1)) == total(samples.take(i)) + samples[i],
        total_squares(samples.take(i + 1)) == total_squares(samples.take(i)) + samples[i]
            * samples[i],
{
    assert(samples.take(i + 1).drop_last() =~= samples.take(i));
    assert(samples[i] * samples[i] >= 0) by (nonlinear_arith);
}

/// The sum is at most 255 for each sample, the sum of squares at most the
/// square of 255 for each.
pub proof fn lemma_totals_bounded(samples: Seq<u8>)
    ensures
        total(samples) <= 255 * samples.len(),
        total_squares(samples) <= 65025 * samples.len(),
    decreases samples.len(),
{
    if samples.len() > 0 {
        lemma_totals_bounded(samples.drop_last());
        let v = samples.last();
        assert(0 <= v * v <= 65025) by (nonlinear_arith)
            requires
                0 <= v <= 255,
        ;
    }
}

/// The squared distances of the samples from any number `p` add up to
/// `Q - 2 p S + n p p`, which is therefore not negative.
pub proof fn lemma_distances_nonnegative(samples: Seq<u8>, p: int)
    ensures
        total_squares(samples) - 2 * (p * total(samples)) + samples.len() * (p * p) >= 0,
    decreases samples.len(),
{
    if samples.len() > 0 {
        let rest = samples.drop_last();
        let v = samples.last() as int;
        lemma_distances_nonnegative(rest, p);
        let n = rest.len() as int;
        let s = total(rest) as int;
        let q = total_squares(rest) as int;
        assert(v * v >= 0) by (nonlinear_arith);
        assert(total(samples) == s + v);
        assert(total_squares(samples) == q + v * v);
        assert(samples.len() == n + 1);
        assert((q + v * v) - 2 * (p * (s + v)) + (n + 1) * (p * p) >= 0) by (nonlinear_arith)
            requires
                q - 2 * (p * s) + n * (p * p) >= 0,
        ;
    } else {
        assert(0 - 2 * (p * 0) + 0 * (p * p) >= 0) by (nonlinear_arith);
    }
}

/// The variance is not negative: `n * Q >= S * S`.
pub proof fn lemma_dispersion_nonnegative(samples: Seq<u8>)
    ensures
        dispersion(samples.len(), total(samples), total_squares(samples)) >= 0,
    decreases samples.len(),
{
    if samples.len() > 0 {
        let rest = samples.drop_last();
        let v = samples.last() as int;
        lemma_dispersion_nonnegative(rest);
        lemma_distances_nonnegative(rest, v);
        let n = rest.len() as int;
        let s = total(rest) as int;
        let q = total_squares(rest) as int;
        assert(v * v >= 0) by (nonlinear_arith);
        assert(total(samples) == s + v);
        assert(total_squares(samples) == q + v * v);
        assert(samples.len() == n + 1);
        assert((n + 1) * (q + v * v) - (s + v) * (s + v) >= 0) by (nonlinear_arith)
            requires
                n * q - s * s >= 0,
                q - 2 * (v * s) + n * (v * v) >= 0,
        ;
    } else {
        assert(0 * 0 - 0 * 0 == 0) by (nonlinear_arith);
    }
}

/// Derives the thresholds of a picture from its mean and its standard
/// deviation, in units of 1/65536: the lower one is `mean - deviation` cut to
/// whole units, raised to 50.0 where it lies below; the upper one is
/// `mean + 2 * deviation` cut to whole units, lowered to 250.0 where it lies
/// above. Neither is made to fit the other.
pub fn calculate_adaptive_canny_thresholds(picture: &GrayImage) -> (t: Thresholds)
    requires
        picture@.area() <= u32::MAX,
    ensures
        t == adaptive_thresholds(picture@.samples),
        LOW_FLOOR <= t.low <= LOW_CEILING,
        0 <= t.high <= HIGH_CEILING,
{
    let samples: &Vec<u8> = picture.samples();
    let count: usize = samples.len();
    assert(picture@.width * picture@.height == 1 * (picture@.width * picture@.height));
    let mut sum: u64 = 0;
    let mut squares: u64 = 0;
    let mut i: usize = 0;
    while i < count
        invariant
            i <= count,
            count == samples@.len(),
            count <= u32::MAX,
            sum == total(samples@.take(i as int)),
            squares == total_squares(samples@.take(i as int)),
            sum <= 255 * i,
            squares <= 65025 * i,
        decreases count - i,
    {
        let v: u64 = samples[i] as u64;
        proof {
            lemma_totals_step(samples@, i as int);
            lemma_totals_bounded(samples@.take(i + 1));
            assert(v * v <= 65025) by (nonlinear_arith)
                requires
                    0 <= v <= 255,
            ;
        }
        sum = sum + v;
        squares = squares + v * v;
        i = i + 1;
    }
    proof {
        assert(samples@.take(count as int) =~= samples@);
        lemma_dispersion_nonnegative(samples@);
    }
    if count == 0 {
        return Thresholds { low: LOW_FLOOR, high: HIGH_CEILING };
    }
    let n: u128 = count as u128;
    let s: u128 = sum as u128;
    let q: u128 = squares as u128;
    proof {
        assert(n * q <= 0xFFFF_FFFF * (65025 * 0xFFFF_FFFF)) by (nonlinear_arith)
            requires
                0 <= n <= 0xFFFF_FFFF,
                0 <= q <= 65025 * n,
        ;
        assert(s * s <= (255 * 0xFFFF_FFFF) * (255 * 0xFFFF_FFFF)) by (nonlinear_arith)
            requires
                0 <= s <= 255 * 0xFFFF_FFFF,
        ;
    }
    let spread: u128 = (n * q - s * s) * 0x1_0000_0000;
    let sum_units: u128 = s * 65536;
    let root: u64 = integer_sqrt(spread);
    proof {
        assert(root * root < 0x400_0000_0000_0000 * 0x400_0000_0000_0000) by (nonlinear_arith)
            requires
                0 <= root < 0x400_0000_0000_0000,
        ;
    }
    let root_up: u128 = if (root as u128) * (root as u128) == spread {
        root as u128
    } else {
        root as u128 + 1
    };
    let low: u32 = if sum_units < root_up {
        proof {
            lemma_negative_quotient(sum_units - root_up, n as int);
        }
        LOW_FLOOR
    } else {
        let below: u128 = (sum_units - root_up) / n;
        proof {
            lemma_mean_bounded(sum_units as int, root_up as int, n as int, LOW_CEILING as int);
        }
        if below < LOW_FLOOR as u128 {
            LOW_FLOOR
        } else {
            below as u32
        }
    };
    let wide_root: u64 = integer_sqrt(4 * spread);
    let above: u128 = (sum_units + wide_root as u128) / n;
    let high: u32 = if above > HIGH_CEILING as u128 {
        HIGH_CEILING
    } else {
        above as u32
    };
    Thresholds { low, high }
}

/// A negative number divided by a positive one is negative.
pub proof fn lemma_negative_quotient(x: int, d: int)
    requires
        x < 0,
        d > 0,
    ensures
        x / d < 0,
{
    assert(x / d < 0) by (nonlinear_arith)
        requires
            x < 0,
            d > 0,
    ;
}

/// Where a sum is at most `bound * n`, the quotient of the sum less
/// something by `n` is at most `bound`.
pub proof fn lemma_mean_bounded(sum: int, less: int, n: int, bound: int)
    requires
        0 <= less <= sum <= bound * n,
        n > 0,
    ensures
        0 <= (sum - less) / n <= bound,
{
    assert(0 <= (sum - less) / n <= bound) by (nonlinear_arith)
        requires
            0 <= sum - less <= bound * n,
            n > 0,
    ;
}

/// The adaptive thresholds lie in their ranges whatever the samples: the
/// lower one from 50.0 to 255.0, the upper one from 0.0 to 250.0.
pub proof fn lemma_adaptive_thresholds_in_range(samples: Seq<u8>)
    ensures
        LOW_FLOOR <= adaptive_low(samples.len(), total(samples), total_squares(samples))
            <= LOW_CEILING,
        0 <= adaptive_high(samples.len(), total(samples), total_squares(samples)) <= HIGH_CEILING,
        LOW_FLOOR <= adaptive_thresholds(samples).low <= LOW_CEILING,
        0 <= adaptive_thresholds(samples).high <= HIGH_CEILING,
{
    let n = samples.len();
    let s = total(samples);
    let q = total_squares(samples);
    if n > 0 {
        lemma_totals_bounded(samples);
        lemma_dispersion_nonnegative(samples);
        let up = ceil_sqrt(scaled_dispersion(n, s, q) as nat);
        if s * 65536 >= up {
            lemma_mean_bounded((s * 65536) as int, up as int, n as int, LOW_CEILING as int);
        } else {
            lemma_negative_quotient(s * 65536 - up, n as int);
        }
        let wide = floor_sqrt((4 * scaled_dispersion(n, s, q)) as nat);
        assert((s * 65536 + wide as int) / (n as int) >= 0) by (nonlinear_arith)
            requires
                s * 65536 + wide as int >= 0,
                n as int > 0,
        ;
    }
}

/// The sums of samples that all have the value `v`.
pub proof fn lemma_uniform_totals(samples: Seq<u8>, v: u8)
    requires
        forall|i: int| 0 <= i < samples.len() ==> samples[i] == v,
    ensures
        total(samples) == samples.len() * v,
        total_squares(samples) == samples.len() * (v * v),
    decreases samples.len(),
{
    if samples.len() > 0 {
        let rest = samples.drop_last();
        lemma_uniform_totals(rest, v);
        let n = rest.len() as int;
        assert((n + 1) * v == n * v + v) by (nonlinear_arith);
        assert((n + 1) * (v * v) == n * (v * v) + v * v) by (nonlinear_arith);
        assert(v * v >= 0) by (nonlinear_arith);
    } else {
        assert(0 * (v as int) == 0 && 0 * (v * v) == 0) by (nonlinear_arith);
    }
}

/// A picture whose samples all have the value `v` has mean `v` and
/// deviation 0: its lower threshold is `v` raised to 50.0, its upper one `v`
/// lowered to 250.0.
pub proof fn lemma_uniform_thresholds(samples: Seq<u8>, v: u8)
    requires
        samples.len() > 0,
        forall|i: int| 0 <= i < samples.len() ==> samples[i] == v,
    ensures
        adaptive_thresholds(samples) == (Thresholds {
            low: if v < 50 {
                LOW_FLOOR
            } else {
                (v * 65536) as u32
            },
            high: if v > 250 {
                HIGH_CEILING
            } else {
                (v * 65536) as u32
            },
        }),
{
    lemma_uniform_totals(samples, v);
    let n = samples.len() as int;
    let s = total(samples) as int;
    let q = total_squares(samples) as int;
    assert(n * q - s * s == 0) by (nonlinear_arith)
        requires
            s == n * v,
            q == n * (v * v),
    ;
    assert(is_floor_sqrt(0, 0)) by (nonlinear_arith);
    lemma_floor_sqrt_is(0, 0);
    assert((s * 65536) / n == v * 65536) by (nonlinear_arith)
        requires
            n > 0,
            s == n * v,
    ;
}

/// Whether `t` units are at most `mean - deviation`, that is, whether
/// `65536 * sqrt(n * Q - S * S) <= 65536 * S - n * t`.
pub open spec fn at_most_mean_less_deviation(count: nat, sum: nat, squares: nat, t: int) -> bool {
    let rest = sum * 65536 - count * t;
    rest >= 0 && scaled_dispersion(count, sum, squares) <= rest * rest
}

/// Whether `t` units are at most `mean + 2 * deviation`, that is, whether
/// `n * t - 65536 * S <= 2 * 65536 * sqrt(n * Q - S * S)`.
pub open spec fn at_most_mean_plus_two_deviations(count: nat, sum: nat, squares: nat, t: int)
    -> bool {
    let excess = count * t - sum * 65536;
    excess <= 0 || excess * excess <= 4 * scaled_dispersion(count, sum, squares)
}

/// A whole number `k` that is not negative is at least the square root of
/// `x` exactly if it is at least `ceil_sqrt(x)`, and at most the square root
/// exactly if it is at most `floor_sqrt(x)`.
pub proof fn lemma_sqrt_bounds(x: nat, k: int)
    requires
        k >= 0,
    ensures
        x <= k * k <==> k >= ceil_sqrt(x),
        k * k <= x <==> k <= floor_sqrt(x),
{
    lemma_floor_sqrt_exists(x);
    let r = floor_sqrt(x) as int;
    assert((k >= r + 1 ==> k * k >= (r + 1) * (r + 1)) && (k <= r ==> k * k <= r * r) && (k >= r
        ==> k * k >= r * r) && (k < r ==> k * k < r * r)) by (nonlinear_arith)
        requires
            k >= 0,
            r >= 0,
    ;
}

/// A whole number is at most the whole part of a quotient exactly if its
/// product with the divisor is at most the dividend.
pub proof fn lemma_quotient_bounds(x: int, d: int, t: int)
    requires
        d > 0,
    ensures
        t <= x / d <==> d * t <= x,
{
    vstd::arithmetic::div_mod::lemma_fundamental_div_mod(x, d);
    vstd::arithmetic::div_mod::lemma_mod_bound(x, d);
    let quotient = x / d;
    assert((t <= quotient ==> d * t <= d * quotient) && (t >= quotient + 1 ==> d * t >= d * (
    quotient + 1)) && d * (quotient + 1) == d * quotient + d) by (nonlinear_arith)
        requires
            d > 0,
    ;
}

/// What the adaptive thresholds mean. The lower one is at least 50.0;
/// where it is more, it is at most `mean - deviation`; and the next unit is
/// above `mean - deviation`. The upper one is at most 250.0 and at most
/// `mean + 2 * deviation`; where it is less than 250.0, the next unit is above
/// `mean + 2 * deviation`. So each is within one unit, 1/65536, of the value
/// that the formula gives.
pub proof fn lemma_thresholds_are_cut_to_units(samples: Seq<u8>)
    requires
        samples.len() > 0,
    ensures
        ({
            let (n, s, q) = (samples.len(), total(samples), total_squares(samples));
            let low = adaptive_low(n, s, q);
            let high = adaptive_high(n, s, q);
            &&& low >= LOW_FLOOR
            &&& low > LOW_FLOOR ==> at_most_mean_less_deviation(n, s, q, low)
            &&& !at_most_mean_less_deviation(n, s, q, low + 1)
            &&& high <= HIGH_CEILING
            &&& at_most_mean_plus_two_deviations(n, s, q, high)
            &&& high < HIGH_CEILING ==> !at_most_mean_plus_two_deviations(n, s, q, high + 1)
        }),
{
    let (n, s, q) = (samples.len(), total(samples), total_squares(samples));
    lemma_dispersion_nonnegative(samples);
    let d = scaled_dispersion(n, s, q) as nat;
    let up = ceil_sqrt(d) as int;
    let below = (s * 65536 - up) / (n as int);
    assert forall|t: int| at_most_mean_less_deviation(n, s, q, t) <==> t <= below by {
        let rest = s * 65536 - n * t;
        if rest >= 0 {
            lemma_sqrt_bounds(d, rest);
        }
        lemma_quotient_bounds(s * 65536 - up, n as int, t);
    }
    let wide = floor_sqrt((4 * d) as nat) as int;
    let above = (s * 65536 + wide) / (n as int);
    assert forall|t: int| at_most_mean_plus_two_deviations(n, s, q, t) <==> t <= above by {
        let excess = n * t - s * 65536;
        if excess > 0 {
            lemma_sqrt_bounds((4 * d) as nat, excess);
        }
        lemma_quotient_bounds(s * 65536 + wide, n as int, t);
    }
}

} // verus!
