//! Fixed-point units and the small arithmetic helpers the rest of the crate
//! is specified with.
//!
//! An amplitude or control value of `UNIT` stands for 1.0; `MS_CAP` bounds
//! every time the crate handles (about 35 000 years of milliseconds) and
//! `AMP_CEIL` bounds every intermediate amplitude, leaving ample headroom
//! above full scale before the final clip.

use vstd::prelude::*;

verus! {

/// Fixed-point representation of 1.0 for amplitudes and control values.
pub const UNIT: i64 = 65536;

/// Upper bound on any time in milliseconds handled by the crate.
pub const MS_CAP: i64 = 1099511627776;

/// Headroom bound kept on every intermediate amplitude in the audio path.
pub const AMP_CEIL: i64 = 1099511627776;

/// Truncating division (toward zero) by a positive divisor, as `/` rounds in
/// executable arithmetic.
pub open spec fn tdiv(x: int, d: int) -> int
    recommends
        d > 0,
{
    if x >= 0 {
        x / d
    } else {
        -((-x) / d)
    }
}

/// `x` forced into `[lo, hi]`.
pub open spec fn clamp_spec(x: int, lo: int, hi: int) -> int {
    if x < lo {
        lo
    } else if x > hi {
        hi
    } else {
        x
    }
}

/// Absolute value.
pub open spec fn abs_spec(x: int) -> int {
    if x >= 0 {
        x
    } else {
        -x
    }
}

/// Truncating division of a possibly negative value by a positive divisor.
pub fn scale_div(x: i64, d: i64) -> (r: i64)
    requires
        d > 0,
        x > i64::MIN,
    ensures
        r == tdiv(x as int, d as int),
        abs_spec(r as int) <= abs_spec(x as int),
{
    if x >= 0 {
        let q: u64 = (x as u64) / (d as u64);
        q as i64
    } else {
        let m: u64 = ((-x) as u64) / (d as u64);
        -(m as i64)
    }
}

/// `x` forced into `[lo, hi]`.
pub fn clamp64(x: i64, lo: i64, hi: i64) -> (r: i64)
    requires
        lo <= hi,
    ensures
        r == clamp_spec(x as int, lo as int, hi as int),
{
    if x < lo {
        lo
    } else if x > hi {
        hi
    } else {
        x
    }
}

/// `tdiv(x * d, d)` recovers `x` for any sign of `x`.
pub proof fn lemma_tdiv_multiple(x: int, d: int)
    requires
        d > 0,
    ensures
        tdiv(x * d, d) == x,
{
    if x >= 0 {
        assert(x * d == d * x) by (nonlinear_arith);
        vstd::arithmetic::div_mod::lemma_div_multiples_vanish(x, d);
    } else {
        assert(-(x * d) == (-x) * d) by (nonlinear_arith);
        assert((-x) * d == d * (-x)) by (nonlinear_arith);
        assert(x * d < 0) by (nonlinear_arith)
            requires
                x < 0,
                d > 0,
        ;
        vstd::arithmetic::div_mod::lemma_div_multiples_vanish(-x, d);
    }
}

/// Multiply an amplitude by a control value of at most `2 * UNIT` and scale
/// back down, truncating toward zero; the magnitude at most doubles, and a
/// control of at most `UNIT` cannot grow it at all.
pub fn scale_by(v: i64, a: i64) -> (r: i64)
    requires
        0 <= a <= 2 * UNIT,
        -2 * AMP_CEIL <= v <= 2 * AMP_CEIL,
    ensures
        r == tdiv(v * a, UNIT as int),
        v >= 0 ==> 0 <= r <= 2 * v,
        v <= 0 ==> 2 * v <= r <= 0,
        a <= UNIT && v >= 0 ==> r <= v,
        a <= UNIT && v <= 0 ==> v <= r,
    {
    proof {
        assert(-4 * AMP_CEIL * UNIT <= v * a <= 4 * AMP_CEIL * UNIT) by (nonlinear_arith)
            requires
                0 <= a <= 2 * UNIT,
                -2 * AMP_CEIL <= v <= 2 * AMP_CEIL,
        ;
    }
    let r = scale_div(v * a, UNIT);
    proof {
        if v >= 0 {
            assert(0 <= v * a <= (2 * v) * UNIT) by (nonlinear_arith)
                requires
                    v >= 0,
                    0 <= a <= 2 * UNIT,
            ;
            vstd::arithmetic::div_mod::lemma_div_is_ordered(v * a, (2 * v) * UNIT, UNIT as int);
            lemma_tdiv_multiple(2 * (v as int), UNIT as int);
            if a <= UNIT {
                assert(v * a <= v * UNIT) by (nonlinear_arith)
                    requires
                        v >= 0,
                        0 <= a <= UNIT,
                ;
                vstd::arithmetic::div_mod::lemma_div_is_ordered(v * a, v * UNIT, UNIT as int);
                lemma_tdiv_multiple(v as int, UNIT as int);
            }
        } else {
            assert(0 <= (-v) * a <= (2 * -v) * UNIT) by (nonlinear_arith)
                requires
                    v < 0,
                    0 <= a <= 2 * UNIT,
            ;
            assert(-(v * a) == (-v) * a) by (nonlinear_arith);
            vstd::arithmetic::div_mod::lemma_div_is_ordered(
                (-v) * a,
                (2 * -v) * UNIT,
                UNIT as int,
            );
            lemma_tdiv_multiple(2 * -(v as int), UNIT as int);
            if a <= UNIT {
                assert((-v) * a <= (-v) * UNIT) by (nonlinear_arith)
                    requires
                        v < 0,
                        0 <= a <= UNIT,
                ;
                vstd::arithmetic::div_mod::lemma_div_is_ordered((-v) * a, (-v) * UNIT, UNIT as int);
                lemma_tdiv_multiple(-(v as int), UNIT as int);
            }
        }
    }
    r
}

/// Distance between two times.
pub fn dist64(a: i64, b: i64) -> (r: i64)
    requires
        0 <= a <= MS_CAP,
        0 <= b <= MS_CAP,
    ensures
        r == abs_spec(a - b),
{
    if a >= b {
        a - b
    } else {
        b - a
    }
}

} // verus!
