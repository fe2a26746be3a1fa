//! Units of measure and the rounding rule shared by every operation.

use vstd::prelude::*;

verus! {

/// Number of length units in one pixel; also the value that stands for the
/// dimensionless factor one.
pub const SCALE: i64 = 1_000_000;

/// Number of time units (microseconds) in one second.
pub const TICKS_PER_SECOND: i64 = 1_000_000;

/// Largest coordinate magnitude that a position may take.
pub const COORD_LIMIT: i64 = 1_000_000_000_000;

/// Largest magnitude of a forward speed, in length units per second.
pub const SPEED_LIMIT: i64 = 1_000_000_000_000;

/// Longest frame that can be simulated in one step, in microseconds.
pub const FRAME_LIMIT: i64 = 1_000_000_000;

/// Quotient of `a` by a positive `b`, rounded toward zero.
pub open spec fn div_trunc(a: int, b: int) -> int
    recommends
        b > 0,
{
    if a >= 0 {
        a / b
    } else {
        -((-a) / b)
    }
}

/// Quotient of `a` by a positive `b`, rounded to the nearest whole number,
/// halves away from zero.
pub open spec fn div_round(a: int, b: int) -> int
    recommends
        b > 0,
{
    if a >= 0 {
        (2 * a + b) / (2 * b)
    } else {
        -((2 * (-a) + b) / (2 * b))
    }
}

/// Product of two fixed-point values at `SCALE`, rounded toward zero.
pub open spec fn mul_fixed(a: int, b: int) -> int {
    div_trunc(a * b, SCALE as int)
}

/// `v` held to the closed interval from `lo` to `hi`.
pub open spec fn clamp(v: int, lo: int, hi: int) -> int
    recommends
        lo <= hi,
{
    if v < lo {
        lo
    } else if v > hi {
        hi
    } else {
        v
    }
}

/// Rounding toward zero never grows a magnitude and keeps the sign.
pub proof fn lemma_div_trunc_bounds(a: int, b: int)
    requires
        b > 0,
    ensures
        a >= 0 ==> 0 <= div_trunc(a, b) <= a,
        a <= 0 ==> a <= div_trunc(a, b) <= 0,
        div_trunc(-a, b) == -div_trunc(a, b),
        a >= 0 ==> div_trunc(a, b) * b <= a < (div_trunc(a, b) + 1) * b,
        a <= 0 ==> (div_trunc(a, b) - 1) * b < a <= div_trunc(a, b) * b,
{
    let m: int = if a >= 0 { a } else { -a };
    let q: int = m / b;
    assert(0 <= q <= m && q * b <= m < (q + 1) * b) by (nonlinear_arith)
        requires
            m >= 0,
            b > 0,
            q == m / b,
    ;
    if a <= 0 {
        assert((-q - 1) * b == -((q + 1) * b)) by (nonlinear_arith);
        assert((-q) * b == -(q * b)) by (nonlinear_arith);
    }
}

/// Rounding to the nearest keeps the sign, maps zero to zero, is odd, and
/// stays within a bound that the dividend stays within.
pub proof fn lemma_div_round_bounds(a: int, b: int, bound: int)
    requires
        b > 0,
        bound >= 0,
        -(bound * b) <= a <= bound * b,
    ensures
        -bound <= div_round(a, b) <= bound,
        a >= 0 ==> div_round(a, b) >= 0,
        a <= 0 ==> div_round(a, b) <= 0,
        a == 0 ==> div_round(a, b) == 0,
        a == bound * b ==> div_round(a, b) == bound,
        a == -(bound * b) ==> div_round(a, b) == -bound,
        div_round(-a, b) == -div_round(a, b),
{
    let m: int = if a >= 0 { a } else { -a };
    let top: int = bound * b;
    let q: int = (2 * m + b) / (2 * b);
    assert(0 <= q <= bound && (m == 0 ==> q == 0) && (m == top ==> q == bound))
        by (nonlinear_arith)
        requires
            b > 0,
            bound >= 0,
            0 <= m <= top,
            top == bound * b,
            q == (2 * m + b) / (2 * b),
    ;
}

/// Rounding toward zero is monotone in the dividend.
pub proof fn lemma_div_trunc_monotone(a: int, c: int, b: int)
    requires
        b > 0,
        a <= c,
    ensures
        div_trunc(a, b) <= div_trunc(c, b),
{
    lemma_div_trunc_bounds(a, b);
    lemma_div_trunc_bounds(c, b);
    if a >= 0 {
        assert(a / b <= c / b) by (nonlinear_arith)
            requires
                0 <= a <= c,
                b > 0,
        ;
    } else if c < 0 {
        assert((-c) / b <= (-a) / b) by (nonlinear_arith)
            requires
                0 <= -c <= -a,
                b > 0,
        ;
    }
}

/// A product whose factors are bounded is bounded by the product of the bounds.
pub proof fn lemma_product_bound(a: int, b: int, ma: int, mb: int)
    requires
        -ma <= a <= ma,
        -mb <= b <= mb,
    ensures
        -(ma * mb) <= a * b <= ma * mb,
{
    assert(-(ma * mb) <= a * b <= ma * mb) by (nonlinear_arith)
        requires
            -ma <= a <= ma,
            -mb <= b <= mb,
    ;
}

/// Product of two fixed-point values at `SCALE`, rounded toward zero.
pub fn times(a: i64, b: i64) -> (p: i128)
    ensures
        p == mul_fixed(a as int, b as int),
{
    proof {
        lemma_product_bound(
            a as int,
            b as int,
            0x8000_0000_0000_0000,
            0x8000_0000_0000_0000,
        );
    }
    let wide: i128 = (a as i128) * (b as i128);
    wide / (SCALE as i128)
}

/// Quotient of `a` by a positive `b`, rounded to the nearest whole number.
pub fn nearest(a: i128, b: i128) -> (q: i128)
    requires
        b > 0,
        b <= 0x2000_0000_0000_0000_0000_0000_0000_0000,
        -0x2000_0000_0000_0000_0000_0000_0000_0000 <= a <= 0x2000_0000_0000_0000_0000_0000_0000_0000,
    ensures
        q == div_round(a as int, b as int),
{
    if a >= 0 {
        (2 * a + b) / (2 * b)
    } else {
        -((2 * (-a) + b) / (2 * b))
    }
}

} // verus!
