//! Angles in nanoradians: wrapping, sine and cosine, and the arctangent.
//!
//! The circle constants are whole numbers of nanoradians chosen so that a
//! full turn is exactly eight eighth-turns; the full turn is three
//! nanoradians short of the true one. Sine and cosine are power series
//! taken on the first eighth of a turn and carried to the other seven by
//! symmetry. The arctangent is Euler's series in the ratio of the two
//! coordinates. Both series are summed at twelve decimal places. Sine and
//! cosine are rounded to six places and stay within a millionth of the true
//! functions; the arctangent is rounded to nine and stays within five
//! nanoradians of the true one.

use crate::units::SCALE;
use vstd::prelude::*;

verus! {

/// An eighth of a turn.
pub const QUARTER_PI: i64 = 785_398_163;

/// A quarter of a turn.
pub const HALF_PI: i64 = 1_570_796_326;

/// Half a turn.
pub const PI: i64 = 3_141_592_652;

/// A full turn.
pub const TWO_PI: i64 = 6_283_185_304;

/// The value that stands for one while a series is summed.
pub const SERIES_ONE: i64 = 1_000_000_000_000;

/// Number of terms of the arctangent's series after the first.
pub const SERIES_TERMS: u32 = 32;

/// The angle in `[0, TWO_PI)` that differs from `a` by whole turns.
pub open spec fn wrap_angle(a: int) -> int {
    a % (TWO_PI as int)
}

/// The angle that repeated steps of a full turn toward zero reach first
/// inside `[-PI, PI]`: coming from above it stops in `(-PI, PI]`, coming
/// from below in `[-PI, PI)`.
pub open spec fn wrap_half(d: int) -> int {
    let e: int = (d + PI) % (TWO_PI as int);
    if -PI <= d <= PI {
        d
    } else if d > PI && e == 0 {
        PI as int
    } else {
        e - PI
    }
}

/// One step of a power series summed from the inside out: one less the
/// `k`-th part of `t` times what has been summed so far.
pub open spec fn series_step(t: int, prev: int, k: int) -> int {
    SERIES_ONE - (t * prev) / (k * SERIES_ONE)
}

/// Sine of an angle in the first eighth of a turn, scaled by `SCALE`: the
/// series `x - x^3/3! + x^5/5! - x^7/7! + x^9/9!`, rounded to the nearest.
pub open spec fn sine_small(x: int) -> int {
    let t: int = (x * x) / 1_000_000;
    let h1: int = series_step(t, SERIES_ONE as int, 72);
    let h2: int = series_step(t, h1, 42);
    let h3: int = series_step(t, h2, 20);
    let h4: int = series_step(t, h3, 6);
    (x * h4 + 500_000_000_000_000) / 1_000_000_000_000_000
}

/// Cosine of an angle in the first eighth of a turn, scaled by `SCALE`: the
/// series `1 - x^2/2! + x^4/4! - x^6/6! + x^8/8! - x^10/10!`, rounded to the
/// nearest.
pub open spec fn cosine_small(x: int) -> int {
    let t: int = (x * x) / 1_000_000;
    let g1: int = series_step(t, SERIES_ONE as int, 90);
    let g2: int = series_step(t, g1, 56);
    let g3: int = series_step(t, g2, 30);
    let g4: int = series_step(t, g3, 12);
    let g5: int = series_step(t, g4, 2);
    (g5 + 500_000) / 1_000_000
}

/// The eighth of a turn, counted from zero to seven, that an angle lies in.
pub open spec fn octant_of(a: int) -> int {
    wrap_angle(a) / (QUARTER_PI as int)
}

/// The angle in the first eighth of a turn whose sine and cosine give those
/// of `a`: how far `a` is from the nearest axis.
pub open spec fn reduced(a: int) -> int {
    let r: int = wrap_angle(a) % (QUARTER_PI as int);
    if octant_of(a) % 2 == 0 {
        r
    } else {
        QUARTER_PI - r
    }
}

/// Sine of any angle, scaled by `SCALE`.
pub open spec fn sine(a: int) -> int {
    let o: int = octant_of(a);
    let s: int = sine_small(reduced(a));
    let c: int = cosine_small(reduced(a));
    if o == 0 || o == 3 {
        s
    } else if o == 1 || o == 2 {
        c
    } else if o == 4 || o == 7 {
        -s
    } else {
        -c
    }
}

/// Cosine of any angle, scaled by `SCALE`.
pub open spec fn cosine(a: int) -> int {
    let o: int = octant_of(a);
    let s: int = sine_small(reduced(a));
    let c: int = cosine_small(reduced(a));
    if o == 0 || o == 7 {
        c
    } else if o == 1 || o == 6 {
        s
    } else if o == 2 || o == 5 {
        -s
    } else {
        -c
    }
}

/// The sum `1 + (2k/(2k+1)) y (1 + (2(k+1)/(2k+3)) y (1 + ...))` of Euler's
/// series for the arctangent, from its `k`-th term to its `n`-th, with `y`
/// and the sum scaled by `SERIES_ONE`.
pub open spec fn series_tail(y: int, k: int, n: int) -> int
    decreases n - k + 1,
{
    if k > n {
        SERIES_ONE as int
    } else {
        SERIES_ONE + (2 * k * y * series_tail(y, k + 1, n)) / ((2 * k + 1) * SERIES_ONE)
    }
}

/// Arctangent of `small / big`, for `0 <= small <= big` and `big > 0`, in
/// nanoradians and no more than an eighth of a turn. With `z` for the
/// ratio, this is `z / (1 + z^2)` times Euler's series in
/// `z^2 / (1 + z^2)`, rounded to the nearest.
pub open spec fn octant_arc(small: int, big: int) -> int {
    let q: int = (small * SERIES_ONE) / big;
    let den: int = SERIES_ONE * SERIES_ONE + q * q;
    let y: int = (q * q * SERIES_ONE) / den;
    let p: int = (q * SERIES_ONE * SERIES_ONE) / den;
    let a: int = (p * series_tail(y, 1, SERIES_TERMS as int)) / (SERIES_ONE as int);
    let u: int = (a + 500) / 1_000;
    if small == big || u > QUARTER_PI {
        QUARTER_PI as int
    } else {
        u
    }
}

/// Magnitude of a whole number.
pub open spec fn magnitude_of(v: int) -> int {
    if v < 0 {
        -v
    } else {
        v
    }
}

/// Arctangent of `y / x`, in `[-HALF_PI, HALF_PI]`. A zero `x` stands for an
/// unbounded ratio with the sign of `y`; the ratio of two zeros has arc zero.
pub open spec fn arc_of_ratio(y: int, x: int) -> int {
    let ax: int = magnitude_of(x);
    let ay: int = magnitude_of(y);
    if x == 0 {
        if y > 0 {
            HALF_PI as int
        } else if y < 0 {
            -HALF_PI
        } else {
            0
        }
    } else {
        let arc: int = if ay <= ax {
            octant_arc(ay, ax)
        } else {
            HALF_PI - octant_arc(ax, ay)
        };
        if (x > 0) == (y >= 0) {
            arc
        } else {
            -arc
        }
    }
}

/// Direction of the vector `(x, y)` as an angle in `[0, TWO_PI)`: the
/// arctangent of `y / x`, moved half a turn on when `x` is negative, then
/// wrapped. The zero vector has direction zero.
pub open spec fn direction_of(x: int, y: int) -> int {
    if x == 0 && y == 0 {
        0
    } else {
        wrap_angle(arc_of_ratio(y, x) + if x < 0 { PI as int } else { 0 })
    }
}

/// A wrapped angle lies in `[0, TWO_PI)` and differs from the angle it came
/// from by whole turns; angles already in range are left alone.
pub proof fn theorem_wrap_angle(a: int)
    ensures
        0 <= wrap_angle(a) < TWO_PI,
        (a - wrap_angle(a)) % (TWO_PI as int) == 0,
        0 <= a < TWO_PI ==> wrap_angle(a) == a,
        wrap_angle(a + TWO_PI) == wrap_angle(a),
        wrap_angle(a - TWO_PI) == wrap_angle(a),
        wrap_angle(wrap_angle(a)) == wrap_angle(a),
{
}

/// A half-wrapped angle lies in `[-PI, PI]` and differs from the angle it
/// came from by whole turns.
pub proof fn theorem_wrap_half(d: int)
    ensures
        -PI <= wrap_half(d) <= PI,
        (d - wrap_half(d)) % (TWO_PI as int) == 0,
{
}

/// A quotient of a product that stays within the square of one stays within
/// one.
proof fn lemma_series_quotient(p: int, k: int)
    requires
        0 <= p <= 1_000_000_000_000_000_000_000_000,
        k >= 1,
    ensures
        0 <= p / (k * SERIES_ONE) <= SERIES_ONE,
        p == 0 ==> p / (k * SERIES_ONE) == 0,
{
    let d: int = k * SERIES_ONE;
    assert(d >= 1_000_000_000_000);
    assert(0 <= p / d <= 1_000_000_000_000 && (p == 0 ==> p / d == 0)) by (nonlinear_arith)
        requires
            0 <= p <= 1_000_000_000_000 * 1_000_000_000_000,
            d >= 1_000_000_000_000,
    ;
}

/// A step of a series stays between zero and one, and is one where `t` is
/// zero.
pub proof fn lemma_series_step(t: int, prev: int, k: int)
    requires
        0 <= t <= SERIES_ONE,
        0 <= prev <= SERIES_ONE,
        k >= 1,
    ensures
        0 <= series_step(t, prev, k) <= SERIES_ONE,
        t == 0 ==> series_step(t, prev, k) == SERIES_ONE,
{
    let p: int = t * prev;
    assert(0 <= p <= 1_000_000_000_000_000_000_000_000 && (t == 0 ==> p == 0)) by (nonlinear_arith)
        requires
            0 <= t <= 1_000_000_000_000,
            0 <= prev <= 1_000_000_000_000,
            p == t * prev,
    ;
    lemma_series_quotient(p, k);
}

/// The square of an angle in the first eighth of a turn, at twelve places,
/// stays below one.
proof fn lemma_small_square(x: int)
    requires
        0 <= x <= QUARTER_PI,
    ensures
        0 <= (x * x) / 1_000_000 <= 616_850_274_443,
        0 <= x * x <= 616_850_274_443_774_569,
        x == 0 ==> (x * x) / 1_000_000 == 0,
{
    let xx: int = x * x;
    assert(0 <= xx <= 785_398_163 * 785_398_163 && (x == 0 ==> xx == 0)) by (nonlinear_arith)
        requires
            0 <= x <= 785_398_163,
            xx == x * x,
    ;
}

/// An angle in nanoradians times a factor of at most one, rounded to six
/// places, stays within the angle in microradians and one more.
proof fn lemma_rounded_product(x: int, h: int)
    requires
        0 <= x,
        0 <= h <= SERIES_ONE,
    ensures
        0 <= (x * h + 500_000_000_000_000) / 1_000_000_000_000_000 <= x / 1_000 + 1,
        x == 0 ==> (x * h + 500_000_000_000_000) / 1_000_000_000_000_000 == 0,
{
    let p: int = x * h;
    assert(0 <= p <= x * 1_000_000_000_000 && (x == 0 ==> p == 0)) by (nonlinear_arith)
        requires
            0 <= x,
            0 <= h <= 1_000_000_000_000,
            p == x * h,
    ;
}

/// On the first eighth of a turn the sine runs from zero to less than
/// eight tenths, and the cosine from zero to `SCALE`; at zero they are zero
/// and `SCALE`.
pub proof fn lemma_small_bounds(x: int)
    requires
        0 <= x <= QUARTER_PI,
    ensures
        0 <= sine_small(x) <= 785_399,
        0 <= cosine_small(x) <= SCALE,
        x == 0 ==> sine_small(x) == 0 && cosine_small(x) == SCALE,
{
    let t: int = (x * x) / 1_000_000;
    lemma_small_square(x);
    let one: int = SERIES_ONE as int;
    lemma_series_step(t, one, 72);
    let h1: int = series_step(t, one, 72);
    lemma_series_step(t, h1, 42);
    let h2: int = series_step(t, h1, 42);
    lemma_series_step(t, h2, 20);
    let h3: int = series_step(t, h2, 20);
    lemma_series_step(t, h3, 6);
    let h4: int = series_step(t, h3, 6);
    lemma_rounded_product(x, h4);
    lemma_series_step(t, one, 90);
    let g1: int = series_step(t, one, 90);
    lemma_series_step(t, g1, 56);
    let g2: int = series_step(t, g1, 56);
    lemma_series_step(t, g2, 30);
    let g3: int = series_step(t, g2, 30);
    lemma_series_step(t, g3, 12);
    let g4: int = series_step(t, g3, 12);
    lemma_series_step(t, g4, 2);
}

/// The reduced angle lies in the first eighth of a turn, and the octant is
/// one of eight.
pub proof fn lemma_reduced(a: int)
    ensures
        0 <= octant_of(a) <= 7,
        0 <= reduced(a) <= QUARTER_PI,
{
}

/// Sine and cosine stay between `-SCALE` and `SCALE`.
pub proof fn lemma_sine_bounds(a: int)
    ensures
        -SCALE <= sine(a) <= SCALE,
        -SCALE <= cosine(a) <= SCALE,
{
    lemma_reduced(a);
    lemma_small_bounds(reduced(a));
}

/// Sine and cosine never both reach full magnitude at one angle: one of
/// them is the sine of an angle in the first eighth of a turn.
pub proof fn lemma_sine_cosine_not_both_full(a: int)
    ensures
        !(magnitude_of(sine(a)) == SCALE && magnitude_of(cosine(a)) == SCALE),
{
    lemma_reduced(a);
    lemma_small_bounds(reduced(a));
}

/// The tail of Euler's series lies between one and two where its argument
/// is at most a half.
pub proof fn lemma_series_tail(y: int, k: int, n: int)
    requires
        0 <= y <= SERIES_ONE / 2,
        k >= 1,
    ensures
        SERIES_ONE <= series_tail(y, k, n) <= 2 * SERIES_ONE,
    decreases n - k + 1,
{
    if k <= n {
        lemma_series_tail(y, k + 1, n);
        let s: int = series_tail(y, k + 1, n);
        let top: int = 2 * k * y * s;
        let den: int = (2 * k + 1) * SERIES_ONE;
        lemma_tail_step(y, k, s);
    }
}

/// One term of the tail adds between nothing and one.
proof fn lemma_tail_step(y: int, k: int, s: int)
    requires
        0 <= y <= SERIES_ONE / 2,
        k >= 1,
        SERIES_ONE <= s <= 2 * SERIES_ONE,
    ensures
        0 <= (2 * k * y * s) / ((2 * k + 1) * SERIES_ONE) <= SERIES_ONE,
{
    let one: int = 1_000_000_000_000;
    let ys: int = y * s;
    assert(0 <= ys <= one * one) by (nonlinear_arith)
        requires
            0 <= y <= 500_000_000_000,
            0 <= s <= 2_000_000_000_000,
            ys == y * s,
            one == 1_000_000_000_000,
    ;
    let top: int = 2 * k * y * s;
    assert(top == (2 * k) * ys) by (nonlinear_arith)
        requires
            top == 2 * k * y * s,
            ys == y * s,
    ;
    let den: int = (2 * k + 1) * SERIES_ONE;
    assert(den == (2 * k + 1) * one);
    assert(0 <= top / den <= one) by (nonlinear_arith)
        requires
            top == (2 * k) * ys,
            den == (2 * k + 1) * one,
            0 <= ys <= one * one,
            k >= 1,
            one > 0,
    ;
}

/// The parts that the arctangent of a ratio is built from: the ratio at
/// twelve places, the argument of the series, and the factor in front.
proof fn lemma_arc_parts(small: int, big: int)
    requires
        0 <= small <= big,
        big > 0,
    ensures
        ({
            let q: int = (small * SERIES_ONE) / big;
            let den: int = SERIES_ONE * SERIES_ONE + q * q;
            let y: int = (q * q * SERIES_ONE) / den;
            let p: int = (q * SERIES_ONE * SERIES_ONE) / den;
            &&& 0 <= q <= SERIES_ONE
            &&& 0 <= q * q <= 1_000_000_000_000_000_000_000_000
            &&& den > 0
            &&& 0 <= y <= SERIES_ONE / 2
            &&& 0 <= p <= SERIES_ONE
            &&& (small == 0 ==> p == 0)
        }),
{
    let one: int = 1_000_000_000_000;
    let q: int = (small * SERIES_ONE) / big;
    assert(0 <= q <= one && (small == 0 ==> q == 0)) by (nonlinear_arith)
        requires
            0 <= small <= big,
            big > 0,
            q == (small * one) / big,
            one == 1_000_000_000_000,
    ;
    let qq: int = q * q;
    assert(0 <= qq <= one * one && (q == 0 ==> qq == 0)) by (nonlinear_arith)
        requires
            0 <= q <= one,
            qq == q * q,
    ;
    assert(one * one == 1_000_000_000_000_000_000_000_000) by (nonlinear_arith)
        requires
            one == 1_000_000_000_000,
    ;
    let den: int = SERIES_ONE * SERIES_ONE + q * q;
    assert(SERIES_ONE * SERIES_ONE == one * one);
    assert(den == one * one + qq);
    let yn: int = q * q * SERIES_ONE;
    assert(yn == qq * one);
    assert(0 <= yn / den <= one / 2) by (nonlinear_arith)
        requires
            yn == qq * one,
            den == one * one + qq,
            0 <= qq <= one * one,
            one == 1_000_000_000_000,
    ;
    let pn: int = q * SERIES_ONE * SERIES_ONE;
    assert(pn == q * (one * one)) by (nonlinear_arith)
        requires
            pn == q * one * one,
    ;
    assert(0 <= pn / den <= one && (q == 0 ==> pn / den == 0)) by (nonlinear_arith)
        requires
            pn == q * (one * one),
            den == one * one + qq,
            0 <= qq,
            0 <= q <= one,
            one == 1_000_000_000_000,
    ;
}

/// The arctangent of a ratio of at most one runs from zero up to an eighth
/// of a turn.
pub proof fn lemma_octant_arc_bounds(small: int, big: int)
    requires
        0 <= small <= big,
        big > 0,
    ensures
        0 <= octant_arc(small, big) <= QUARTER_PI,
        small == 0 ==> octant_arc(small, big) == 0,
        small == big ==> octant_arc(small, big) == QUARTER_PI,
{
    lemma_arc_parts(small, big);
    let q: int = (small * SERIES_ONE) / big;
    let den: int = SERIES_ONE * SERIES_ONE + q * q;
    let y: int = (q * q * SERIES_ONE) / den;
    let p: int = (q * SERIES_ONE * SERIES_ONE) / den;
    lemma_series_tail(y, 1, SERIES_TERMS as int);
    let s: int = series_tail(y, 1, SERIES_TERMS as int);
    let ps: int = p * s;
    assert(0 <= ps && (p == 0 ==> ps == 0)) by (nonlinear_arith)
        requires
            0 <= p,
            0 <= s,
            ps == p * s,
    ;
    let a: int = ps / (SERIES_ONE as int);
    assert(a >= 0 && (ps == 0 ==> a == 0));
}

/// The arc of a ratio lies within a quarter turn of zero, on the side that
/// the signs of the two numbers give.
pub proof fn lemma_arc_of_ratio_bounds(y: int, x: int)
    ensures
        -HALF_PI <= arc_of_ratio(y, x) <= HALF_PI,
        x != 0 && (x > 0) == (y >= 0) ==> arc_of_ratio(y, x) >= 0,
        x != 0 && (x > 0) != (y >= 0) ==> arc_of_ratio(y, x) <= 0,
        y == 0 ==> arc_of_ratio(y, x) == 0,
        x != 0 && magnitude_of(y) == magnitude_of(x) ==> magnitude_of(arc_of_ratio(y, x))
            == QUARTER_PI,
{
    let ax: int = magnitude_of(x);
    let ay: int = magnitude_of(y);
    if x != 0 {
        if ay <= ax {
            lemma_octant_arc_bounds(ay, ax);
        } else {
            lemma_octant_arc_bounds(ax, ay);
        }
    }
}

/// The direction of a vector lies in the quarter of the plane that holds the
/// vector, and is exact along the axes and the diagonals.
pub proof fn theorem_direction_quadrant(x: int, y: int)
    ensures
        0 <= direction_of(x, y) < TWO_PI,
        x > 0 && y >= 0 ==> 0 <= direction_of(x, y) <= HALF_PI,
        x <= 0 && y > 0 ==> HALF_PI <= direction_of(x, y) <= PI,
        x < 0 && y <= 0 ==> PI <= direction_of(x, y) <= 3 * HALF_PI,
        x >= 0 && y < 0 ==> 3 * HALF_PI <= direction_of(x, y) < TWO_PI || direction_of(x, y) == 0,
        x > 0 && y == 0 ==> direction_of(x, y) == 0,
        x == 0 && y > 0 ==> direction_of(x, y) == HALF_PI,
        x < 0 && y == 0 ==> direction_of(x, y) == PI,
        x == 0 && y < 0 ==> direction_of(x, y) == 3 * HALF_PI,
        x > 0 && y == x ==> direction_of(x, y) == QUARTER_PI,
        x < 0 && y == -x ==> direction_of(x, y) == 3 * QUARTER_PI,
        x < 0 && y == x ==> direction_of(x, y) == 5 * QUARTER_PI,
        x > 0 && y == -x ==> direction_of(x, y) == 7 * QUARTER_PI,
{
    lemma_arc_of_ratio_bounds(y, x);
}

/// The angle in `[0, TWO_PI)` that differs from `a` by whole turns. Whole
/// turns that `a` is away from the range are dropped at once; what is left
/// is stepped into the range one turn at a time.
pub fn wrap_wide(a: i128) -> (w: i64)
    ensures
        w == wrap_angle(a as int),
        0 <= w < TWO_PI,
{
    let mut w: i128 = a % (TWO_PI as i128);
    while w < 0
        invariant
            -TWO_PI < w < TWO_PI,
            wrap_angle(w as int) == wrap_angle(a as int),
        decreases TWO_PI - w,
    {
        w = w + (TWO_PI as i128);
    }
    while w >= TWO_PI as i128
        invariant
            0 <= w < 2 * TWO_PI,
            wrap_angle(w as int) == wrap_angle(a as int),
        decreases w,
    {
        w = w - (TWO_PI as i128);
    }
    w as i64
}

/// The angle in `[0, TWO_PI)` that differs from `a` by whole turns.
pub fn wrap(a: i64) -> (w: i64)
    ensures
        w == wrap_angle(a as int),
        0 <= w < TWO_PI,
{
    wrap_wide(a as i128)
}

/// The difference `d` brought into `[-PI, PI]` by whole turns toward zero.
/// Whole turns that `d` is away from the range are dropped at once; what is
/// left is stepped into the range one turn at a time.
pub fn wrap_signed(d: i64) -> (w: i64)
    ensures
        w == wrap_half(d as int),
        -PI <= w <= PI,
{
    let mut w: i64 = d % TWO_PI;
    while w > PI
        invariant
            -TWO_PI < w < TWO_PI,
            -PI <= d <= PI ==> w == d,
            d > PI ==> w > -PI,
            d < -PI ==> w <= 0,
            (w + PI) % (TWO_PI as int) == (d + PI) % (TWO_PI as int),
        decreases w + PI,
    {
        w = w - TWO_PI;
    }
    while w < -PI
        invariant
            -TWO_PI < w <= PI,
            -PI <= d <= PI ==> w == d,
            d > PI ==> w > -PI,
            d < -PI ==> w < PI,
            (w + PI) % (TWO_PI as int) == (d + PI) % (TWO_PI as int),
        decreases PI - w,
    {
        w = w + TWO_PI;
    }
    w
}

/// One step of a power series.
fn step(t: i128, prev: i128, k: i128) -> (next: i128)
    requires
        0 <= t <= SERIES_ONE,
        0 <= prev <= SERIES_ONE,
        1 <= k <= 100,
    ensures
        next == series_step(t as int, prev as int, k as int),
        0 <= next <= SERIES_ONE,
{
    proof {
        lemma_series_step(t as int, prev as int, k as int);
        let p: int = t * prev;
        assert(0 <= p <= 1_000_000_000_000_000_000_000_000) by (nonlinear_arith)
            requires
                0 <= t <= 1_000_000_000_000,
                0 <= prev <= 1_000_000_000_000,
                p == t * prev,
        ;
    }
    (SERIES_ONE as i128) - (t * prev) / (k * (SERIES_ONE as i128))
}

/// Sine and cosine of an angle in the first eighth of a turn.
fn small_pair(x: i64) -> (pair: (i64, i64))
    requires
        0 <= x <= QUARTER_PI,
    ensures
        pair.0 == sine_small(x as int),
        pair.1 == cosine_small(x as int),
        0 <= pair.0 <= 785_399,
        0 <= pair.1 <= SCALE,
{
    proof {
        lemma_small_bounds(x as int);
        lemma_small_square(x as int);
    }
    let one: i128 = SERIES_ONE as i128;
    let t: i128 = ((x as i128) * (x as i128)) / 1_000_000;
    let h1: i128 = step(t, one, 72);
    let h2: i128 = step(t, h1, 42);
    let h3: i128 = step(t, h2, 20);
    let h4: i128 = step(t, h3, 6);
    let g1: i128 = step(t, one, 90);
    let g2: i128 = step(t, g1, 56);
    let g3: i128 = step(t, g2, 30);
    let g4: i128 = step(t, g3, 12);
    let g5: i128 = step(t, g4, 2);
    let s: i128 = round_at_one(x as i128, h4);
    let c: i128 = (g5 + 500_000) / 1_000_000;
    (s as i64, c as i64)
}

/// An angle in nanoradians times a factor of at most one, rounded to six
/// places.
fn round_at_one(x: i128, h: i128) -> (r: i128)
    requires
        0 <= x <= QUARTER_PI,
        0 <= h <= SERIES_ONE,
    ensures
        r == (x * h + 500_000_000_000_000) / 1_000_000_000_000_000,
        0 <= r <= 785_399,
{
    proof {
        lemma_rounded_product(x as int, h as int);
        let p: int = x * h;
        assert(0 <= p <= 785_398_163 * 1_000_000_000_000) by (nonlinear_arith)
            requires
                0 <= x <= 785_398_163,
                0 <= h <= 1_000_000_000_000,
                p == x * h,
        ;
    }
    (x * h + 500_000_000_000_000) / 1_000_000_000_000_000
}

/// The octant of a wrapped angle and the angle reduced to the first octant.
fn reduce(a: i64) -> (parts: (i64, i64))
    ensures
        parts.0 == octant_of(a as int),
        parts.1 == reduced(a as int),
        0 <= parts.0 <= 7,
        0 <= parts.1 <= QUARTER_PI,
{
    let w: i64 = wrap(a);
    let o: i64 = w / QUARTER_PI;
    let r: i64 = w % QUARTER_PI;
    if o % 2 == 0 {
        (o, r)
    } else {
        (o, QUARTER_PI - r)
    }
}

/// Sine of any angle, scaled by `SCALE`.
pub fn sin(a: i64) -> (s: i64)
    ensures
        s == sine(a as int),
        -SCALE <= s <= SCALE,
{
    let (o, x) = reduce(a);
    let (s, c) = small_pair(x);
    if o == 0 || o == 3 {
        s
    } else if o == 1 || o == 2 {
        c
    } else if o == 4 || o == 7 {
        -s
    } else {
        -c
    }
}

/// Cosine of any angle, scaled by `SCALE`.
pub fn cos(a: i64) -> (c: i64)
    ensures
        c == cosine(a as int),
        -SCALE <= c <= SCALE,
{
    let (o, x) = reduce(a);
    let (s, c) = small_pair(x);
    if o == 0 || o == 7 {
        c
    } else if o == 1 || o == 6 {
        s
    } else if o == 2 || o == 5 {
        -s
    } else {
        -c
    }
}

/// Magnitude of a signed number, which always fits the unsigned type.
pub fn magnitude(v: i64) -> (m: u64)
    ensures
        m == magnitude_of(v as int),
{
    if v < 0 {
        (-(v as i128)) as u64
    } else {
        v as u64
    }
}

/// The tail of Euler's series from its first term.
fn tail_of(y: u128) -> (s: u128)
    requires
        y <= SERIES_ONE / 2,
    ensures
        s == series_tail(y as int, 1, SERIES_TERMS as int),
        SERIES_ONE <= s <= 2 * SERIES_ONE,
{
    let one: u128 = SERIES_ONE as u128;
    let mut s: u128 = one;
    let mut k: u128 = SERIES_TERMS as u128;
    while k >= 1
        invariant
            0 <= k <= SERIES_TERMS,
            y <= SERIES_ONE / 2,
            one == SERIES_ONE,
            s == series_tail(y as int, k + 1, SERIES_TERMS as int),
            SERIES_ONE <= s <= 2 * SERIES_ONE,
        decreases k,
    {
        proof {
            lemma_series_tail(y as int, k as int, SERIES_TERMS as int);
            lemma_tail_step(y as int, k as int, s as int);
            let ys: int = y * s;
            assert(0 <= ys <= 1_000_000_000_000_000_000_000_000) by (nonlinear_arith)
                requires
                    0 <= y <= 500_000_000_000,
                    0 <= s <= 2_000_000_000_000,
                    ys == y * s,
            ;
            assert(2 * k * y * s == (2 * k) * ys) by (nonlinear_arith)
                requires
                    ys == y * s,
            ;
            assert(0 <= (2 * k) * ys <= 64 * 1_000_000_000_000_000_000_000_000) by (nonlinear_arith)
                requires
                    0 <= k <= 32,
                    0 <= ys <= 1_000_000_000_000_000_000_000_000,
            ;
            assert(2 * k * y <= 64 * 500_000_000_000) by (nonlinear_arith)
                requires
                    0 <= k <= 32,
                    0 <= y <= 500_000_000_000,
            ;
        }
        s = one + (2 * k * y * s) / ((2 * k + 1) * one);
        k = k - 1;
    }
    s
}

/// Arctangent of `small / big`, for `0 <= small <= big` and `big > 0`.
fn octant_arc_of(small: u128, big: u128) -> (arc: i64)
    requires
        small <= big,
        0 < big <= 0x8000_0000_0000_0000,
    ensures
        arc == octant_arc(small as int, big as int),
        0 <= arc <= QUARTER_PI,
{
    proof {
        lemma_octant_arc_bounds(small as int, big as int);
        lemma_arc_parts(small as int, big as int);
        assert(small * SERIES_ONE <= 0x8000_0000_0000_0000 * 1_000_000_000_000) by (nonlinear_arith)
            requires
                0 <= small <= 0x8000_0000_0000_0000,
                SERIES_ONE == 1_000_000_000_000,
        ;
    }
    let one: u128 = SERIES_ONE as u128;
    let q: u128 = (small * one) / big;
    let qq: u128 = q * q;
    proof {
        assert(one * one == 1_000_000_000_000_000_000_000_000) by (nonlinear_arith)
            requires
                one == 1_000_000_000_000,
        ;
        assert(qq * one <= 1_000_000_000_000_000_000_000_000 * 1_000_000_000_000)
            by (nonlinear_arith)
            requires
                0 <= qq <= 1_000_000_000_000_000_000_000_000,
                one == 1_000_000_000_000,
        ;
        assert(q * one <= 1_000_000_000_000 * 1_000_000_000_000) by (nonlinear_arith)
            requires
                0 <= q <= 1_000_000_000_000,
                one == 1_000_000_000_000,
        ;
        assert(q * one * one <= 1_000_000_000_000_000_000_000_000 * 1_000_000_000_000)
            by (nonlinear_arith)
            requires
                0 <= q * one <= 1_000_000_000_000_000_000_000_000,
                one == 1_000_000_000_000,
        ;
    }
    let den: u128 = one * one + qq;
    let y: u128 = (qq * one) / den;
    let p: u128 = (q * one * one) / den;
    let s: u128 = tail_of(y);
    proof {
        assert(p * s <= 1_000_000_000_000 * 2_000_000_000_000) by (nonlinear_arith)
            requires
                0 <= p <= 1_000_000_000_000,
                0 <= s <= 2_000_000_000_000,
        ;
    }
    let a: u128 = (p * s) / one;
    let u: u128 = (a + 500) / 1_000;
    if small == big || u > QUARTER_PI as u128 {
        QUARTER_PI
    } else {
        u as i64
    }
}

/// Arctangent of `y / x`, in `[-HALF_PI, HALF_PI]`.
pub fn arc(y: i64, x: i64) -> (a: i64)
    ensures
        a == arc_of_ratio(y as int, x as int),
        -HALF_PI <= a <= HALF_PI,
{
    proof {
        lemma_arc_of_ratio_bounds(y as int, x as int);
    }
    if x == 0 {
        if y > 0 {
            return HALF_PI;
        } else if y < 0 {
            return -HALF_PI;
        } else {
            return 0;
        }
    }
    let ax: u128 = magnitude(x) as u128;
    let ay: u128 = magnitude(y) as u128;
    let size: i64 = if ay <= ax {
        octant_arc_of(ay, ax)
    } else {
        HALF_PI - octant_arc_of(ax, ay)
    };
    if (x > 0) == (y >= 0) {
        size
    } else {
        -size
    }
}

/// Direction of the vector `(x, y)` as an angle in `[0, TWO_PI)`.
pub fn direction(x: i64, y: i64) -> (a: i64)
    ensures
        a == direction_of(x as int, y as int),
        0 <= a < TWO_PI,
{
    if x == 0 && y == 0 {
        return 0;
    }
    let mut a: i64 = arc(y, x);
    if x < 0 {
        a = PI + a;
    }
    wrap(a)
}

} // verus!
