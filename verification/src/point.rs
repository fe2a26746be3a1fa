//! Two-dimensional fixed-point vectors.

use crate::angle::{direction, direction_of, magnitude, magnitude_of};
use crate::roots::{
    floor_root, floor_sqrt, is_floor_root, lemma_floor_root_is, lemma_pow_base_monotone,
    lemma_pow_step, root, sqrt,
};
use crate::units::{
    div_round, div_trunc, lemma_div_round_bounds, lemma_product_bound, mul_fixed, nearest, SCALE,
};
use vstd::arithmetic::power::{lemma_pow_positive, pow};
use vstd::prelude::*;

verus! {

/// A vector, or a position, with both coordinates at `SCALE`.
#[derive(Clone, Copy, Debug, PartialEq, Eq, Structural)]
pub struct Point {
    pub x: i64,
    pub y: i64,
}

/// Coordinates shorter than this are boosted before a length is taken.
pub const SHORT: i64 = 0x8000_0000;

/// Factor by which short vectors are boosted.
pub const BOOST: i64 = 0x1_0000_0000;

/// Largest length that a vector can be brought to.
pub const LENGTH_LIMIT: i64 = 0x1fff_ffff_ffff_ffff;

/// Whether `v` can be held in a coordinate.
pub open spec fn fits(v: int) -> bool {
    i64::MIN <= v <= i64::MAX
}

/// The fixed-point value `x` raised to the whole power `n`, rounded toward
/// zero after every factor.
pub open spec fn power_fixed(x: int, n: nat) -> int
    decreases n,
{
    if n == 0 {
        SCALE as int
    } else {
        mul_fixed(power_fixed(x, (n - 1) as nat), x)
    }
}

/// Whether every power of `x` up to the `n`-th can be held in a coordinate.
pub open spec fn power_fits(x: int, n: nat) -> bool
    decreases n,
{
    n == 0 || (power_fits(x, (n - 1) as nat) && fits(power_fixed(x, n)))
}

/// The fixed-point value `x` raised to a whole power of either sign: a
/// negative power is one over the positive power, rounded toward zero.
pub open spec fn power_signed(x: int, n: int) -> int {
    if n >= 0 {
        power_fixed(x, n as nat)
    } else if power_fixed(x, (-n) as nat) > 0 {
        div_trunc(SCALE * SCALE, power_fixed(x, (-n) as nat))
    } else {
        -div_trunc(SCALE * SCALE, -power_fixed(x, (-n) as nat))
    }
}

/// Whether `x` can be raised to the whole power `n`: every power on the way
/// fits a coordinate, and where `n` is negative the matching positive power
/// is not zero.
pub open spec fn power_defined(x: int, n: int) -> bool {
    if n >= 0 {
        power_fits(x, n as nat)
    } else {
        power_fits(x, (-n) as nat) && power_fixed(x, (-n) as nat) != 0
    }
}

/// The fixed-point value `x >= 0` raised to the power `1 / k`, rounded down:
/// the `k`-th root of `x / SCALE`, counted in units of `1 / SCALE`.
pub open spec fn root_fixed(x: int, k: nat) -> int {
    floor_root(x * pow(SCALE as int, (k - 1) as nat), k)
}

/// Whether the `k`-th root of `x` can be taken within the machine's widest
/// unsigned integer.
pub open spec fn root_fits(x: int, k: nat) -> bool {
    x * pow(SCALE as int, (k - 1) as nat) <= u128::MAX
}

impl Point {
    /// The vector with both coordinates zero.
    pub open spec fn zero() -> Point {
        Point { x: 0, y: 0 }
    }

    /// Sum of two vectors, as whole numbers.
    pub open spec fn plus(self, other: Point) -> (int, int) {
        (self.x + other.x, self.y + other.y)
    }

    /// Difference of two vectors, as whole numbers.
    pub open spec fn minus(self, other: Point) -> (int, int) {
        (self.x - other.x, self.y - other.y)
    }

    /// Both coordinates moved by the same amount.
    pub open spec fn shifted(self, amount: int) -> (int, int) {
        (self.x + amount, self.y + amount)
    }

    /// Both coordinates multiplied by a fixed-point factor.
    pub open spec fn scaled(self, factor: int) -> (int, int) {
        (mul_fixed(self.x as int, factor), mul_fixed(self.y as int, factor))
    }

    /// Both coordinates raised to a whole power.
    pub open spec fn raised(self, exponent: int) -> (int, int) {
        (power_signed(self.x as int, exponent), power_signed(self.y as int, exponent))
    }

    /// Whether both coordinates can be raised to a whole power: every power
    /// on the way fits a coordinate, and where the power is negative the
    /// matching positive power is not zero.
    pub open spec fn can_be_raised(self, exponent: int) -> bool {
        power_defined(self.x as int, exponent) && power_defined(self.y as int, exponent)
    }

    /// Whether both coordinates have a root of the given degree: the degree
    /// is positive and neither coordinate is negative.
    pub open spec fn has_root(self, degree: nat) -> bool {
        degree >= 1 && self.x >= 0 && self.y >= 0
    }

    /// Both coordinates raised to the power `1 / degree`.
    pub open spec fn rooted(self, degree: nat) -> (int, int) {
        (root_fixed(self.x as int, degree), root_fixed(self.y as int, degree))
    }

    /// Length of the vector, rounded down.
    pub open spec fn length(self) -> int {
        floor_sqrt(self.x * self.x + self.y * self.y)
    }

    /// The vector with both coordinates multiplied by `BOOST` where both are
    /// short, so that its length has at least nine digits.
    pub open spec fn boosted(self) -> (int, int) {
        if magnitude_of(self.x as int) < SHORT && magnitude_of(self.y as int) < SHORT {
            (self.x * BOOST, self.y * BOOST)
        } else {
            (self.x as int, self.y as int)
        }
    }

    /// The vector brought to the given length, each coordinate rounded to
    /// the nearest; the zero vector stays zero. The length that the vector
    /// is divided by is taken of the boosted vector, so that short vectors
    /// come out as exactly as long ones.
    pub open spec fn resized(self, length: int) -> (int, int) {
        let b: (int, int) = self.boosted();
        let m: int = floor_sqrt(b.0 * b.0 + b.1 * b.1);
        if self.x == 0 && self.y == 0 {
            (0, 0)
        } else {
            (div_round(b.0 * length, m), div_round(b.1 * length, m))
        }
    }

    /// The vector scaled to unit length; the zero vector stays zero.
    pub open spec fn unit(self) -> (int, int) {
        self.resized(SCALE as int)
    }

    /// Whether the vector holds exactly the given pair of whole numbers.
    pub open spec fn holds(self, pair: (int, int)) -> bool {
        self.x == pair.0 && self.y == pair.1
    }

    /// Whether both numbers of a pair can be held in coordinates.
    pub open spec fn pair_fits(pair: (int, int)) -> bool {
        fits(pair.0) && fits(pair.1)
    }

    /// Replaces both coordinates.
    pub fn set(&mut self, x: i64, y: i64) -> (ret: &mut Point)
        ensures
            *ret == (Point { x, y }),
            *final(self) == *final(ret),
    {
        self.x = x;
        self.y = y;
        self
    }

    /// Adds `other` to this vector in place.
    pub fn add_to(&mut self, other: &Point) -> (ret: &mut Point)
        requires
            Point::pair_fits(old(self).plus(*other)),
        ensures
            ret.holds(old(self).plus(*other)),
            *final(self) == *final(ret),
    {
        self.x = self.x + other.x;
        self.y = self.y + other.y;
        self
    }

    /// Sum of this vector and `other`.
    pub fn add(&self, other: &Point) -> (sum: Point)
        requires
            Point::pair_fits(self.plus(*other)),
        ensures
            sum.holds(self.plus(*other)),
    {
        Point { x: self.x + other.x, y: self.y + other.y }
    }

    /// Subtracts `other` from this vector in place.
    pub fn sub_to(&mut self, other: &Point) -> (ret: &mut Point)
        requires
            Point::pair_fits(old(self).minus(*other)),
        ensures
            ret.holds(old(self).minus(*other)),
            *final(self) == *final(ret),
    {
        self.x = self.x - other.x;
        self.y = self.y - other.y;
        self
    }

    /// Difference of this vector and `other`.
    pub fn sub(&self, other: &Point) -> (difference: Point)
        requires
            Point::pair_fits(self.minus(*other)),
        ensures
            difference.holds(self.minus(*other)),
    {
        Point { x: self.x - other.x, y: self.y - other.y }
    }

    /// Adds the same amount to both coordinates in place.
    pub fn add_num_to(&mut self, other: i64) -> (ret: &mut Point)
        requires
            Point::pair_fits(old(self).shifted(other as int)),
        ensures
            ret.holds(old(self).shifted(other as int)),
            *final(self) == *final(ret),
    {
        self.x = self.x + other;
        self.y = self.y + other;
        self
    }

    /// This vector with the same amount added to both coordinates.
    pub fn add_num(&self, other: i64) -> (moved: Point)
        requires
            Point::pair_fits(self.shifted(other as int)),
        ensures
            moved.holds(self.shifted(other as int)),
    {
        Point { x: self.x + other, y: self.y + other }
    }

    /// Multiplies both coordinates by a fixed-point factor in place.
    pub fn scale_to(&mut self, scalar: i64) -> (ret: &mut Point)
        requires
            Point::pair_fits(old(self).scaled(scalar as int)),
        ensures
            ret.holds(old(self).scaled(scalar as int)),
            *final(self) == *final(ret),
    {
        self.x = times_fixed(self.x, scalar);
        self.y = times_fixed(self.y, scalar);
        self
    }

    /// This vector with both coordinates multiplied by a fixed-point factor.
    pub fn scale(&self, scalar: i64) -> (product: Point)
        requires
            Point::pair_fits(self.scaled(scalar as int)),
        ensures
            product.holds(self.scaled(scalar as int)),
    {
        Point { x: times_fixed(self.x, scalar), y: times_fixed(self.y, scalar) }
    }

    /// Raises both coordinates to a whole power in place. A negative power
    /// is one over the positive power.
    pub fn pow_to(&mut self, exponent: i32) -> (ret: &mut Point)
        requires
            old(self).can_be_raised(exponent as int),
        ensures
            ret.holds(old(self).raised(exponent as int)),
            *final(self) == *final(ret),
    {
        self.x = signed_power_of(self.x, exponent);
        self.y = signed_power_of(self.y, exponent);
        self
    }

    /// This vector with both coordinates raised to a whole power. A negative
    /// power is one over the positive power.
    pub fn pow(&self, exponent: i32) -> (power: Point)
        requires
            self.can_be_raised(exponent as int),
        ensures
            power.holds(self.raised(exponent as int)),
    {
        Point { x: signed_power_of(self.x, exponent), y: signed_power_of(self.y, exponent) }
    }

    /// Raises both coordinates to the power `1 / degree` in place. The
    /// power is not defined of a negative coordinate, nor for a zero degree;
    /// `powf` tells those apart.
    pub fn powf_to(&mut self, degree: u32) -> (ret: &mut Point)
        requires
            old(self).has_root(degree as nat),
            root_fits(old(self).x as int, degree as nat),
            root_fits(old(self).y as int, degree as nat),
        ensures
            ret.holds(old(self).rooted(degree as nat)),
            *final(self) == *final(ret),
    {
        self.x = root_of(self.x, degree);
        self.y = root_of(self.y, degree);
        self
    }

    /// This vector with both coordinates raised to the power `1 / degree`;
    /// `None` where a coordinate is negative or the degree is zero. A power
    /// `p / q` is had by `pow(p)` followed by `powf(q)`.
    pub fn powf(&self, degree: u32) -> (rooted: Option<Point>)
        requires
            self.has_root(degree as nat) ==> root_fits(self.x as int, degree as nat) && root_fits(
                self.y as int,
                degree as nat,
            ),
        ensures
            rooted.is_some() == self.has_root(degree as nat),
            rooted.is_some() ==> rooted.unwrap().holds(self.rooted(degree as nat)),
            rooted.is_some() ==> rooted.unwrap().x >= 0 && rooted.unwrap().y >= 0,
    {
        if degree == 0 || self.x < 0 || self.y < 0 {
            return None;
        }
        Some(Point { x: root_of(self.x, degree), y: root_of(self.y, degree) })
    }

    /// Direction of the vector, as an angle in `[0, TWO_PI)`; zero for the
    /// zero vector.
    pub fn angle(&self) -> (a: i64)
        ensures
            a == direction_of(self.x as int, self.y as int),
            0 <= a < crate::angle::TWO_PI,
    {
        direction(self.x, self.y)
    }

    /// Length of the vector, rounded down.
    pub fn magnitude(&self) -> (m: u64)
        ensures
            m == self.length(),
            m * m <= self.x * self.x + self.y * self.y < (m + 1) * (m + 1),
            m == 0 <==> (self.x == 0 && self.y == 0),
            m >= magnitude_of(self.x as int),
            m >= magnitude_of(self.y as int),
    {
        let ax: u128 = magnitude(self.x) as u128;
        let ay: u128 = magnitude(self.y) as u128;
        proof {
            lemma_squares(self.x as int, self.y as int, ax as int, ay as int);
        }
        let m: u64 = sqrt(ax * ax + ay * ay);
        proof {
            lemma_length_dominates(self.x as int, self.y as int, m as int);
        }
        m
    }

    /// This vector brought to the given length; the zero vector stays zero.
    pub fn with_length(&self, length: i64) -> (out: Point)
        requires
            0 <= length <= LENGTH_LIMIT,
        ensures
            out.holds(self.resized(length as int)),
            -length <= out.x <= length,
            -length <= out.y <= length,
    {
        if self.x == 0 && self.y == 0 {
            return Point { x: 0, y: 0 };
        }
        let short: bool = -SHORT < self.x && self.x < SHORT && -SHORT < self.y && self.y < SHORT;
        let b: Point = if short {
            Point { x: self.x * BOOST, y: self.y * BOOST }
        } else {
            Point { x: self.x, y: self.y }
        };
        let m: u64 = b.magnitude();
        proof {
            lemma_resize_bounds(b.x as int, m as int, length as int);
            lemma_resize_bounds(b.y as int, m as int, length as int);
        }
        let x: i128 = nearest((b.x as i128) * (length as i128), m as i128);
        let y: i128 = nearest((b.y as i128) * (length as i128), m as i128);
        Point { x: x as i64, y: y as i64 }
    }

    /// Scales the vector to unit length in place; the zero vector stays
    /// zero.
    pub fn normalize(&mut self) -> (ret: &mut Point)
        ensures
            ret.holds(old(self).unit()),
            -SCALE <= ret.x <= SCALE,
            -SCALE <= ret.y <= SCALE,
            *final(self) == *final(ret),
    {
        let unit: Point = self.with_length(SCALE);
        self.x = unit.x;
        self.y = unit.y;
        self
    }
}

/// Squares of two coordinates, written with their magnitudes, fit the widest
/// unsigned integer together.
proof fn lemma_squares(x: int, y: int, ax: int, ay: int)
    requires
        ax == magnitude_of(x),
        ay == magnitude_of(y),
        0 <= ax <= 0x8000_0000_0000_0000,
        0 <= ay <= 0x8000_0000_0000_0000,
    ensures
        ax * ax == x * x,
        ay * ay == y * y,
        0 <= ax * ax <= 0x4000_0000_0000_0000_0000_0000_0000_0000,
        0 <= ay * ay <= 0x4000_0000_0000_0000_0000_0000_0000_0000,
{
    assert(ax * ax == x * x) by (nonlinear_arith)
        requires
            ax == x || ax == -x,
    ;
    assert(ay * ay == y * y) by (nonlinear_arith)
        requires
            ay == y || ay == -y,
    ;
    lemma_product_bound(ax, ax, 0x8000_0000_0000_0000, 0x8000_0000_0000_0000);
    lemma_product_bound(ay, ay, 0x8000_0000_0000_0000, 0x8000_0000_0000_0000);
    assert(ax * ax >= 0 && ay * ay >= 0) by (nonlinear_arith);
}

/// A vector is at least as long as each of its coordinates, and has length
/// zero only when both are zero.
pub proof fn lemma_length_dominates(x: int, y: int, m: int)
    requires
        m >= 0,
        m * m <= x * x + y * y < (m + 1) * (m + 1),
    ensures
        m >= magnitude_of(x),
        m >= magnitude_of(y),
        m == 0 <==> (x == 0 && y == 0),
{
    let ax: int = magnitude_of(x);
    let ay: int = magnitude_of(y);
    assert(ax * ax == x * x && ay * ay == y * y) by (nonlinear_arith)
        requires
            ax == x || ax == -x,
            ay == y || ay == -y,
    ;
    assert(m >= ax && m >= ay && (m == 0 <==> (ax == 0 && ay == 0))) by (nonlinear_arith)
        requires
            m >= 0,
            ax >= 0,
            ay >= 0,
            m * m <= ax * ax + ay * ay < (m + 1) * (m + 1),
    ;
}

/// A coordinate times a length, divided by a length of the vector that
/// dominates the coordinate, stays within the length asked for, keeps its
/// sign, and reaches that length where the coordinate is all of the vector.
pub proof fn lemma_resize_bounds(c: int, m: int, length: int)
    requires
        m > 0,
        m >= magnitude_of(c),
        0 <= length,
        m <= 0x1_0000_0000_0000_0000,
        length <= LENGTH_LIMIT,
    ensures
        -length <= div_round(c * length, m) <= length,
        c >= 0 ==> div_round(c * length, m) >= 0,
        c <= 0 ==> div_round(c * length, m) <= 0,
        c == 0 ==> div_round(c * length, m) == 0,
        c == m ==> div_round(c * length, m) == length,
        c == -m ==> div_round(c * length, m) == -length,
        -0x2000_0000_0000_0000_0000_0000_0000_0000 <= c * length
            <= 0x2000_0000_0000_0000_0000_0000_0000_0000,
{
    let a: int = c * length;
    let top: int = length * m;
    assert(-top <= a <= top && (c == 0 ==> a == 0) && (c == m ==> a == top) && (c == -m ==> a
        == -top) && (c >= 0 ==> a >= 0) && (c <= 0 ==> a <= 0)) by (nonlinear_arith)
        requires
            -m <= c <= m,
            0 <= length,
            a == c * length,
            top == length * m,
    ;
    assert(0 <= top <= 0x2000_0000_0000_0000_0000_0000_0000_0000) by (nonlinear_arith)
        requires
            0 < m <= 0x1_0000_0000_0000_0000,
            0 <= length <= 0x1fff_ffff_ffff_ffff,
            top == length * m,
    ;
    lemma_div_round_bounds(a, m, length);
}

/// Product of two fixed-point values that fits a coordinate.
fn times_fixed(a: i64, b: i64) -> (p: i64)
    requires
        fits(mul_fixed(a as int, b as int)),
    ensures
        p == mul_fixed(a as int, b as int),
{
    crate::units::times(a, b) as i64
}

/// The fixed-point value `x` raised to the whole power `n` of either sign.
fn signed_power_of(x: i64, n: i32) -> (p: i64)
    requires
        power_defined(x as int, n as int),
    ensures
        p == power_signed(x as int, n as int),
{
    if n >= 0 {
        power_of(x, n as u32)
    } else {
        let positive: i64 = power_of(x, (-(n as i64)) as u32);
        let one: i128 = (SCALE as i128) * (SCALE as i128);
        proof {
            assert(SCALE * SCALE == 1_000_000_000_000) by (nonlinear_arith)
                requires
                    SCALE == 1_000_000,
            ;
            if positive > 0 {
                crate::units::lemma_div_trunc_bounds(1_000_000_000_000, positive as int);
            } else {
                crate::units::lemma_div_trunc_bounds(1_000_000_000_000, -positive);
            }
        }
        if positive > 0 {
            (one / (positive as i128)) as i64
        } else {
            (-(one / (-(positive as i128)))) as i64
        }
    }
}

/// The fixed-point value `x` raised to the whole power `n`.
fn power_of(x: i64, n: u32) -> (p: i64)
    requires
        power_fits(x as int, n as nat),
    ensures
        p == power_fixed(x as int, n as nat),
{
    let mut p: i64 = SCALE;
    let mut i: u32 = 0;
    while i < n
        invariant
            i <= n,
            p == power_fixed(x as int, i as nat),
            power_fits(x as int, n as nat),
        decreases n - i,
    {
        proof {
            lemma_power_fits_below(x as int, n as nat, (i + 1) as nat);
        }
        p = times_fixed(p, x);
        i = i + 1;
    }
    p
}

/// Where the powers up to the `n`-th fit, so do those up to any earlier one.
pub proof fn lemma_power_fits_below(x: int, n: nat, k: nat)
    requires
        power_fits(x, n),
        k <= n,
    ensures
        power_fits(x, k),
        k >= 1 ==> fits(power_fixed(x, k)),
    decreases n,
{
    if k < n {
        lemma_power_fits_below(x, (n - 1) as nat, k);
    }
}

/// The root of a fixed-point value is at most the larger of the value and
/// one, so it can be held in a coordinate.
pub proof fn lemma_root_fixed_bound(x: int, k: nat, r: int)
    requires
        x >= 0,
        k >= 1,
        is_floor_root(x * pow(SCALE as int, (k - 1) as nat), k, r),
    ensures
        r <= x || r <= SCALE,
{
    if r > x && r > SCALE {
        let j: nat = (k - 1) as nat;
        lemma_pow_base_monotone(SCALE as int, r, j);
        lemma_pow_positive(SCALE as int, j);
        lemma_pow_step(r, j);
        let ps: int = pow(SCALE as int, j);
        let pr: int = pow(r, j);
        assert(r * pr > x * ps) by (nonlinear_arith)
            requires
                r > x >= 0,
                pr >= ps > 0,
        ;
    }
}

/// The fixed-point value `x >= 0` raised to the power `1 / k`.
fn root_of(x: i64, k: u32) -> (r: i64)
    requires
        x >= 0,
        k >= 1,
        root_fits(x as int, k as nat),
    ensures
        r == root_fixed(x as int, k as nat),
        is_floor_root(x * pow(SCALE as int, (k - 1) as nat), k as nat, r as int),
        0 <= r,
{
    let ghost top: int = pow(SCALE as int, (k - 1) as nat);
    if x == 0 {
        proof {
            assert(x * top == 0) by (nonlinear_arith)
                requires
                    x == 0,
            ;
            vstd::arithmetic::power::lemma0_pow(k as nat);
            vstd::arithmetic::power::lemma1_pow(k as nat);
            lemma_floor_root_is(0, k as nat, 0);
        }
        return 0;
    }
    let mut unit: u128 = 1;
    let mut i: u32 = 1;
    proof {
        vstd::arithmetic::power::lemma_pow0(SCALE as int);
    }
    while i < k
        invariant
            1 <= i <= k,
            x >= 1,
            unit == pow(SCALE as int, (i - 1) as nat),
            top == pow(SCALE as int, (k - 1) as nat),
            x * top <= u128::MAX,
        decreases k - i,
    {
        proof {
            lemma_pow_step(SCALE as int, (i - 1) as nat);
            vstd::arithmetic::power::lemma_pow_increases(SCALE as nat, i as nat, (k - 1) as nat);
            let next: int = pow(SCALE as int, i as nat);
            lemma_pow_positive(SCALE as int, i as nat);
            assert(next <= x * top) by (nonlinear_arith)
                requires
                    0 < next <= top,
                    x >= 1,
            ;
            assert(SCALE * unit == unit * 1_000_000) by (nonlinear_arith)
                requires
                    SCALE == 1_000_000,
            ;
        }
        unit = unit * 1_000_000;
        i = i + 1;
    }
    let wide: u128 = root((x as u128) * unit, k);
    proof {
        lemma_root_fixed_bound(x as int, k as nat, wide as int);
    }
    wide as i64
}

} // verus!
