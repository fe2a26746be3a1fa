//! Integer roots, rounded down.

use vstd::arithmetic::power::{lemma_pow_increases, lemma_pow_positive, pow};
use vstd::prelude::*;

verus! {

/// `r` is the `k`-th root of `n` rounded down: the last whole number whose
/// `k`-th power does not pass `n`.
pub open spec fn is_floor_root(n: int, k: nat, r: int) -> bool {
    0 <= r && pow(r, k) <= n < pow(r + 1, k)
}

/// The `k`-th root of `n`, rounded down (for `n >= 0` and `k >= 1`).
pub open spec fn floor_root(n: int, k: nat) -> int {
    choose|r: int| is_floor_root(n, k, r)
}

/// The square root of `n`, rounded down (for `n >= 0`).
pub open spec fn floor_sqrt(n: int) -> int {
    floor_root(n, 2)
}

/// One more factor of the base.
pub proof fn lemma_pow_step(b: int, e: nat)
    ensures
        pow(b, e + 1) == b * pow(b, e),
{
    reveal(pow);
}

/// Powers of non-negative bases keep the order of the bases.
pub proof fn lemma_pow_base_monotone(a: int, b: int, k: nat)
    requires
        0 <= a <= b,
    ensures
        0 <= pow(a, k) <= pow(b, k),
    decreases k,
{
    reveal(pow);
    if k > 0 {
        lemma_pow_base_monotone(a, b, (k - 1) as nat);
        let pa: int = pow(a, (k - 1) as nat);
        let pb: int = pow(b, (k - 1) as nat);
        assert(0 <= a * pa <= b * pb) by (nonlinear_arith)
            requires
                0 <= a <= b,
                0 <= pa <= pb,
        ;
    }
}

/// Powers with a positive exponent keep the strict order of the bases.
pub proof fn lemma_pow_base_strict(a: int, b: int, k: nat)
    requires
        0 <= a < b,
        k >= 1,
    ensures
        pow(a, k) < pow(b, k),
{
    reveal(pow);
    let j: nat = (k - 1) as nat;
    lemma_pow_base_monotone(a, b, j);
    lemma_pow_positive(b, j);
    let pa: int = pow(a, j);
    let pb: int = pow(b, j);
    assert(a * pa < b * pb) by (nonlinear_arith)
        requires
            0 <= a < b,
            0 <= pa <= pb,
            0 < pb,
    ;
}

/// A number has at most one rounded-down root.
pub proof fn lemma_floor_root_unique(n: int, k: nat, r1: int, r2: int)
    requires
        k >= 1,
        is_floor_root(n, k, r1),
        is_floor_root(n, k, r2),
    ensures
        r1 == r2,
{
    if r1 < r2 {
        lemma_pow_base_monotone(r1 + 1, r2, k);
    } else if r2 < r1 {
        lemma_pow_base_monotone(r2 + 1, r1, k);
    }
}

/// Whatever meets the definition is the root.
pub proof fn lemma_floor_root_is(n: int, k: nat, r: int)
    requires
        k >= 1,
        is_floor_root(n, k, r),
    ensures
        floor_root(n, k) == r,
{
    lemma_floor_root_unique(n, k, r, floor_root(n, k));
}

/// The square of a whole number has that number as its root.
pub proof fn lemma_floor_sqrt_of_square(r: int)
    requires
        r >= 0,
    ensures
        floor_sqrt(r * r) == r,
{
    vstd::arithmetic::power::lemma_square_is_pow2(r);
    lemma_pow_base_strict(r, r + 1, 2);
    lemma_floor_root_is(r * r, 2, r);
}

/// The defining bounds of the square root, written with products.
pub proof fn lemma_floor_sqrt_bounds(n: int, r: int)
    requires
        r >= 0,
        r * r <= n < (r + 1) * (r + 1),
    ensures
        floor_sqrt(n) == r,
{
    vstd::arithmetic::power::lemma_square_is_pow2(r);
    vstd::arithmetic::power::lemma_square_is_pow2(r + 1);
    lemma_floor_root_is(n, 2, r);
}

/// Every whole number from zero on has a `k`-th root rounded down.
pub proof fn lemma_floor_root_exists(n: int, k: nat)
    requires
        n >= 0,
        k >= 1,
    ensures
        is_floor_root(n, k, floor_root(n, k)),
    decreases n,
{
    if n == 0 {
        vstd::arithmetic::power::lemma0_pow(k);
        vstd::arithmetic::power::lemma1_pow(k);
        assert(is_floor_root(0, k, 0));
    } else {
        lemma_floor_root_exists(n - 1, k);
        let r: int = floor_root(n - 1, k);
        if pow(r + 1, k) <= n {
            lemma_pow_base_strict(r + 1, r + 2, k);
            assert(is_floor_root(n, k, r + 1));
        } else {
            assert(is_floor_root(n, k, r));
        }
    }
}

/// Every whole number from zero on has a square root rounded down, which
/// the two squares next to the number bound.
pub proof fn lemma_floor_sqrt_exists(n: int)
    requires
        n >= 0,
    ensures
        floor_sqrt(n) >= 0,
        floor_sqrt(n) * floor_sqrt(n) <= n < (floor_sqrt(n) + 1) * (floor_sqrt(n) + 1),
{
    lemma_floor_root_exists(n, 2);
    vstd::arithmetic::power::lemma_square_is_pow2(floor_sqrt(n));
    vstd::arithmetic::power::lemma_square_is_pow2(floor_sqrt(n) + 1);
}

/// Whether `base` raised to `k` stays at or below `n`.
fn power_at_most(base: u128, k: u32, n: u128) -> (within: bool)
    ensures
        within == (pow(base as int, k as nat) <= n),
{
    if k == 0 {
        proof {
            reveal(pow);
        }
        return 1 <= n;
    }
    if base == 0 {
        proof {
            vstd::arithmetic::power::lemma0_pow(k as nat);
        }
        return true;
    }
    if n == 0 {
        proof {
            lemma_pow_positive(base as int, k as nat);
        }
        return false;
    }
    let mut p: u128 = 1;
    let mut i: u32 = 0;
    proof {
        reveal(pow);
    }
    while i < k
        invariant
            i <= k,
            base >= 1,
            p == pow(base as int, i as nat),
            p <= n,
        decreases k - i,
    {
        proof {
            lemma_pow_step(base as int, i as nat);
            lemma_pow_increases(base as nat, (i + 1) as nat, k as nat);
        }
        match p.checked_mul(base) {
            None => {
                assert(p * base == base * p) by (nonlinear_arith);
                return false;
            },
            Some(q) => {
                assert(p * base == base * p) by (nonlinear_arith);
                if q > n {
                    return false;
                }
                p = q;
                i = i + 1;
            },
        }
    }
    true
}

/// The `k`-th root of `n`, rounded down.
pub fn root(n: u128, k: u32) -> (r: u128)
    requires
        k >= 1,
    ensures
        is_floor_root(n as int, k as nat, r as int),
        r == floor_root(n as int, k as nat),
        k >= 2 ==> r < 0x1_0000_0000_0000_0000,
{
    if k == 1 {
        proof {
            vstd::arithmetic::power::lemma_pow1(n as int);
            vstd::arithmetic::power::lemma_pow1(n as int + 1);
            lemma_floor_root_is(n as int, 1, n as int);
        }
        return n;
    }
    let mut lo: u128 = 0;
    let mut hi: u128 = 0x1_0000_0000_0000_0000;
    proof {
        vstd::arithmetic::power::lemma0_pow(k as nat);
        vstd::arithmetic::power::lemma_square_is_pow2(hi as int);
        lemma_pow_increases(hi as nat, 2, k as nat);
        assert(0x1_0000_0000_0000_0000int * 0x1_0000_0000_0000_0000int
            == 0x1_0000_0000_0000_0000_0000_0000_0000_0000int) by (nonlinear_arith);
    }
    while hi - lo > 1
        invariant
            k >= 2,
            lo < hi <= 0x1_0000_0000_0000_0000,
            pow(lo as int, k as nat) <= n < pow(hi as int, k as nat),
        decreases hi - lo,
    {
        let mid: u128 = lo + (hi - lo) / 2;
        if power_at_most(mid, k, n) {
            lo = mid;
        } else {
            hi = mid;
        }
    }
    proof {
        lemma_floor_root_is(n as int, k as nat, lo as int);
    }
    lo
}

/// The square root of `n`, rounded down.
pub fn sqrt(n: u128) -> (r: u64)
    ensures
        r == floor_sqrt(n as int),
        r * r <= n < (r + 1) * (r + 1),
{
    let wide: u128 = root(n, 2);
    proof {
        vstd::arithmetic::power::lemma_square_is_pow2(wide as int);
        vstd::arithmetic::power::lemma_square_is_pow2(wide as int + 1);
    }
    wide as u64
}

} // verus!
