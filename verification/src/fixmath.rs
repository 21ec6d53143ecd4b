//! Fixed-point arithmetic helpers.
//!
//! Every scalar quantity of the scene (seconds, walking speed, world
//! coordinates, colour channels) is held in thousandths of its unit, so all
//! simulation arithmetic is exact integer arithmetic.

use vstd::arithmetic::div_mod::{lemma_div_is_ordered, lemma_div_pos_is_pos};
use vstd::arithmetic::mul::lemma_mul_inequality;
use vstd::prelude::*;

verus! {

/// One whole unit: quantities are stored in thousandths.
pub const MILLI: i64 = 1000;

/// Bound on the magnitude of any scalar fed into the simulation, in
/// thousandths. Keeping inputs inside this bound guarantees that every
/// intermediate product of the movement and interpolation formulas fits in an
/// `i128`, and every stored scalar in an `i64`.
pub const LIMIT: i64 = 0x8000_0000;

/// Floor of the square root of `n`.
pub open spec fn sqrt_floor(n: nat) -> nat
    decreases n,
{
    if n == 0 {
        0
    } else {
        let r = sqrt_floor((n - 1) as nat);
        if (r + 1) * (r + 1) <= n {
            r + 1
        } else {
            r
        }
    }
}

/// `sqrt_floor` is what its name says: the greatest integer whose square does
/// not exceed `n`.
pub proof fn lemma_sqrt_floor_bounds(n: nat)
    ensures
        sqrt_floor(n) * sqrt_floor(n) <= n,
        n < (sqrt_floor(n) + 1) * (sqrt_floor(n) + 1),
    decreases n,
{
    let s = sqrt_floor(n);
    if n == 0 {
        assert(s == 0);
        assert(n < (s + 1) * (s + 1)) by (nonlinear_arith)
            requires
                s == 0,
                n == 0,
        {
        }
    } else {
        let m = (n - 1) as nat;
        let p = sqrt_floor(m);
        lemma_sqrt_floor_bounds(m);
        if (p + 1) * (p + 1) <= n {
            assert(s == p + 1);
            assert(s * s <= n && n < (s + 1) * (s + 1)) by (nonlinear_arith)
                requires
                    s == p + 1,
                    (p + 1) * (p + 1) <= n,
                    n - 1 < (p + 1) * (p + 1),
            {
            }
        } else {
            assert(s == p);
            assert(s * s <= n && n < (s + 1) * (s + 1)) by (nonlinear_arith)
                requires
                    s == p,
                    1 <= n,
                    p * p <= n - 1,
                    !((p + 1) * (p + 1) <= n),
            {
            }
        }
    }
}

/// Any `r` with `r^2 <= n < (r+1)^2` is the floor square root.
pub proof fn lemma_sqrt_floor_unique(n: nat, r: nat)
    requires
        r * r <= n,
        n < (r + 1) * (r + 1),
    ensures
        r == sqrt_floor(n),
{
    let s = sqrt_floor(n);
    lemma_sqrt_floor_bounds(n);
    assert(!(r < s)) by (nonlinear_arith)
        requires
            n < (r + 1) * (r + 1),
            s * s <= n,
    {
    }
    assert(!(s < r)) by (nonlinear_arith)
        requires
            n < (s + 1) * (s + 1),
            r * r <= n,
    {
    }
}

/// Floor square root, by binary search on the answer.
pub fn isqrt(n: u128) -> (r: u64)
    requires
        n < 0x4_0000_0000_0000_0000u128,
    ensures
        r == sqrt_floor(n as nat),
{
    let mut lo: u64 = 0;
    let mut hi: u64 = 0x2_0000_0000;
    while lo + 1 < hi
        invariant
            lo < hi <= 0x2_0000_0000u64,
            (lo as nat) * (lo as nat) <= n as nat,
            (n as nat) < (hi as nat) * (hi as nat),
        decreases hi - lo,
    {
        let mid: u64 = lo + (hi - lo) / 2;
        proof {
            assert((mid as u128) * (mid as u128) <= 0x4_0000_0000_0000_0000u128)
                by (nonlinear_arith)
                requires
                    mid as u128 <= 0x2_0000_0000u128,
            {
            }
        }
        if (mid as u128) * (mid as u128) <= n {
            lo = mid;
        } else {
            hi = mid;
        }
    }
    proof {
        assert((lo as nat + 1) * (lo as nat + 1) >= (hi as nat) * (hi as nat)) by (nonlinear_arith)
            requires
                lo as nat + 1 >= hi as nat,
                hi as nat >= 1,
        {
        }
        lemma_sqrt_floor_unique(n as nat, lo as nat);
    }
    lo
}

/// Quotient rounded toward zero, matching hardware integer division.
pub open spec fn div_toward_zero(a: int, d: int) -> int {
    if a >= 0 {
        a / d
    } else {
        -((-a) / d)
    }
}

/// The magnitude of a quotient toward zero never exceeds the magnitude of the
/// dividend, and the quotient keeps the dividend's sign.
pub proof fn lemma_div_toward_zero_bounds(a: int, d: int)
    requires
        d >= 1,
    ensures
        a >= 0 ==> 0 <= div_toward_zero(a, d) <= a,
        a < 0 ==> a <= div_toward_zero(a, d) <= 0,
{
    if a >= 0 {
        lemma_div_pos_is_pos(a, d);
        vstd::arithmetic::div_mod::lemma_div_nonincreasing(a, d);
    } else {
        lemma_div_pos_is_pos(-a, d);
        vstd::arithmetic::div_mod::lemma_div_nonincreasing(-a, d);
    }
}

/// Scaling `x` by a ratio `r / m` with `0 <= r <= m` cannot increase its
/// magnitude.
pub proof fn lemma_scale_within(x: int, r: int, m: int)
    requires
        0 <= r <= m,
        1 <= m,
    ensures
        x >= 0 ==> 0 <= div_toward_zero(x * r, m) <= x,
        x < 0 ==> x <= div_toward_zero(x * r, m) <= 0,
{
    if x >= 0 {
        lemma_mul_inequality(r, m, x);
        assert(x * r == r * x) by (nonlinear_arith);
        assert(x * m == m * x) by (nonlinear_arith);
        lemma_div_is_ordered(x * r, x * m, m);
        vstd::arithmetic::div_mod::lemma_div_by_multiple(x, m);
        lemma_div_pos_is_pos(x * r, m);
        assert(x * r >= 0) by (nonlinear_arith)
            requires
                x >= 0,
                r >= 0,
        {
        }
    } else {
        assert(-(x * r) == (-x) * r) by (nonlinear_arith);
        lemma_mul_inequality(r, m, -x);
        assert((-x) * r == r * (-x)) by (nonlinear_arith);
        assert((-x) * m == m * (-x)) by (nonlinear_arith);
        lemma_div_is_ordered((-x) * r, (-x) * m, m);
        vstd::arithmetic::div_mod::lemma_div_by_multiple(-x, m);
        lemma_div_pos_is_pos((-x) * r, m);
        assert((-x) * r >= 0) by (nonlinear_arith)
            requires
                x < 0,
                r >= 0,
        {
        }
        if x * r >= 0 {
            assert(x * r == 0) by (nonlinear_arith)
                requires
                    x < 0,
                    r >= 0,
                    x * r >= 0,
            {
            }
        }
    }
}

/// `a / d` rounded toward zero, for a positive divisor.
pub fn div_tz(a: i128, d: i128) -> (q: i128)
    requires
        1 <= d,
        i128::MIN < a,
    ensures
        q == div_toward_zero(a as int, d as int),
{
    proof {
        lemma_div_toward_zero_bounds(a as int, d as int);
    }
    if a >= 0 {
        let q: u128 = (a as u128) / (d as u128);
        q as i128
    } else {
        let q: u128 = ((-a) as u128) / (d as u128);
        -(q as i128)
    }
}

} // verus!
