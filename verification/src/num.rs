//! Saturating fixed-point arithmetic and an integer square root.

use vstd::prelude::*;

verus! {

/// Saturate a mathematical integer into the `i64` range.
pub open spec fn sat64(v: int) -> int {
    if v > i64::MAX as int {
        i64::MAX as int
    } else if v < i64::MIN as int {
        i64::MIN as int
    } else {
        v
    }
}

/// Division truncating toward zero, for a positive divisor.
pub open spec fn tdiv(a: int, b: int) -> int
    recommends
        b >= 1,
{
    if a >= 0 {
        a / b
    } else {
        -((-a) / b)
    }
}

/// Floor of the square root: the largest `r` with `r * r <= n` (0 for `n <= 0`).
pub open spec fn sqrt_floor(n: int) -> int
    decreases n,
{
    if n <= 0 {
        0
    } else {
        let r = sqrt_floor(n - 1);
        if (r + 1) * (r + 1) <= n {
            r + 1
        } else {
            r
        }
    }
}

pub proof fn lemma_sqrt_floor_bounds(n: int)
    requires
        n >= 0,
    ensures
        sqrt_floor(n) >= 0,
        sqrt_floor(n) * sqrt_floor(n) <= n,
        n < (sqrt_floor(n) + 1) * (sqrt_floor(n) + 1),
    decreases n,
{
    if n > 0 {
        lemma_sqrt_floor_bounds(n - 1);
        let r = sqrt_floor(n - 1);
        if (r + 1) * (r + 1) <= n {
            assert(n < (r + 2) * (r + 2)) by (nonlinear_arith)
                requires
                    r >= 0,
                    n - 1 < (r + 1) * (r + 1),
            {
            }
        }
    }
}

pub proof fn lemma_sqrt_floor_unique(n: int, r: int)
    requires
        n >= 0,
        r >= 0,
        r * r <= n,
        n < (r + 1) * (r + 1),
    ensures
        sqrt_floor(n) == r,
{
    lemma_sqrt_floor_bounds(n);
    let s = sqrt_floor(n);
    if s < r {
        assert(false) by (nonlinear_arith)
            requires
                s >= 0,
                r >= 0,
                s < r,
                r * r <= n,
                n < (s + 1) * (s + 1),
        {
        }
    }
    if s > r {
        assert(false) by (nonlinear_arith)
            requires
                s >= 0,
                r >= 0,
                s > r,
                s * s <= n,
                n < (r + 1) * (r + 1),
        {
        }
    }
}

/// `i64` addition that saturates at the type's bounds.
pub fn sat_add64(a: i64, b: i64) -> (r: i64)
    ensures
        r as int == sat64(a as int + b as int),
{
    let s: i128 = a as i128 + b as i128;
    if s > i64::MAX as i128 {
        i64::MAX
    } else if s < i64::MIN as i128 {
        i64::MIN
    } else {
        s as i64
    }
}

/// `i64` subtraction that saturates at the type's bounds.
pub fn sat_sub64(a: i64, b: i64) -> (r: i64)
    ensures
        r as int == sat64(a as int - b as int),
{
    let s: i128 = a as i128 - b as i128;
    if s > i64::MAX as i128 {
        i64::MAX
    } else if s < i64::MIN as i128 {
        i64::MIN
    } else {
        s as i64
    }
}

/// Saturate an `i128` into the `i64` range.
pub fn sat_to_i64(v: i128) -> (r: i64)
    ensures
        r as int == sat64(v as int),
{
    if v > i64::MAX as i128 {
        i64::MAX
    } else if v < i64::MIN as i128 {
        i64::MIN
    } else {
        v as i64
    }
}

/// Truncating `i128` division by a positive divisor.
pub fn tdiv_i128(a: i128, b: i128) -> (r: i128)
    requires
        b >= 1,
        a > i128::MIN,
    ensures
        r as int == tdiv(a as int, b as int),
{
    let bu: u128 = b as u128;
    if a >= 0 {
        let q: u128 = (a as u128) / bu;
        proof {
            vstd::arithmetic::div_mod::lemma_div_nonincreasing(a as int, b as int);
            vstd::arithmetic::div_mod::lemma_div_pos_is_pos(a as int, b as int);
        }
        q as i128
    } else {
        let mag: u128 = (-a) as u128;
        let q: u128 = mag / bu;
        proof {
            vstd::arithmetic::div_mod::lemma_div_nonincreasing(mag as int, b as int);
            vstd::arithmetic::div_mod::lemma_div_pos_is_pos(mag as int, b as int);
        }
        -(q as i128)
    }
}

/// Floor square root of a `u128` below 2^96, by binary search.
pub fn isqrt(n: u128) -> (r: u128)
    requires
        n < 0x1000000000000000000000000,
    ensures
        r as int == sqrt_floor(n as int),
        r <= 0x1000000000000,
{
    let mut lo: u128 = 0;
    let mut hi: u128 = 0x1000000000000;
    proof {
        assert((0x1000000000000 as int) * (0x1000000000000 as int) == 0x1000000000000000000000000);
    }
    while lo + 1 < hi
        invariant
            lo < hi,
            hi <= 0x1000000000000,
            (lo as int) * (lo as int) <= n as int,
            (n as int) < (hi as int) * (hi as int),
        decreases hi - lo,
    {
        let mid: u128 = lo + (hi - lo) / 2;
        proof {
            assert(lo < mid < hi);
            assert((mid as int) * (mid as int) <= 0x1000000000000000000000000)
                by (nonlinear_arith)
                requires
                    0 <= mid <= 0x1000000000000,
            {
            }
        }
        if mid * mid <= n {
            lo = mid;
        } else {
            hi = mid;
        }
    }
    proof {
        lemma_sqrt_floor_unique(n as int, lo as int);
    }
    lo
}

} // verus!
