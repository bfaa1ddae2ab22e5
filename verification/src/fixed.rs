//! Scalar fixed-point helpers: truncated division and integer square roots.
//!
//! All engine arithmetic is exact integer arithmetic. Division is the
//! magnitude-truncating kind (the result of `a / b` rounds toward zero),
//! written here over absolute values so its specification stays in
//! nonnegative territory. Square roots come in a floor and a ceiling
//! flavour; normalisation uses the ceiling so that a vector scaled to a
//! target length never exceeds it.

use vstd::prelude::*;

verus! {

/// Division truncating toward zero, for a positive divisor.
pub open spec fn div_t(a: int, b: int) -> int {
    if a >= 0 {
        a / b
    } else {
        -((-a) / b)
    }
}

/// Largest `r` with `r * r <= n`.
pub open spec fn floor_sqrt(n: nat) -> nat
    decreases n,
{
    if n == 0 {
        0
    } else {
        let p = floor_sqrt((n - 1) as nat);
        if (p + 1) * (p + 1) <= n {
            p + 1
        } else {
            p
        }
    }
}

/// Smallest `r` with `r * r >= n`.
pub open spec fn ceil_sqrt(n: nat) -> nat {
    if floor_sqrt(n) * floor_sqrt(n) == n {
        floor_sqrt(n)
    } else {
        floor_sqrt(n) + 1
    }
}

pub proof fn lemma_floor_sqrt(n: nat)
    ensures
        floor_sqrt(n) * floor_sqrt(n) <= n,
        n < (floor_sqrt(n) + 1) * (floor_sqrt(n) + 1),
    decreases n,
{
    if n > 0 {
        lemma_floor_sqrt((n - 1) as nat);
        let p = floor_sqrt((n - 1) as nat);
        assert(floor_sqrt(n) == if (p + 1) * (p + 1) <= n {
            (p + 1) as nat
        } else {
            p
        });
        let q = floor_sqrt(n);
        if (p + 1) * (p + 1) <= n {
            assert(n < (q + 1) * (q + 1)) by (nonlinear_arith)
                requires
                    q == p + 1,
                    n <= (p + 1) * (p + 1) + 1,
                    p >= 0,
            ;
        } else {
            assert(n < (q + 1) * (q + 1));
        }
        assert(q * q <= n);
        assert(n < (floor_sqrt(n) + 1) * (floor_sqrt(n) + 1));
    } else {
        assert(floor_sqrt(0) == 0);
        assert(n < (floor_sqrt(n) + 1) * (floor_sqrt(n) + 1)) by (nonlinear_arith)
            requires
                n == 0,
                floor_sqrt(0) == 0,
        ;
    }
}

pub proof fn lemma_ceil_sqrt(n: nat)
    ensures
        n <= ceil_sqrt(n) * ceil_sqrt(n),
        n == 0 ==> ceil_sqrt(n) == 0,
        n > 0 ==> ceil_sqrt(n) >= 1 && (ceil_sqrt(n) - 1) * (ceil_sqrt(n) - 1) < n,
{
    lemma_floor_sqrt(n);
    let p = floor_sqrt(n);
    if n == 0 {
        assert(p * p <= 0);
        assert(p == 0) by (nonlinear_arith)
            requires
                p >= 0,
                p * p <= 0,
        ;
    } else {
        if p * p == n {
            assert(p >= 1) by (nonlinear_arith)
                requires
                    p >= 0,
                    p * p >= 1,
            ;
            assert((p - 1) * (p - 1) < p * p) by (nonlinear_arith)
                requires
                    p >= 1,
            ;
        }
    }
}

/// The two-sided characterisation pins the ceiling square root down.
pub proof fn lemma_ceil_sqrt_is(n: nat, r: nat)
    requires
        n <= r * r,
        r == 0 || (r - 1) * (r - 1) < n,
    ensures
        r == ceil_sqrt(n),
{
    lemma_ceil_sqrt(n);
    let c = ceil_sqrt(n);
    if r < c {
        assert(n > 0);
        assert(r * r <= (c - 1) * (c - 1)) by (nonlinear_arith)
            requires
                0 <= r <= c - 1,
        ;
    }
    if r > c {
        assert(c * c <= (r - 1) * (r - 1)) by (nonlinear_arith)
            requires
                0 <= c <= r - 1,
        ;
    }
}

/// Squaring is monotone on nonnegative values, in both directions.
pub proof fn lemma_sq_le(a: int, b: int)
    requires
        0 <= a,
        0 <= b,
    ensures
        a <= b ==> a * a <= b * b,
        a * a <= b * b ==> a <= b,
{
    assert(a <= b ==> a * a <= b * b) by (nonlinear_arith)
        requires
            0 <= a,
            0 <= b,
    ;
    assert(a * a <= b * b ==> a <= b) by (nonlinear_arith)
        requires
            0 <= a,
            0 <= b,
    ;
}

/// A quotient is no larger in magnitude than the bound on its dividend.
pub proof fn lemma_div_t_bound(a: int, b: int, c: int)
    requires
        b > 0,
        c >= 0,
        -(c * b) <= a <= c * b,
    ensures
        -c <= div_t(a, b) <= c,
{
    if a >= 0 {
        assert(a / b <= c && a / b >= 0) by (nonlinear_arith)
            requires
                b > 0,
                c >= 0,
                0 <= a <= c * b,
        ;
    } else {
        assert((-a) / b <= c && (-a) / b >= 0) by (nonlinear_arith)
            requires
                b > 0,
                c >= 0,
                0 <= -a <= c * b,
        ;
    }
}

/// Truncated division, toward zero, of an `i128` by a positive divisor.
pub fn div_trunc(a: i128, b: i128) -> (r: i128)
    requires
        b > 0,
        a != i128::MIN,
    ensures
        r == div_t(a as int, b as int),
{
    if a >= 0 {
        let q: u128 = (a as u128) / (b as u128);
        q as i128
    } else {
        let q: u128 = ((-a) as u128) / (b as u128);
        proof {
            assert((-a) as u128 / (b as u128) <= (-a) as u128) by (nonlinear_arith)
                requires
                    b as u128 > 0,
            ;
        }
        -(q as i128)
    }
}

/// The two-sided characterisation pins the floor square root down.
pub proof fn lemma_floor_sqrt_is(n: nat, r: nat)
    requires
        r * r <= n,
        n < (r + 1) * (r + 1),
    ensures
        r == floor_sqrt(n),
{
    lemma_floor_sqrt(n);
    let c = floor_sqrt(n);
    if r < c {
        assert((r + 1) * (r + 1) <= c * c) by (nonlinear_arith)
            requires
                0 <= r + 1 <= c,
        ;
    }
    if r > c {
        assert((c + 1) * (c + 1) <= r * r) by (nonlinear_arith)
            requires
                0 <= c + 1 <= r,
        ;
    }
}

/// Floor square root, by binary search on the answer.
pub fn isqrt_floor(n: u128) -> (r: u64)
    requires
        n <= 0xffff_ffff_ffff_ffff_ffff,
    ensures
        r == floor_sqrt(n as nat),
{
    let mut lo: u128 = 0;
    let mut hi: u128 = 0x100_0000_0000;
    proof {
        assert((hi + 1) * (hi + 1) > n);
    }
    while lo < hi
        invariant
            lo <= hi <= 0x100_0000_0000,
            lo * lo <= n,
            n < (hi + 1) * (hi + 1),
        decreases hi - lo,
    {
        let mid: u128 = lo + (hi - lo + 1) / 2;
        proof {
            assert(mid * mid <= 0x100_0000_0000 * 0x100_0000_0000) by (nonlinear_arith)
                requires
                    0 <= mid <= 0x100_0000_0000,
            ;
        }
        if mid * mid <= n {
            lo = mid;
        } else {
            hi = mid - 1;
        }
    }
    proof {
        lemma_floor_sqrt_is(n as nat, lo as nat);
    }
    lo as u64
}

/// Ceiling square root, by binary search on the answer.
pub fn isqrt_ceil(n: u128) -> (r: u64)
    requires
        n <= 0xffff_ffff_ffff_ffff_ffff,
    ensures
        r == ceil_sqrt(n as nat),
{
    let mut lo: u128 = 0;
    let mut hi: u128 = 0x100_0000_0000;
    proof {
        assert(hi * hi > n);
    }
    while lo < hi
        invariant
            lo <= hi <= 0x100_0000_0000,
            hi * hi >= n,
            lo > 0 ==> (lo - 1) * (lo - 1) < n,
        decreases hi - lo,
    {
        let mid: u128 = lo + (hi - lo) / 2;
        proof {
            assert(mid * mid <= 0x100_0000_0000 * 0x100_0000_0000) by (nonlinear_arith)
                requires
                    0 <= mid <= 0x100_0000_0000,
            ;
        }
        if mid * mid >= n {
            hi = mid;
        } else {
            lo = mid + 1;
        }
    }
    proof {
        lemma_ceil_sqrt_is(n as nat, lo as nat);
    }
    lo as u64
}

} // verus!
