//! Integer helpers shared by the spatial and physics modules.

use vstd::prelude::*;
use vstd::arithmetic::div_mod::{lemma_fundamental_div_mod, lemma_fundamental_div_mod_converse};

verus! {

/// Absolute value over the mathematical integers.
pub open spec fn abs(v: int) -> int {
    if v < 0 {
        -v
    } else {
        v
    }
}

/// Quotient of `n` by a positive `d`, rounded towards zero.
pub open spec fn toward_zero(n: int, d: int) -> int {
    if n >= 0 {
        n / d
    } else {
        -((-n) / d)
    }
}

/// Whether `r` is the integer square root of `n`: the largest integer whose
/// square does not exceed `n`.
pub open spec fn is_int_sqrt(n: int, r: int) -> bool {
    0 <= r && r * r <= n < (r + 1) * (r + 1)
}

/// The integer square root of a non-negative `n`.
pub open spec fn int_sqrt(n: int) -> int {
    choose|r: int| is_int_sqrt(n, r)
}

/// A number has at most one integer square root.
pub proof fn lemma_int_sqrt_unique(n: int, r: int, s: int)
    requires
        is_int_sqrt(n, r),
        is_int_sqrt(n, s),
    ensures
        r == s,
{
    if r < s {
        assert((r + 1) * (r + 1) <= s * s) by (nonlinear_arith)
            requires
                0 <= r,
                r + 1 <= s,
        ;
    }
    if s < r {
        assert((s + 1) * (s + 1) <= r * r) by (nonlinear_arith)
            requires
                0 <= s,
                s + 1 <= r,
        ;
    }
}

/// Quotient of `v` by a positive `d`, rounded towards negative infinity.
pub fn floor_div(v: i128, d: i128) -> (q: i128)
    requires
        d > 0,
    ensures
        q == v as int / d as int,
        abs(q as int) <= abs(v as int),
{
    if v >= 0 {
        let q = v / d;
        proof {
            lemma_fundamental_div_mod(v as int, d as int);
            let r = v as int % d as int;
            assert(q <= v) by (nonlinear_arith)
                requires
                    d * q + r == v,
                    0 <= r,
                    0 <= q,
                    d >= 1,
            ;
        }
        q
    } else {
        let n: i128 = -(v + 1);
        let k: i128 = n / d;
        proof {
            let r = n as int % d as int;
            lemma_fundamental_div_mod(n as int, d as int);
            assert(d * k + r == n);
            assert(0 <= r < d);
            assert(0 <= k) by (nonlinear_arith)
                requires
                    d * k + r == n,
                    0 <= r < d,
                    0 <= n,
                    d > 0,
            ;
            assert(k <= n) by (nonlinear_arith)
                requires
                    d * k + r == n,
                    0 <= r,
                    0 <= k,
                    d >= 1,
            ;
            assert(v as int == (-k - 1) * d + (d - 1 - r)) by (nonlinear_arith)
                requires
                    d * k + r == n,
                    n == -(v + 1),
            ;
            lemma_fundamental_div_mod_converse(v as int, d as int, -k - 1, d - 1 - r);
        }
        -k - 1
    }
}

/// Remainder of `v` by a positive `d`, always in `0..d`.
pub fn floor_mod(v: i128, d: i128) -> (r: i128)
    requires
        d > 0,
    ensures
        r == v as int % d as int,
        0 <= r < d,
{
    if v >= 0 {
        v % d
    } else {
        let n: i128 = -(v + 1);
        let m: i128 = n % d;
        proof {
            let k = n as int / d as int;
            lemma_fundamental_div_mod(n as int, d as int);
            assert(v as int == (-k - 1) * d + (d - 1 - m)) by (nonlinear_arith)
                requires
                    d * k + m == n,
                    n == -(v + 1),
            ;
            lemma_fundamental_div_mod_converse(v as int, d as int, -k - 1, d - 1 - m);
        }
        d - 1 - m
    }
}

/// Quotient of `n` by a positive `d`, rounded towards zero. The least value
/// of the type, which has no negative, is left out.
pub fn div_toward_zero(n: i128, d: i128) -> (q: i128)
    requires
        d > 0,
        n > i128::MIN,
    ensures
        q == toward_zero(n as int, d as int),
        abs(q as int) <= abs(n as int),
{
    if n >= 0 {
        floor_div(n, d)
    } else {
        -floor_div(-n, d)
    }
}

/// The integer square root of `n`.
pub fn isqrt(n: u64) -> (r: u64)
    ensures
        is_int_sqrt(n as int, r as int),
        r == int_sqrt(n as int),
        r < 0x1_0000_0000,
{
    let mut lo: u64 = 0;
    let mut hi: u64 = 0x1_0000_0000;
    assert(0x1_0000_0000 * 0x1_0000_0000 > u64::MAX) by (nonlinear_arith);
    while hi - lo > 1
        invariant
            lo < hi <= 0x1_0000_0000,
            lo * lo <= n,
            n < hi * hi,
        decreases hi - lo,
    {
        let mid: u64 = lo + (hi - lo) / 2;
        assert(mid * mid < 0x1_0000_0000 * 0x1_0000_0000) by (nonlinear_arith)
            requires
                0 <= mid < 0x1_0000_0000,
        ;
        if mid * mid <= n {
            lo = mid;
        } else {
            hi = mid;
        }
    }
    proof {
        assert(hi == lo + 1);
        let witness = int_sqrt(n as int);
        assert(is_int_sqrt(n as int, lo as int));
        lemma_int_sqrt_unique(n as int, lo as int, witness);
    }
    lo
}

} // verus!
