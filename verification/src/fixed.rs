//! Signed 16.16 fixed-point scalars stored in `i128`.
//!
//! A world coordinate `x` is represented by the integer `x * ONE`.
//! Products of two fixed-point values are rescaled with a flooring
//! division by `ONE`; all operations are exact integer arithmetic.

use vstd::prelude::*;

verus! {

/// Number of integer steps per world unit (2^16).
pub const ONE: i128 = 65536;

/// 2^124: magnitude cap on dividends of `div_floor`; far below the
/// `i128` limit so sums of a few such terms stay representable.
pub const DIV_ARG_LIM: i128 = 0x1000_0000_0000_0000_0000_0000_0000_0000;

/// 2^60: cap on divisors handed to `div_floor`.
pub const DIV_BY_LIM: i128 = 0x1000_0000_0000_0000;

/// Flooring division, as a mathematical function. For a positive
/// divisor the Euclidean division of `int` is the floor.
pub open spec fn floor_div(a: int, b: int) -> int {
    a / b
}

/// Flooring division by a positive divisor.
pub fn div_floor(a: i128, b: i128) -> (r: i128)
    requires
        0 < b <= DIV_BY_LIM,
        -DIV_ARG_LIM <= a <= DIV_ARG_LIM,
    ensures
        r == floor_div(a as int, b as int),
{
    if a >= 0 {
        a / b
    } else {
        let n = -a;
        let q = (n + (b - 1)) / b;
        proof {
            lemma_neg_ceil_is_floor(a as int, b as int);
        }
        -q
    }
}

/// The square of an integer.
pub open spec fn sq(r: int) -> int {
    r * r
}

/// `r` is the integer square root of `v`: the largest integer whose
/// square does not exceed `v`.
pub open spec fn is_sqrt_of(r: int, v: int) -> bool {
    0 <= r && sq(r) <= v && v < sq(r + 1)
}

pub open spec fn spec_isqrt(v: int) -> int {
    choose|r: int| is_sqrt_of(r, v)
}

/// Only one integer can be the square root of `v`.
pub proof fn lemma_sqrt_unique(v: int, r1: int, r2: int)
    requires
        is_sqrt_of(r1, v),
        is_sqrt_of(r2, v),
    ensures
        r1 == r2,
{
    assert(!(r1 < r2) && !(r2 < r1)) by (nonlinear_arith)
        requires
            0 <= r1 && r1 * r1 <= v && v < (r1 + 1) * (r1 + 1),
            0 <= r2 && r2 * r2 <= v && v < (r2 + 1) * (r2 + 1);
}

/// 2^72: cap on inputs of `isqrt`.
pub const ISQRT_ARG_LIM: i128 = 0x100_0000_0000_0000_0000;

/// Integer square root by bisection.
pub fn isqrt(v: i128) -> (r: i128)
    requires
        0 <= v <= ISQRT_ARG_LIM,
    ensures
        is_sqrt_of(r as int, v as int),
        r == spec_isqrt(v as int),
        0 <= r <= 0x10_0000_0000,
{
    let mut lo: i128 = 0;
    let mut hi: i128 = 0x10_0000_0001;
    proof {
        assert(v < hi * hi) by (nonlinear_arith)
            requires v <= 0x100_0000_0000_0000_0000 && hi == 0x10_0000_0001;
    }
    while lo + 1 < hi
        invariant
            0 <= lo < hi <= 0x10_0000_0001,
            lo * lo <= v,
            v < hi * hi,
        decreases hi - lo,
    {
        let mid = lo + (hi - lo) / 2;
        proof {
            assert(lo < mid < hi);
            assert(mid * mid <= 0x10_0000_0001 * 0x10_0000_0001) by (nonlinear_arith)
                requires 0 <= mid <= 0x10_0000_0001;
        }
        if mid * mid <= v {
            lo = mid;
        } else {
            hi = mid;
        }
    }
    proof {
        assert(hi == lo + 1);
        assert(is_sqrt_of(lo as int, v as int));
        lemma_sqrt_unique(v as int, lo as int, spec_isqrt(v as int));
    }
    lo
}

/// A magnitude bound on the dividend bounds the flooring quotient.
pub proof fn lemma_div_floor_bounds(a: int, s: int, b: int)
    requires
        b > 0,
        0 <= s,
        -s <= a <= s,
    ensures
        -(s / b) - 1 <= floor_div(a, b) <= s / b,
{
    vstd::arithmetic::div_mod::lemma_div_is_ordered(a, s, b);
    vstd::arithmetic::div_mod::lemma_div_is_ordered(-s, a, b);
    let q = s / b;
    let r = s % b;
    vstd::arithmetic::div_mod::lemma_fundamental_div_mod(s, b);
    vstd::arithmetic::div_mod::lemma_mod_bound(s, b);
    if r == 0 {
        assert(-s == (-q) * b) by (nonlinear_arith)
            requires s == q * b;
        assert((-s) / b == -q) by {
            vstd::arithmetic::div_mod::lemma_div_multiples_vanish(-q, b);
        }
    } else {
        assert(-s == (-q - 1) * b + (b - r)) by (nonlinear_arith)
            requires s == q * b + r;
        assert((-s) / b == -q - 1) by {
            vstd::arithmetic::div_mod::lemma_fundamental_div_mod_converse(
                -s, b, -q - 1, b - r);
        }
    }
}

/// For `b > 0`, `-((-a + b - 1) / b)` equals `a / b` under Euclidean
/// (flooring) division.
proof fn lemma_neg_ceil_is_floor(a: int, b: int)
    requires
        b > 0,
        a < 0,
    ensures
        -((-a + b - 1) / b) == a / b,
{
    let n = -a;
    let q = n / b;
    let r = n % b;
    vstd::arithmetic::div_mod::lemma_fundamental_div_mod(n, b);
    vstd::arithmetic::div_mod::lemma_mod_bound(n, b);
    if r == 0 {
        assert(n == q * b);
        assert((n + b - 1) / b == q) by {
            vstd::arithmetic::div_mod::lemma_div_multiples_vanish_fancy(q, b - 1, b);
        }
        assert(a == (-q) * b) by (nonlinear_arith)
            requires n == q * b && a == -n;
        assert(a / b == -q) by {
            vstd::arithmetic::div_mod::lemma_div_multiples_vanish(-q, b);
        }
    } else {
        assert(n == q * b + r);
        assert((n + b - 1) / b == q + 1) by {
            assert(n + b - 1 == (q + 1) * b + (r - 1)) by (nonlinear_arith)
                requires n == q * b + r;
            vstd::arithmetic::div_mod::lemma_fundamental_div_mod_converse(
                n + b - 1, b, q + 1, r - 1);
        }
        assert(a == (-q - 1) * b + (b - r)) by (nonlinear_arith)
            requires n == q * b + r && a == -n;
        assert(a / b == -q - 1) by {
            vstd::arithmetic::div_mod::lemma_fundamental_div_mod_converse(
                a, b, -q - 1, b - r);
        }
    }
}

} // verus!
