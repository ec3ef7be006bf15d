//! Shared fixed-point and integer helpers.
//!
//! Executable Rust truncates signed division toward zero while specification
//! division is Euclidean; `tdiv` is the specification-side image of what the
//! executable code computes, and the lemmas here carry bounds across
//! multiplications and truncating divisions.
use vstd::prelude::*;

verus! {

use vstd::arithmetic::div_mod::{lemma_div_is_ordered, lemma_div_multiples_vanish};

/// Number of fixed-point units per whole unit (16 fractional bits).
pub const FP_ONE: i64 = 65536;

/// Absolute value.
pub open spec fn abs_int(x: int) -> int {
    if x >= 0 {
        x
    } else {
        -x
    }
}

/// Truncating (Rust-style) signed division by a positive divisor.
pub open spec fn tdiv(num: int, den: int) -> int {
    if num >= 0 {
        num / den
    } else {
        -((-num) / den)
    }
}

/// `lo <= tdiv(n, d) <= hi` follows from `lo*d <= n <= hi*d`.
pub proof fn lemma_tdiv_bounds(num: int, den: int, lo: int, hi: int)
    requires
        den > 0,
        lo * den <= num <= hi * den,
    ensures
        lo <= tdiv(num, den) <= hi,
{
    if num >= 0 {
        lemma_div_is_ordered(lo * den, num, den);
        lemma_div_multiples_vanish(lo, den);
        lemma_div_is_ordered(num, hi * den, den);
        lemma_div_multiples_vanish(hi, den);
        assert(den * lo == lo * den) by (nonlinear_arith);
        assert(den * hi == hi * den) by (nonlinear_arith);
    } else {
        assert((-lo) * den == -(lo * den)) by (nonlinear_arith);
        assert((-hi) * den == -(hi * den)) by (nonlinear_arith);
        lemma_div_is_ordered(-num, (-lo) * den, den);
        lemma_div_multiples_vanish(-lo, den);
        lemma_div_is_ordered((-hi) * den, -num, den);
        lemma_div_multiples_vanish(-hi, den);
        assert(den * (-lo) == (-lo) * den) by (nonlinear_arith);
        assert(den * (-hi) == (-hi) * den) by (nonlinear_arith);
    }
}

/// `|tdiv(n, d)| <= |n| / d`-style magnitude bound: the quotient's magnitude
/// never exceeds `k` when `|n| <= k*d`.
pub proof fn lemma_tdiv_abs_bound(num: int, den: int, k: int)
    requires
        den > 0,
        0 <= k,
        -(k * den) <= num <= k * den,
    ensures
        -k <= tdiv(num, den) <= k,
{
    assert(-(k * den) == (-k) * den) by (nonlinear_arith);
    lemma_tdiv_bounds(num, den, -k, k);
}

/// Bound on the square of a bounded value.
pub proof fn lemma_sq_le(x: int, k: int)
    requires
        -k <= x <= k,
        0 <= k,
    ensures
        0 <= x * x <= k * k,
{
    assert(0 <= x * x <= k * k) by (nonlinear_arith)
        requires
            -k <= x <= k,
            0 <= k,
    ;
}

/// `|x*y| <= kx*ky` for `|x| <= kx`, `|y| <= ky`.
pub proof fn lemma_mul_abs_bound(x: int, y: int, kx: int, ky: int)
    requires
        -kx <= x <= kx,
        -ky <= y <= ky,
        0 <= kx,
        0 <= ky,
    ensures
        -(kx * ky) <= x * y <= kx * ky,
{
    assert(-(kx * ky) <= x * y <= kx * ky) by (nonlinear_arith)
        requires
            -kx <= x <= kx,
            -ky <= y <= ky,
            0 <= kx,
            0 <= ky,
    ;
}

/// Fixed-point product of two factors no larger than one: `a*b >> 16`,
/// truncated toward zero, again no larger than one.
pub fn fp_mul_unit(a: i64, b: i64) -> (r: i64)
    requires
        -FP_ONE <= a <= FP_ONE,
        -FP_ONE <= b <= FP_ONE,
    ensures
        r as int == tdiv(a as int * b as int, FP_ONE as int),
        -FP_ONE <= r <= FP_ONE,
{
    proof {
        lemma_mul_abs_bound(a as int, b as int, FP_ONE as int, FP_ONE as int);
        lemma_tdiv_abs_bound(a as int * b as int, FP_ONE as int, FP_ONE as int);
    }
    let p: i64 = a * b;
    if p >= 0 {
        p / FP_ONE
    } else {
        -((-p) / FP_ONE)
    }
}

/// Scale a unit-range fixed-point factor by a nonnegative length: the result
/// has the sign of the factor and magnitude at most the length.
pub fn fp_scale(f: i64, len: i64) -> (r: i64)
    requires
        -FP_ONE <= f <= FP_ONE,
        0 <= len <= 0x4000_0000,
    ensures
        r as int == tdiv(f as int * len as int, FP_ONE as int),
        -len <= r <= len,
{
    proof {
        lemma_mul_abs_bound(f as int, len as int, FP_ONE as int, 0x4000_0000);
        assert(FP_ONE as int * 0x4000_0000 == 0x4000_0000 * FP_ONE as int) by (nonlinear_arith);
        lemma_mul_abs_bound(f as int, len as int, FP_ONE as int, len as int);
        assert(FP_ONE as int * len as int == len as int * FP_ONE as int) by (nonlinear_arith);
        lemma_tdiv_abs_bound(f as int * len as int, FP_ONE as int, len as int);
    }
    let p: i64 = f * len;
    if p >= 0 {
        p / FP_ONE
    } else {
        -((-p) / FP_ONE)
    }
}

/// The integer square root: the largest `r` with `r*r <= n`.
pub open spec fn isqrt_spec(n: nat) -> nat
    decreases n,
{
    if n == 0 {
        0
    } else {
        let r = isqrt_spec((n - 1) as nat);
        if (r + 1) * (r + 1) <= n {
            r + 1
        } else {
            r
        }
    }
}

pub proof fn lemma_isqrt_spec_bounds(n: nat)
    ensures
        isqrt_spec(n) * isqrt_spec(n) <= n,
        n < (isqrt_spec(n) + 1) * (isqrt_spec(n) + 1),
    decreases n,
{
    if n > 0 {
        lemma_isqrt_spec_bounds((n - 1) as nat);
        let r = isqrt_spec((n - 1) as nat);
        assert(isqrt_spec(n) == if (r + 1) * (r + 1) <= n {
            r + 1
        } else {
            r
        });
        if (r + 1) * (r + 1) <= n {
            assert(isqrt_spec(n) == r + 1);
            assert(n < ((r + 1) + 1) * ((r + 1) + 1)) by (nonlinear_arith)
                requires
                    (n - 1) < (r + 1) * (r + 1),
            ;
            assert(isqrt_spec(n) * isqrt_spec(n) <= n);
            assert(n < (isqrt_spec(n) + 1) * (isqrt_spec(n) + 1));
        } else {
            assert(isqrt_spec(n) == r);
            assert(isqrt_spec(n) * isqrt_spec(n) <= n);
            assert(n < (isqrt_spec(n) + 1) * (isqrt_spec(n) + 1));
        }
    } else {
        assert(isqrt_spec(n) == 0);
        assert(isqrt_spec(n) * isqrt_spec(n) <= n) by (nonlinear_arith)
            requires
                n == 0,
                isqrt_spec(n) == 0,
        ;
        assert(n < (isqrt_spec(n) + 1) * (isqrt_spec(n) + 1)) by (nonlinear_arith)
            requires
                n == 0,
                isqrt_spec(n) == 0,
        ;
    }
}

/// Any `r` in the square-root sandwich is the square root.
pub proof fn lemma_isqrt_unique(n: nat, r: nat)
    requires
        r * r <= n,
        n < (r + 1) * (r + 1),
    ensures
        r == isqrt_spec(n),
{
    lemma_isqrt_spec_bounds(n);
    let s = isqrt_spec(n);
    assert(r == s) by (nonlinear_arith)
        requires
            r * r <= n,
            n < (r + 1) * (r + 1),
            s * s <= n,
            n < (s + 1) * (s + 1),
    ;
}

/// Integer square root by bisection.
pub fn isqrt_u128(n: u128) -> (r: u128)
    ensures
        r as nat == isqrt_spec(n as nat),
        (r as nat) * (r as nat) <= n as nat,
        (n as nat) < ((r as nat) + 1) * ((r as nat) + 1),
        r < 0x1_0000_0000_0000_0000,
{
    let mut lo: u128 = 0;
    let mut hi: u128 = 0x1_0000_0000_0000_0000;
    proof {
        assert((hi as nat) * (hi as nat) > n as nat) by (nonlinear_arith)
            requires
                hi as nat == 0x1_0000_0000_0000_0000,
                (n as nat) <= u128::MAX as nat,
        ;
    }
    while lo + 1 < hi
        invariant
            lo < hi <= 0x1_0000_0000_0000_0000,
            lo as nat * lo as nat <= n as nat,
            (n as nat) < (hi as nat) * (hi as nat),
        decreases hi - lo,
    {
        let mid: u128 = lo + (hi - lo) / 2;
        proof {
            assert((mid as nat) * (mid as nat) < 0x1_0000_0000_0000_0000_0000_0000_0000_0000)
                by (nonlinear_arith)
                requires
                    (mid as nat) < 0x1_0000_0000_0000_0000,
            ;
        }
        if mid * mid <= n {
            lo = mid;
        } else {
            hi = mid;
        }
    }
    proof {
        lemma_isqrt_unique(n as nat, lo as nat);
    }
    lo
}

} // verus!
