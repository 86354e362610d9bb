//! Integer geometry helpers: floor square root and scaled division.
//!
//! The simulation keeps all positions in fixed-point integer coordinates, so
//! the vector length and normalization of a floating-point design become an
//! integer square root and a scaled division here. Both are fully
//! deterministic, which is what rollback resimulation depends on.

use vstd::prelude::*;

verus! {

use vstd::arithmetic::div_mod::{lemma_div_is_ordered, lemma_div_multiples_vanish,
    lemma_div_pos_is_pos};
use vstd::arithmetic::mul::{lemma_mul_inequality, lemma_mul_nonnegative};
use vstd::math::abs;

/// Floor of the square root, defined by primitive recursion so that every
/// contract in the crate can speak of one fixed function.
pub open spec fn spec_isqrt(n: nat) -> nat
    decreases n,
{
    if n == 0 {
        0
    } else {
        let r = spec_isqrt((n - 1) as nat);
        if (r + 1) * (r + 1) <= n {
            r + 1
        } else {
            r
        }
    }
}

/// `spec_isqrt(n)` really is the floor of the square root of `n`.
pub proof fn lemma_isqrt_bounds(n: nat)
    ensures
        spec_isqrt(n) * spec_isqrt(n) <= n,
        n < (spec_isqrt(n) + 1) * (spec_isqrt(n) + 1),
    decreases n,
{
    if n == 0 {
        assert(spec_isqrt(0) == 0);
        assert(0 * 0 <= 0);
        assert((0 + 1) * (0 + 1) == 1) by (nonlinear_arith);
    } else {
        lemma_isqrt_bounds((n - 1) as nat);
        let r = spec_isqrt((n - 1) as nat);
        assert(r * r <= n - 1);
        assert(n - 1 < (r + 1) * (r + 1));
        if (r + 1) * (r + 1) <= n {
            assert(spec_isqrt(n) == r + 1);
            assert(n < ((r + 1) + 1) * ((r + 1) + 1)) by (nonlinear_arith)
                requires
                    n - 1 < (r + 1) * (r + 1),
            ;
        } else {
            assert(spec_isqrt(n) == r);
            assert(r * r <= n);
            assert(n < (r + 1) * (r + 1));
        }
    }
}

/// The floor square root is the only number whose square brackets `n`.
pub proof fn lemma_isqrt_unique(n: nat, r: nat)
    requires
        r * r <= n,
        n < (r + 1) * (r + 1),
    ensures
        r == spec_isqrt(n),
{
    lemma_isqrt_bounds(n);
    let s = spec_isqrt(n);
    if r < s {
        assert(false) by (nonlinear_arith)
            requires
                r + 1 <= s,
                s * s <= n,
                n < (r + 1) * (r + 1),
        ;
    }
    if s < r {
        assert(false) by (nonlinear_arith)
            requires
                s + 1 <= r,
                r * r <= n,
                n < (s + 1) * (s + 1),
        ;
    }
}

/// Any number whose square is at most `n` is at most the floor square root.
pub proof fn lemma_isqrt_at_least(n: nat, r: nat)
    requires
        r * r <= n,
    ensures
        r <= spec_isqrt(n),
{
    lemma_isqrt_bounds(n);
    let s = spec_isqrt(n);
    if s < r {
        assert(false) by (nonlinear_arith)
            requires
                s + 1 <= r,
                r * r <= n,
                n < (s + 1) * (s + 1),
        ;
    }
}

/// The floor square root of anything at most `b * b` is at most `b`.
pub proof fn lemma_isqrt_at_most(n: nat, b: nat)
    requires
        n <= b * b,
    ensures
        spec_isqrt(n) <= b,
{
    lemma_isqrt_bounds(n);
    let s = spec_isqrt(n);
    if b < s {
        assert(false) by (nonlinear_arith)
            requires
                b + 1 <= s,
                s * s <= n,
                n <= b * b,
        ;
    }
}

/// Integer square root by bisection.
pub fn isqrt(n: u64) -> (r: u64)
    requires
        n < 0x4000_0000_0000_0000,
    ensures
        r == spec_isqrt(n as nat),
        r * r <= n < (r + 1) * (r + 1),
{
    let mut lo: u64 = 0;
    let mut hi: u64 = 0x8000_0000;
    while lo + 1 < hi
        invariant
            lo < hi <= 0x8000_0000,
            lo * lo <= n,
            n < hi * hi,
        decreases hi - lo,
    {
        let mid: u64 = lo + (hi - lo) / 2;
        assert(mid * mid <= 0x8000_0000u64 * 0x8000_0000u64) by (nonlinear_arith)
            requires
                mid <= 0x8000_0000u64,
        ;
        if mid * mid <= n {
            lo = mid;
        } else {
            hi = mid;
        }
    }
    proof {
        lemma_isqrt_unique(n as nat, lo as nat);
    }
    lo
}

/// `delta` scaled by `num / den`, rounded toward zero. This is the one
/// division the simulation uses, both to clamp a movement step and to build
/// a projectile's fixed-point direction.
pub open spec fn spec_scale(delta: int, num: int, den: int) -> int
    recommends
        den > 0,
{
    if delta >= 0 {
        (delta * num) / den
    } else {
        -(((-delta) * num) / den)
    }
}

/// Scaling keeps the sign of `delta`, and its magnitude stays under whichever
/// of the two factors the other bound allows.
pub proof fn lemma_scale_bounds(delta: int, num: int, den: int)
    requires
        den > 0,
        num >= 0,
    ensures
        abs(spec_scale(delta, num, den)) == abs(delta) * num / den,
        delta >= 0 ==> spec_scale(delta, num, den) >= 0,
        delta <= 0 ==> spec_scale(delta, num, den) <= 0,
        num <= den ==> abs(spec_scale(delta, num, den)) <= abs(delta),
        abs(delta) <= den ==> abs(spec_scale(delta, num, den)) <= num,
{
    let a = abs(delta) as int;
    lemma_mul_nonnegative(a, num);
    lemma_div_pos_is_pos(a * num, den);
    let q = (a * num) / den;
    if delta >= 0 {
        assert(spec_scale(delta, num, den) == q);
    } else {
        assert(spec_scale(delta, num, den) == -q);
    }
    if num <= den {
        lemma_mul_inequality(num, den, a);
        assert(num * a == a * num) by (nonlinear_arith);
        assert(den * a == a * den) by (nonlinear_arith);
        lemma_div_is_ordered(a * num, a * den, den);
        lemma_div_multiples_vanish(a, den);
        assert(q <= a);
    }
    if a <= den {
        lemma_mul_inequality(a, den, num);
        assert(a * num == num * a) by (nonlinear_arith);
        assert(den * num == num * den) by (nonlinear_arith);
        lemma_div_is_ordered(a * num, den * num, den);
        lemma_div_multiples_vanish(num, den);
        assert(q <= num);
    }
}

/// Executable form of `spec_scale` on magnitudes small enough that the
/// product fits a machine word.
pub fn scale_i64(delta: i64, num: i64, den: i64) -> (r: i64)
    requires
        0 < den,
        0 <= num <= 0x4000_0000,
        -0x4000_0000 <= delta <= 0x4000_0000,
    ensures
        r == spec_scale(delta as int, num as int, den as int),
{
    let a: u64 = if delta >= 0 {
        delta as u64
    } else {
        (-delta) as u64
    };
    proof {
        assert(a * (num as u64) <= 0x4000_0000u64 * 0x4000_0000u64) by (nonlinear_arith)
            requires
                a <= 0x4000_0000u64,
                num as u64 <= 0x4000_0000u64,
        ;
    }
    let m: u64 = (a * (num as u64)) / (den as u64);
    proof {
        vstd::arithmetic::div_mod::lemma_div_nonincreasing(a as int * num as int, den as int);
        lemma_scale_bounds(delta as int, num as int, den as int);
    }
    if delta >= 0 {
        m as i64
    } else {
        -(m as i64)
    }
}

} // verus!
