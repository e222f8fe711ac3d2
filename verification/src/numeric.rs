//! Fixed-point arithmetic: rounding division, tick rounding, and an integer
//! square root. All quantities are integers; quotients are rounded to the
//! nearest integer with a half rounded away from zero, as the book features
//! and the tick rounding demand.
use vstd::prelude::*;
use vstd::arithmetic::div_mod::{
    lemma_fundamental_div_mod, lemma_mod_division_less_than_divisor,
};
use vstd::arithmetic::mul::{lemma_mul_inequality, lemma_mul_is_commutative, lemma_mul_inequality_converse};

verus! {

/// Quotient of `n` by `d`, rounded to the nearest integer with a half
/// rounded away from zero. Meaningful for `d > 0`.
pub open spec fn div_round_half(n: int, d: int) -> int {
    if n >= 0 {
        (2 * n + d) / (2 * d)
    } else {
        -((2 * (-n) + d) / (2 * d))
    }
}

/// `v` rounded to the nearest multiple of `tick`, half away from zero.
pub open spec fn spec_round_to_tick(v: int, tick: int) -> int {
    div_round_half(v, tick) * tick
}

proof fn lemma_round_quotient_nonneg_le(m: int, d: int)
    requires
        m >= 0,
        d >= 1,
    ensures
        0 <= (2 * m + d) / (2 * d) <= m,
{
    let q = (2 * m + d) / (2 * d);
    lemma_fundamental_div_mod(2 * m + d, 2 * d);
    lemma_mod_division_less_than_divisor(2 * m + d, 2 * d);
    if q < 0 {
        lemma_mul_inequality(q, -1, 2 * d);
        lemma_mul_is_commutative(q, 2 * d);
        assert(false);
    }
    if q > m {
        lemma_mul_inequality(m + 1, q, 2 * d);
        lemma_mul_is_commutative(m + 1, 2 * d);
        lemma_mul_is_commutative(q, 2 * d);
        assert((m + 1) * (2 * d) == 2 * d * m + 2 * d) by (nonlinear_arith);
        assert(2 * d * m >= 2 * m) by (nonlinear_arith)
            requires d >= 1 && m >= 0;
        assert(false);
    }
}

/// The rounded quotient keeps the sign of the numerator and never exceeds it
/// in magnitude.
pub proof fn lemma_div_round_half_bounds(n: int, d: int)
    requires
        d >= 1,
    ensures
        n >= 0 ==> 0 <= div_round_half(n, d) <= n,
        n <= 0 ==> n <= div_round_half(n, d) <= 0,
{
    if n >= 0 {
        lemma_round_quotient_nonneg_le(n, d);
    } else {
        lemma_round_quotient_nonneg_le(-n, d);
    }
}

/// Scaling the rounded quotient back up overshoots `n` by less than `d`.
pub proof fn lemma_div_round_half_mul_le(n: int, d: int)
    requires
        n >= 0,
        d >= 1,
    ensures
        div_round_half(n, d) * d <= n + d,
{
    let q = (2 * n + d) / (2 * d);
    lemma_fundamental_div_mod(2 * n + d, 2 * d);
    lemma_mod_division_less_than_divisor(2 * n + d, 2 * d);
    assert(2 * d * q <= 2 * n + d);
    assert(2 * d * q == 2 * (q * d)) by (nonlinear_arith);
    assert(q * d <= n + d);
}

/// A rounded mean of `w` values each bounded by `b` in magnitude is bounded
/// by `b + 1` in magnitude.
pub proof fn lemma_mean_bound(n: int, w: int, b: int)
    requires
        1 <= w,
        0 <= b,
        -(w * b) <= n <= w * b,
    ensures
        -(b + 1) <= div_round_half(n, w) <= b + 1,
{
    if n >= 0 {
        lemma_div_round_half_bounds(n, w);
        lemma_div_round_half_mul_le(n, w);
        let q = div_round_half(n, w);
        assert(q * w <= n + w);
        assert(w * b + w == (b + 1) * w) by (nonlinear_arith);
        lemma_mul_inequality_converse(q, b + 1, w);
    } else {
        lemma_div_round_half_bounds(-n, w);
        lemma_div_round_half_mul_le(-n, w);
        let q = div_round_half(-n, w);
        assert(q * w <= -n + w);
        assert(w * b + w == (b + 1) * w) by (nonlinear_arith);
        lemma_mul_inequality_converse(q, b + 1, w);
        assert(div_round_half(n, w) == -q);
    }
}

/// Bound within which `div_round_half_i128` accepts its arguments.
pub const DIV_ARG_MAX: i128 = 0x800_0000_0000_0000_0000_0000_0000_0000;

/// Rounding division on machine integers.
pub fn div_round_half_i128(n: i128, d: i128) -> (r: i128)
    requires
        1 <= d <= DIV_ARG_MAX,
        -DIV_ARG_MAX <= n <= DIV_ARG_MAX,
    ensures
        r == div_round_half(n as int, d as int),
{
    let neg: bool = n < 0;
    let m: u128 = if neg { (-n) as u128 } else { n as u128 };
    let dd: u128 = d as u128;
    let q: u128 = (2 * m + dd) / (2 * dd);
    proof {
        lemma_round_quotient_nonneg_le(m as int, dd as int);
    }
    if neg {
        -(q as i128)
    } else {
        q as i128
    }
}

/// `price` rounded to the nearest multiple of `tick_size`, half away from
/// zero.
pub fn round_to_nearest_tick(price: i128, tick_size: i128) -> (r: i128)
    requires
        1 <= tick_size <= DIV_ARG_MAX,
        -DIV_ARG_MAX <= price <= DIV_ARG_MAX,
    ensures
        r == spec_round_to_tick(price as int, tick_size as int),
{
    let q: i128 = div_round_half_i128(price, tick_size);
    proof {
        lemma_div_round_half_bounds(price as int, tick_size as int);
        if price >= 0 {
            lemma_div_round_half_mul_le(price as int, tick_size as int);
            lemma_mul_inequality(0, q as int, tick_size as int);
        } else {
            lemma_div_round_half_mul_le(-price as int, tick_size as int);
            assert(div_round_half(-price as int, tick_size as int)
                == -div_round_half(price as int, tick_size as int));
            assert((-(q as int)) * (tick_size as int) == -(q as int * tick_size as int))
                by (nonlinear_arith);
            lemma_mul_inequality(q as int, 0, tick_size as int);
        }
    }
    q * tick_size
}

/// Largest `r` with `r * r <= x`: the floor of the square root.
pub open spec fn is_floor_sqrt(x: int, r: int) -> bool {
    &&& r >= 0
    &&& r * r <= x
    &&& x < (r + 1) * (r + 1)
}

/// The floor square root, as a spec-level value.
pub open spec fn spec_isqrt(x: int) -> int {
    choose|r: int| is_floor_sqrt(x, r)
}

/// Some floor square root exists for every nonnegative integer.
pub proof fn lemma_isqrt_exists(x: int)
    requires
        x >= 0,
    ensures
        is_floor_sqrt(x, spec_isqrt(x)),
    decreases x,
{
    if x == 0 {
        assert(is_floor_sqrt(0, 0));
    } else {
        lemma_isqrt_exists(x - 1);
        let r = spec_isqrt(x - 1);
        assert(is_floor_sqrt(x - 1, r));
        if x < (r + 1) * (r + 1) {
            assert(is_floor_sqrt(x, r));
        } else {
            assert((r + 1) * (r + 1) == x);
            assert((r + 2) * (r + 2) > x) by (nonlinear_arith)
                requires r >= 0 && (r + 1) * (r + 1) == x;
            assert(is_floor_sqrt(x, r + 1));
        }
    }
}

/// The floor square root is unique.
pub proof fn lemma_isqrt_unique(x: int, a: int, b: int)
    requires
        is_floor_sqrt(x, a),
        is_floor_sqrt(x, b),
    ensures
        a == b,
{
    if a < b {
        assert((a + 1) * (a + 1) <= b * b) by (nonlinear_arith)
            requires 0 <= a && a + 1 <= b;
        assert(false);
    }
    if b < a {
        assert((b + 1) * (b + 1) <= a * a) by (nonlinear_arith)
            requires 0 <= b && b + 1 <= a;
        assert(false);
    }
}

/// Bound within which `isqrt_u128` accepts its argument.
pub const SQRT_ARG_MAX: u128 = 0x4000_0000_0000_0000_0000_0000_0000_0000;

/// Floor square root on machine integers, by binary search.
pub fn isqrt_u128(x: u128) -> (r: u128)
    requires
        x < SQRT_ARG_MAX,
    ensures
        is_floor_sqrt(x as int, r as int),
        r == spec_isqrt(x as int),
{
    let mut lo: u128 = 0;
    let mut hi: u128 = 0x8000_0000_0000_0000;
    proof {
        assert((hi as int) * (hi as int) == SQRT_ARG_MAX as int) by (nonlinear_arith)
            requires hi == 0x8000_0000_0000_0000u128;
    }
    while lo + 1 < hi
        invariant
            lo < hi,
            hi <= 0x8000_0000_0000_0000,
            (lo as int) * (lo as int) <= x as int,
            (x as int) < (hi as int) * (hi as int),
        decreases hi - lo,
    {
        let mid: u128 = lo + (hi - lo) / 2;
        proof {
            assert((mid as int) * (mid as int) <= 0x4000_0000_0000_0000_0000_0000_0000_0000int)
                by (nonlinear_arith)
                requires 0 <= mid as int <= 0x8000_0000_0000_0000int;
        }
        if mid * mid <= x {
            lo = mid;
        } else {
            hi = mid;
        }
    }
    proof {
        lemma_isqrt_exists(x as int);
        lemma_isqrt_unique(x as int, lo as int, spec_isqrt(x as int));
    }
    lo
}

} // verus!
