//! Saturating fixed-point arithmetic.
//!
//! Every scalar of the simulation (a coordinate, a mass, a timestep) is a signed
//! 64-bit integer that counts units of `1 / ONE`. Results that leave
//! `[-LIMIT, LIMIT]` are clamped to the nearest end of that interval, and a
//! quotient is rounded toward zero, so that negating the dividend negates the
//! result exactly.
use vstd::prelude::*;

verus! {

/// Number of fractional bits of a scalar.
pub const FRAC_BITS: u32 = 24;

/// The raw value that stands for the number one.
pub const ONE: i64 = 0x100_0000;

/// Largest magnitude a stored scalar may have.
pub const LIMIT: i64 = 0x3FFF_FFFF_FFFF_FFFF;

/// Whether `x` is a value that a stored scalar may have.
pub open spec fn in_range(x: int) -> bool {
    -LIMIT <= x <= LIMIT
}

/// `x` clamped to `[-LIMIT, LIMIT]`.
pub open spec fn sat(x: int) -> int {
    if x > LIMIT {
        LIMIT as int
    } else if x < -LIMIT {
        -(LIMIT as int)
    } else {
        x
    }
}

/// The quotient of `a` by a positive `b`, rounded toward zero.
pub open spec fn trunc_div(a: int, b: int) -> int
    recommends
        b > 0,
{
    if a >= 0 {
        a / b
    } else {
        -((-a) / b)
    }
}

/// The product of two scalars.
pub open spec fn spec_fmul(a: int, b: int) -> int {
    sat(trunc_div(a * b, ONE as int))
}

/// The quotient of two scalars. Division by zero gives the largest scalar with
/// the sign of the dividend, and zero for zero by zero.
pub open spec fn spec_fdiv(a: int, b: int) -> int {
    if b > 0 {
        sat(trunc_div(a * ONE, b))
    } else if b < 0 {
        sat(-trunc_div(a * ONE, -b))
    } else if a > 0 {
        LIMIT as int
    } else if a < 0 {
        -(LIMIT as int)
    } else {
        0
    }
}

/// Whether `r` is the integer square root of `n`.
pub open spec fn is_sqrt(n: int, r: int) -> bool {
    0 <= r && r * r <= n < (r + 1) * (r + 1)
}

/// The integer square root of `n`: the largest `r` with `r * r <= n`.
pub open spec fn int_sqrt(n: int) -> int {
    choose|r: int| is_sqrt(n, r)
}

/// Whether `r` is the integer cube root of `n`.
pub open spec fn is_cbrt(n: int, r: int) -> bool {
    0 <= r && r * r * r <= n < (r + 1) * (r + 1) * (r + 1)
}

/// The integer cube root of `n`: the largest `r` with `r * r * r <= n`.
pub open spec fn int_cbrt(n: int) -> int {
    choose|r: int| is_cbrt(n, r)
}

/// Rounding toward zero is odd in the dividend.
pub proof fn lemma_trunc_div_odd(a: int, b: int)
    requires
        b > 0,
    ensures
        trunc_div(-a, b) == -trunc_div(a, b),
{
    if a == 0 {
        assert(0int / b == 0) by (nonlinear_arith)
            requires
                b > 0,
        ;
    }
}

/// The rounded quotient, multiplied back, misses the dividend by less than the
/// divisor, and does not overshoot it in magnitude.
pub proof fn lemma_trunc_div_bounds(a: int, b: int)
    requires
        b > 0,
    ensures
        a >= 0 ==> 0 <= trunc_div(a, b) * b <= a < trunc_div(a, b) * b + b,
        a <= 0 ==> 0 >= trunc_div(a, b) * b >= a > trunc_div(a, b) * b - b,
        a >= 0 ==> 0 <= trunc_div(a, b) <= a,
        a <= 0 ==> a <= trunc_div(a, b) <= 0,
{
    if a >= 0 {
        assert(0 <= (a / b) * b <= a < (a / b) * b + b && 0 <= a / b <= a) by (nonlinear_arith)
            requires
                a >= 0,
                b > 0,
        ;
    }
    if a <= 0 {
        let n = -a;
        assert(0 <= (n / b) * b <= n < (n / b) * b + b && 0 <= n / b <= n) by (nonlinear_arith)
            requires
                n >= 0,
                b > 0,
        ;
        assert((-(n / b)) * b == -((n / b) * b)) by (nonlinear_arith);
        if a == 0 {
            assert(0int / b == 0) by (nonlinear_arith)
                requires
                    b > 0,
            ;
        }
    }
}

/// A number has at most one integer square root.
pub proof fn lemma_sqrt_unique(n: int, r: int, s: int)
    requires
        is_sqrt(n, r),
        is_sqrt(n, s),
    ensures
        r == s,
{
    if r < s {
        assert((r + 1) * (r + 1) <= s * s) by (nonlinear_arith)
            requires
                0 <= r,
                r + 1 <= s,
        ;
    }
    if s < r {
        assert((s + 1) * (s + 1) <= r * r) by (nonlinear_arith)
            requires
                0 <= s,
                s + 1 <= r,
        ;
    }
}

/// A number has at most one integer cube root.
pub proof fn lemma_cbrt_unique(n: int, r: int, s: int)
    requires
        is_cbrt(n, r),
        is_cbrt(n, s),
    ensures
        r == s,
{
    if r < s {
        assert((r + 1) * (r + 1) * (r + 1) <= s * s * s) by (nonlinear_arith)
            requires
                0 <= r,
                r + 1 <= s,
        ;
    }
    if s < r {
        assert((s + 1) * (s + 1) * (s + 1) <= r * r * r) by (nonlinear_arith)
            requires
                0 <= s,
                s + 1 <= r,
        ;
    }
}

/// Whatever satisfies `is_sqrt` is the integer square root.
pub proof fn lemma_sqrt_is(n: int, r: int)
    requires
        is_sqrt(n, r),
    ensures
        int_sqrt(n) == r,
{
    lemma_sqrt_unique(n, r, int_sqrt(n));
}

/// Whatever satisfies `is_cbrt` is the integer cube root.
pub proof fn lemma_cbrt_is(n: int, r: int)
    requires
        is_cbrt(n, r),
    ensures
        int_cbrt(n) == r,
{
    lemma_cbrt_unique(n, r, int_cbrt(n));
}

/// Every number that is not negative has an integer square root.
pub proof fn lemma_sqrt_exists(n: int)
    requires
        0 <= n,
    ensures
        is_sqrt(n, int_sqrt(n)),
    decreases n,
{
    if n == 0 {
        assert(is_sqrt(0, 0));
    } else {
        lemma_sqrt_exists(n - 1);
        let r = int_sqrt(n - 1);
        if (r + 1) * (r + 1) <= n {
            assert(n < (r + 2) * (r + 2)) by (nonlinear_arith)
                requires
                    (r + 1) * (r + 1) == n,
                    0 <= r,
            ;
            assert(is_sqrt(n, r + 1));
        } else {
            assert(is_sqrt(n, r));
        }
    }
}

/// Every number that is not negative has an integer cube root.
pub proof fn lemma_cbrt_exists(n: int)
    requires
        0 <= n,
    ensures
        is_cbrt(n, int_cbrt(n)),
    decreases n,
{
    if n == 0 {
        assert(is_cbrt(0, 0));
    } else {
        lemma_cbrt_exists(n - 1);
        let r = int_cbrt(n - 1);
        if (r + 1) * (r + 1) * (r + 1) <= n {
            assert(n < (r + 2) * (r + 2) * (r + 2)) by (nonlinear_arith)
                requires
                    (r + 1) * (r + 1) * (r + 1) == n,
                    0 <= r,
            ;
            assert(is_cbrt(n, r + 1));
        } else {
            assert(is_cbrt(n, r));
        }
    }
}

/// Clamps a wide intermediate result to the range of stored scalars.
pub fn saturate(x: i128) -> (r: i64)
    ensures
        r == sat(x as int),
        in_range(r as int),
{
    if x > LIMIT as i128 {
        LIMIT
    } else if x < -(LIMIT as i128) {
        -LIMIT
    } else {
        x as i64
    }
}

/// Clamps a raw value handed in from outside to the range of stored scalars.
pub fn clamp(x: i64) -> (r: i64)
    ensures
        r == sat(x as int),
        in_range(r as int),
{
    saturate(x as i128)
}

/// The exact product of two 64-bit values.
pub fn wide_mul(a: i64, b: i64) -> (p: i128)
    ensures
        p == a * b,
        -0x4000_0000_0000_0000_0000_0000_0000_0000 <= p <= 0x4000_0000_0000_0000_0000_0000_0000_0000,
{
    assert(-0x8000_0000_0000_0000 * 0x8000_0000_0000_0000 <= a * b <= 0x8000_0000_0000_0000
        * 0x8000_0000_0000_0000) by (nonlinear_arith)
        requires
            -0x8000_0000_0000_0000 <= a < 0x8000_0000_0000_0000,
            -0x8000_0000_0000_0000 <= b < 0x8000_0000_0000_0000,
    ;
    (a as i128) * (b as i128)
}

/// The quotient of `a` by a positive `b`, rounded toward zero.
pub fn quot(a: i128, b: i128) -> (q: i128)
    requires
        b > 0,
        a > i128::MIN,
    ensures
        q == trunc_div(a as int, b as int),
{
    proof {
        lemma_trunc_div_bounds(a as int, b as int);
    }
    if a >= 0 {
        a / b
    } else {
        let n: i128 = -a;
        let m: i128 = n / b;
        -m
    }
}

/// The product of two scalars, rounded toward zero and clamped.
pub fn fmul(a: i64, b: i64) -> (r: i64)
    ensures
        r == spec_fmul(a as int, b as int),
        in_range(r as int),
{
    let p: i128 = wide_mul(a, b);
    saturate(quot(p, ONE as i128))
}

/// The quotient of two scalars, rounded toward zero and clamped. It is defined
/// for every divisor, so that no division can fail.
pub fn fdiv(a: i64, b: i64) -> (r: i64)
    ensures
        r == spec_fdiv(a as int, b as int),
        in_range(r as int),
{
    let p: i128 = wide_mul(a, ONE);
    if b > 0 {
        saturate(quot(p, b as i128))
    } else if b < 0 {
        let d: i128 = -(b as i128);
        proof {
            lemma_trunc_div_bounds(p as int, d as int);
        }
        saturate(-quot(p, d))
    } else if a > 0 {
        LIMIT
    } else if a < 0 {
        -LIMIT
    } else {
        0
    }
}

/// The scalar that stands for the whole number `n`.
pub fn from_int(n: i64) -> (r: i64)
    ensures
        r == sat(n * ONE),
        in_range(r as int),
{
    saturate(wide_mul(n, ONE))
}

/// The scalar that stands for the fraction `num / den`, rounded toward zero.
pub fn from_ratio(num: i64, den: i64) -> (r: i64)
    ensures
        r == spec_fdiv(num as int, den as int),
        in_range(r as int),
{
    fdiv(num, den)
}

/// The whole part of the scalar `x`, rounded toward zero.
pub fn to_int(x: i64) -> (n: i64)
    ensures
        n == trunc_div(x as int, ONE as int),
{
    proof {
        lemma_trunc_div_bounds(x as int, ONE as int);
    }
    quot(x as i128, ONE as i128) as i64
}

/// The integer square root of `n`.
pub fn isqrt(n: u128) -> (r: u128)
    ensures
        is_sqrt(n as int, r as int),
        r == int_sqrt(n as int),
        r < 0x1_0000_0000_0000_0000,
{
    let mut lo: u128 = 0;
    let mut hi: u128 = 0x1_0000_0000_0000_0000;
    while hi - lo > 1
        invariant
            lo < hi <= 0x1_0000_0000_0000_0000,
            lo * lo <= n,
            n < hi * hi,
        decreases hi - lo,
    {
        let mid: u128 = lo + (hi - lo) / 2;
        assert(mid * mid <= 0xFFFF_FFFF_FFFF_FFFF * 0xFFFF_FFFF_FFFF_FFFF) by (nonlinear_arith)
            requires
                0 <= mid <= 0xFFFF_FFFF_FFFF_FFFF,
        ;
        if mid * mid <= n {
            lo = mid;
        } else {
            hi = mid;
        }
    }
    proof {
        assert(hi == lo + 1);
        lemma_sqrt_is(n as int, lo as int);
    }
    lo
}

} // verus!
