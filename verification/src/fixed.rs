//! Scalar fixed-point arithmetic.
//!
//! World quantities (positions, velocities, masses, coefficients) are stored
//! as `i64` counts of a thousandth of a world unit.  Products and quotients
//! rescale by [`SCALE`] and truncate toward zero; the spec functions here
//! state the result of every operation exactly, so contracts over them are
//! deterministic down to the last unit.

use vstd::prelude::*;

verus! {

/// Number of fixed-point units in one world unit.
pub const SCALE: i64 = 1000;

/// Absolute value of a mathematical integer.
pub open spec fn abs_s(a: int) -> int {
    if a >= 0 {
        a
    } else {
        -a
    }
}

/// Division truncated toward zero (for a positive divisor, this is ordinary
/// integer division of the magnitudes with the sign of the dividend).
pub open spec fn tz_div(a: int, b: int) -> int {
    if a >= 0 {
        a / b
    } else {
        -((-a) / b)
    }
}

/// Fixed-point product: `a * b` rescaled by [`SCALE`], truncated toward zero.
pub open spec fn fmul_s(a: int, b: int) -> int {
    tz_div(a * b, SCALE as int)
}

/// Fixed-point quotient: `a / b` at fixed-point scale, truncated toward zero.
pub open spec fn fdiv_s(a: int, b: int) -> int {
    tz_div(a * SCALE, b)
}

/// Fixed-point product of two scalars.
pub fn fmul(a: i64, b: i64) -> (r: i64)
    requires
        -(i64::MAX as int) <= fmul_s(a as int, b as int) <= i64::MAX as int,
    ensures
        r == fmul_s(a as int, b as int),
{
    let p: i128 = (a as i128) * (b as i128);
    if p >= 0 {
        let q: u128 = (p as u128) / (SCALE as u128);
        assert(q == tz_div(p as int, SCALE as int));
        q as i64
    } else {
        let q: u128 = ((-p) as u128) / (SCALE as u128);
        assert(-(q as int) == tz_div(p as int, SCALE as int));
        -(q as i64)
    }
}

/// Fixed-point quotient of two scalars; the divisor must be positive.
pub fn fdiv(a: i64, b: i64) -> (r: i64)
    requires
        b > 0,
        -(i64::MAX as int) <= fdiv_s(a as int, b as int) <= i64::MAX as int,
    ensures
        r == fdiv_s(a as int, b as int),
{
    let p: i128 = (a as i128) * (SCALE as i128);
    if p >= 0 {
        let q: u128 = (p as u128) / (b as u128);
        assert(q == tz_div(p as int, b as int));
        q as i64
    } else {
        let q: u128 = ((-p) as u128) / (b as u128);
        assert(-(q as int) == tz_div(p as int, b as int));
        -(q as i64)
    }
}

/// `r` is the integer square root of `n`.
pub open spec fn is_sqrt(n: int, r: int) -> bool {
    0 <= r && r * r <= n && n < (r + 1) * (r + 1)
}

/// The integer square root as a spec-level value; [`lemma_sqrt_is`] pins it
/// to the unique root whenever one is exhibited.
pub open spec fn sqrt_s(n: int) -> int {
    choose|r: int| is_sqrt(n, r)
}

/// The integer square root is unique, so any witness determines `sqrt_s`.
pub proof fn lemma_sqrt_is(n: int, r: int)
    requires
        is_sqrt(n, r),
    ensures
        sqrt_s(n) == r,
{
    assert(is_sqrt(n, sqrt_s(n)));
    let w = sqrt_s(n);
    if w < r {
        assert((w + 1) * (w + 1) <= r * r) by (nonlinear_arith)
            requires
                0 <= w + 1 <= r,
        ;
    }
    if r < w {
        assert((r + 1) * (r + 1) <= w * w) by (nonlinear_arith)
            requires
                0 <= r + 1 <= w,
        ;
    }
}

/// Every nonnegative integer has an integer square root, so `sqrt_s` of it
/// satisfies [`is_sqrt`].
pub proof fn lemma_sqrt_exists(n: int)
    requires
        n >= 0,
    ensures
        is_sqrt(n, sqrt_s(n)),
    decreases n,
{
    if n == 0 {
        assert(is_sqrt(0, 0));
    } else {
        lemma_sqrt_exists(n - 1);
        let r = sqrt_s(n - 1);
        if n < (r + 1) * (r + 1) {
            assert(is_sqrt(n, r));
        } else {
            assert(n == (r + 1) * (r + 1));
            assert((r + 1) * (r + 1) < (r + 2) * (r + 2)) by (nonlinear_arith)
                requires
                    r >= 0,
            ;
            assert(is_sqrt(n, r + 1));
        }
        assert(is_sqrt(n, sqrt_s(n)));
    }
}

/// Integer square root by bisection.
pub fn isqrt(n: u64) -> (r: u64)
    ensures
        is_sqrt(n as int, r as int),
        sqrt_s(n as int) == r,
{
    let mut lo: u64 = 0;
    let mut hi: u64 = 4294967296;
    assert((n as int) < (hi as int) * (hi as int)) by (nonlinear_arith)
        requires
            n <= 0xffff_ffff_ffff_ffff && hi == 4294967296,
    ;
    while lo + 1 < hi
        invariant
            lo < hi <= 4294967296,
            (lo as int) * (lo as int) <= n as int,
            (n as int) < (hi as int) * (hi as int),
        decreases hi - lo,
    {
        let mid: u64 = lo + (hi - lo) / 2;
        assert(lo < mid < hi);
        assert((mid as int) * (mid as int) <= 0xffff_ffff_ffff_ffff) by (nonlinear_arith)
            requires
                0 <= mid < 4294967296,
        ;
        if mid * mid <= n {
            lo = mid;
        } else {
            hi = mid;
        }
    }
    proof {
        lemma_sqrt_is(n as int, lo as int);
    }
    lo
}

/// The magnitude of a truncated quotient is the quotient of the magnitudes,
/// so in particular it never exceeds the magnitude of the dividend.
pub proof fn lemma_tz_div_abs(a: int, b: int)
    requires
        b >= 1,
    ensures
        abs_s(tz_div(a, b)) == abs_s(a) / b,
        abs_s(tz_div(a, b)) <= abs_s(a),
{
    if a >= 0 {
        vstd::arithmetic::div_mod::lemma_div_pos_is_pos(a, b);
        vstd::arithmetic::div_mod::lemma_div_nonincreasing(a, b);
    } else {
        vstd::arithmetic::div_mod::lemma_div_pos_is_pos(-a, b);
        vstd::arithmetic::div_mod::lemma_div_nonincreasing(-a, b);
    }
}

/// Multiplying a truncated quotient back by the divisor lands within one
/// divisor of the dividend.
pub proof fn lemma_tz_div_error(a: int, b: int)
    requires
        b >= 1,
    ensures
        abs_s(b * tz_div(a, b) - a) < b,
{
    if a >= 0 {
        vstd::arithmetic::div_mod::lemma_fundamental_div_mod(a, b);
        vstd::arithmetic::div_mod::lemma_div_pos_is_pos(a, b);
    } else {
        vstd::arithmetic::div_mod::lemma_fundamental_div_mod(-a, b);
        vstd::arithmetic::div_mod::lemma_div_pos_is_pos(-a, b);
        assert(b * (-((-a) / b)) == -(b * ((-a) / b))) by (nonlinear_arith);
    }
}

/// The magnitude of a product is the product of the magnitudes.
pub proof fn lemma_abs_mul(a: int, b: int)
    ensures
        abs_s(a * b) == abs_s(a) * abs_s(b),
{
    assert(abs_s(a * b) == abs_s(a) * abs_s(b)) by (nonlinear_arith);
}

/// A fixed-point product with a factor no larger than one world unit cannot
/// grow the other factor's magnitude.
pub proof fn lemma_fmul_contract(a: int, b: int)
    requires
        abs_s(b) <= SCALE,
    ensures
        abs_s(fmul_s(a, b)) <= abs_s(a),
{
    lemma_abs_mul(a, b);
    lemma_tz_div_abs(a * b, SCALE as int);
    assert(abs_s(a) * abs_s(b) <= abs_s(a) * (SCALE as int)) by (nonlinear_arith)
        requires
            abs_s(b) <= SCALE,
            abs_s(a) >= 0,
    ;
    vstd::arithmetic::div_mod::lemma_div_is_ordered(
        abs_s(a) * abs_s(b),
        abs_s(a) * (SCALE as int),
        SCALE as int,
    );
    vstd::arithmetic::div_mod::lemma_div_by_multiple(abs_s(a), SCALE as int);
}

/// A truncated quotient keeps the sign of its dividend (or is zero).
pub proof fn lemma_tz_div_sign(a: int, b: int)
    requires
        b >= 1,
    ensures
        a >= 0 ==> tz_div(a, b) >= 0,
        a <= 0 ==> tz_div(a, b) <= 0,
{
    if a >= 0 {
        vstd::arithmetic::div_mod::lemma_div_pos_is_pos(a, b);
    } else {
        vstd::arithmetic::div_mod::lemma_div_pos_is_pos(-a, b);
    }
}

/// A fixed-point product of a nonpositive and a nonnegative factor is
/// nonpositive.
pub proof fn lemma_fmul_nonpos(a: int, b: int)
    requires
        a <= 0,
        0 <= b,
    ensures
        fmul_s(a, b) <= 0,
{
    assert(a * b <= 0) by (nonlinear_arith)
        requires
            a <= 0,
            0 <= b,
    ;
    if a * b < 0 {
        vstd::arithmetic::div_mod::lemma_div_pos_is_pos(-(a * b), SCALE as int);
    } else {
        vstd::arithmetic::div_mod::lemma_div_pos_is_pos(a * b, SCALE as int);
        vstd::arithmetic::div_mod::lemma_div_nonincreasing(a * b, SCALE as int);
    }
}

/// A number whose square is below `(r + 1)^2` has magnitude at most `r`.
pub proof fn lemma_sq_le(x: int, r: int)
    requires
        0 <= r,
        x * x < (r + 1) * (r + 1),
    ensures
        -r <= x <= r,
{
    if x > r {
        assert((r + 1) * (r + 1) <= x * x) by (nonlinear_arith)
            requires
                0 <= r + 1 <= x,
        ;
    }
    if x < -r {
        assert((r + 1) * (r + 1) <= x * x) by (nonlinear_arith)
            requires
                x <= -(r + 1) <= 0,
        ;
    }
}

/// Products of bounded nonnegative factors are bounded by the product of
/// the bounds.
pub proof fn lemma_mul_le(a: int, b: int, ca: int, cb: int)
    requires
        0 <= a <= ca,
        0 <= b <= cb,
    ensures
        a * b <= ca * cb,
{
    assert(a * b <= ca * cb) by (nonlinear_arith)
        requires
            0 <= a <= ca,
            0 <= b <= cb,
    ;
}

/// General magnitude bound on a fixed-point product.
pub proof fn lemma_fmul_bound(a: int, b: int, bound: int)
    requires
        abs_s(a) * abs_s(b) <= bound * SCALE,
    ensures
        abs_s(fmul_s(a, b)) <= bound,
{
    lemma_abs_mul(a, b);
    lemma_tz_div_abs(a * b, SCALE as int);
    vstd::arithmetic::div_mod::lemma_div_is_ordered(
        abs_s(a) * abs_s(b),
        bound * (SCALE as int),
        SCALE as int,
    );
    vstd::arithmetic::div_mod::lemma_div_by_multiple(bound, SCALE as int);
}

/// General magnitude bound on a fixed-point quotient.
pub proof fn lemma_fdiv_bound(a: int, b: int, bound: int)
    requires
        b >= 1,
        abs_s(a) * SCALE <= bound * b,
    ensures
        abs_s(fdiv_s(a, b)) <= bound,
{
    lemma_abs_mul(a, SCALE as int);
    lemma_tz_div_abs(a * SCALE, b);
    assert(bound >= 0) by (nonlinear_arith)
        requires
            b >= 1,
            0 <= bound * b,
    ;
    vstd::arithmetic::div_mod::lemma_div_is_ordered(abs_s(a) * (SCALE as int), bound * b, b);
    vstd::arithmetic::div_mod::lemma_div_by_multiple(bound, b);
}

} // verus!
