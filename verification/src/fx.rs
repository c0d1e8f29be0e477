//! Fixed-point scalars: an `i64` holds a multiple of `1/65536`.
//!
//! Multiplication, division and square root each round toward zero;
//! `tdiv` is that rounding as a spec-level function, and every
//! executable operation here is proved to return exactly the value its
//! spec-level counterpart describes.

use vstd::prelude::*;

verus! {

/// The fixed-point representation of `1`: values are multiples of `1/65536`.
pub const FX_ONE: i64 = 65536;

/// `a` is representable as an `i64`.
pub open spec fn fits_i64(a: int) -> bool {
    i64::MIN <= a <= i64::MAX
}

/// Division rounded toward zero, for a positive divisor.
pub open spec fn tdiv(a: int, b: int) -> int
    recommends
        b > 0,
{
    if a >= 0 {
        a / b
    } else {
        -((-a) / b)
    }
}

/// The fixed-point product: `(a * b) / FX_ONE`, rounded toward zero.
pub open spec fn fx_mul_s(a: int, b: int) -> int {
    tdiv(a * b, FX_ONE as int)
}

/// The fixed-point quotient: `(a * FX_ONE) / b`, rounded toward zero.
pub open spec fn fx_div_s(a: int, b: int) -> int
    recommends
        b != 0,
{
    if b > 0 {
        tdiv(a * FX_ONE, b)
    } else {
        tdiv(-(a * FX_ONE), -b)
    }
}

/// `r` is the integer square root of `n`, rounded down.
pub open spec fn is_sqrt_floor(n: int, r: int) -> bool {
    &&& 0 <= r
    &&& r * r <= n
    &&& n < (r + 1) * (r + 1)
}

/// The integer square root of `n`, rounded down.
pub open spec fn sqrt_floor(n: int) -> int
    recommends
        n >= 0,
{
    choose|r: int| is_sqrt_floor(n, r)
}

/// The fixed-point square root of `a`: `sqrt(a / FX_ONE)` as a
/// fixed-point value, rounded down, which is `sqrt_floor(a * FX_ONE)`.
pub open spec fn fx_sqrt_s(a: int) -> int {
    sqrt_floor(a * (FX_ONE as int))
}

/// Any `r` with the square-root property is the one `sqrt_floor` denotes.
pub proof fn lemma_sqrt_floor_unique(n: int, r: int)
    requires
        is_sqrt_floor(n, r),
    ensures
        r == sqrt_floor(n),
{
    assert(is_sqrt_floor(n, sqrt_floor(n)));
    let r2 = sqrt_floor(n);
    assert(r == r2) by (nonlinear_arith)
        requires
            is_sqrt_floor(n, r),
            is_sqrt_floor(n, r2),
    ;
}

/// Truncating division shrinks magnitudes: a bound on the dividend
/// gives the corresponding bound on the quotient.
pub proof fn lemma_tdiv_abs_le(a: int, b: int, c: int)
    by (nonlinear_arith)
    requires
        b > 0,
        0 <= c,
        -c <= a <= c,
    ensures
        -(c / b) <= tdiv(a, b) <= c / b,
        -c <= tdiv(a, b) <= c,
{
}

/// Magnitude bound for a fixed-point quotient: any nonzero divisor
/// has magnitude at least one representation step, so the quotient is
/// at most `FX_ONE` times the dividend.
pub proof fn lemma_fx_div_abs_le(a: int, b: int, c: int)
    by (nonlinear_arith)
    requires
        b != 0,
        0 <= c,
        -c <= a <= c,
    ensures
        -(c * FX_ONE) <= fx_div_s(a, b) <= c * FX_ONE,
{
}

/// A product of values in `[0, FX_ONE]` stays in `[0, FX_ONE]`.
pub proof fn lemma_fx_mul_unit_range(a: int, b: int)
    by (nonlinear_arith)
    requires
        0 <= a <= FX_ONE as int,
        0 <= b <= FX_ONE as int,
    ensures
        0 <= fx_mul_s(a, b) <= FX_ONE as int,
        fx_mul_s(a, b) <= a,
        fx_mul_s(a, b) <= b,
{
}

/// `sqrt_floor` really denotes a square root: below every nonnegative
/// integer there is a largest perfect square.
pub proof fn lemma_sqrt_floor_exists(n: int)
    requires
        n >= 0,
    ensures
        is_sqrt_floor(n, sqrt_floor(n)),
    decreases n,
{
    if n == 0 {
        assert(is_sqrt_floor(0, 0));
    } else {
        lemma_sqrt_floor_exists(n - 1);
        let r = sqrt_floor(n - 1);
        if n < (r + 1) * (r + 1) {
            assert(is_sqrt_floor(n, r));
        } else {
            assert(is_sqrt_floor(n, r + 1)) by (nonlinear_arith)
                requires
                    is_sqrt_floor(n - 1, r),
                    n >= (r + 1) * (r + 1),
            ;
        }
        assert(exists|w: int| is_sqrt_floor(n, w));
    }
}

/// `x` clamped into `[lo, hi]`.
pub open spec fn clamp_i(x: int, lo: int, hi: int) -> int {
    if x < lo {
        lo
    } else if x > hi {
        hi
    } else {
        x
    }
}

/// Magnitude bound for a product of bounded factors.
pub proof fn lemma_mul_abs_le(a: int, b: int, ca: int, cb: int)
    by (nonlinear_arith)
    requires
        0 <= ca,
        0 <= cb,
        -ca <= a <= ca,
        -cb <= b <= cb,
    ensures
        -(ca * cb) <= a * b <= ca * cb,
{
}

/// Componentwise magnitude bound for the fixed-point product.
pub proof fn lemma_fx_mul_abs_le(a: int, b: int, ca: int, cb: int)
    requires
        -ca <= a <= ca,
        -cb <= b <= cb,
        0 <= ca,
        0 <= cb,
    ensures
        -((ca * cb) / (FX_ONE as int)) <= fx_mul_s(a, b) <= (ca * cb) / (FX_ONE as int),
{
    assert(-(ca * cb) <= a * b <= ca * cb) by (nonlinear_arith)
        requires
            -ca <= a <= ca,
            -cb <= b <= cb,
            0 <= ca,
            0 <= cb,
    ;
    lemma_tdiv_abs_le(a * b, FX_ONE as int, ca * cb);
}

/// The `i128` magnitude of a product of two `i64` values, divided by a
/// positive `i128` divisor, rounding toward zero.
pub(crate) fn tdiv128(a: i128, b: i128) -> (r: i128)
    requires
        b > 0,
        a != i128::MIN,
    ensures
        r == tdiv(a as int, b as int),
{
    if a >= 0 {
        let q = (a as u128) / (b as u128);
        assert(q <= a as u128) by (nonlinear_arith)
            requires
                q == (a as u128) / (b as u128),
                b as u128 > 0,
        ;
        q as i128
    } else {
        let m = (-a) as u128;
        let q = m / (b as u128);
        assert(q <= m) by (nonlinear_arith)
            requires
                q == m / (b as u128),
                b as u128 > 0,
        ;
        -(q as i128)
    }
}

/// Truncating division of nonnegative-signed `i64` values by a
/// positive divisor.
pub fn tdiv_i64(a: i64, b: i64) -> (r: i64)
    requires
        b > 0,
    ensures
        r == tdiv(a as int, b as int),
{
    proof {
        if a >= 0 {
            lemma_tdiv_abs_le(a as int, b as int, a as int);
        } else {
            lemma_tdiv_abs_le(a as int, b as int, -(a as int));
        }
    }
    tdiv128(a as i128, b as i128) as i64
}

/// Truncating division leaves a remainder smaller than the divisor.
pub proof fn lemma_tdiv_remainder(a: int, b: int)
    by (nonlinear_arith)
    requires
        b > 0,
    ensures
        -(b - 1) <= a - b * tdiv(a, b) <= b - 1,
{
}

/// Dividing an exact multiple is exact.
pub proof fn lemma_tdiv_mul_exact(x: int, b: int)
    by (nonlinear_arith)
    requires
        b > 0,
    ensures
        tdiv(x * b, b) == x,
{
}

/// Truncating division is odd in the dividend.
pub proof fn lemma_tdiv_neg(a: int, b: int)
    by (nonlinear_arith)
    requires
        b > 0,
    ensures
        tdiv(-a, b) == -tdiv(a, b),
{
}

/// Truncating division by a positive divisor keeps the sign of the
/// dividend.
pub proof fn lemma_tdiv_sign(a: int, b: int)
    by (nonlinear_arith)
    requires
        b > 0,
    ensures
        a >= 0 ==> tdiv(a, b) >= 0,
        a <= 0 ==> tdiv(a, b) <= 0,
{
}

/// Fixed-point multiplication, exact per `fx_mul_s`.
pub fn fx_mul(a: i64, b: i64) -> (r: i64)
    requires
        i64::MIN <= fx_mul_s(a as int, b as int) <= i64::MAX,
    ensures
        r == fx_mul_s(a as int, b as int),
{
    let p: i128 = (a as i128) * (b as i128);
    assert(p != i128::MIN) by (nonlinear_arith)
        requires
            p == (a as i128) * (b as i128),
            i64::MIN <= a <= i64::MAX,
            i64::MIN <= b <= i64::MAX,
    ;
    let q = tdiv128(p, 65536);
    q as i64
}

/// Fixed-point division, exact per `fx_div_s`.
pub fn fx_div(a: i64, b: i64) -> (r: i64)
    requires
        b != 0,
        i64::MIN <= fx_div_s(a as int, b as int) <= i64::MAX,
    ensures
        r == fx_div_s(a as int, b as int),
{
    let n: i128 = (a as i128) * 65536;
    if b > 0 {
        tdiv128(n, b as i128) as i64
    } else {
        tdiv128(-n, -(b as i128)) as i64
    }
}

/// Integer square root of a `u128`, rounded down.
pub fn isqrt_u128(n: u128) -> (r: u128)
    ensures
        is_sqrt_floor(n as int, r as int),
        r as int == sqrt_floor(n as int),
{
    let mut lo: u128 = 0;
    let mut hi: u128 = 18446744073709551616;
    assert((n as int) < (hi as int) * (hi as int)) by (nonlinear_arith)
        requires
            hi == 18446744073709551616u128,
            n <= u128::MAX,
    ;
    while lo + 1 < hi
        invariant
            lo < hi <= 18446744073709551616u128,
            (lo as int) * (lo as int) <= n as int,
            (n as int) < (hi as int) * (hi as int),
        decreases hi - lo,
    {
        let mid = lo + (hi - lo) / 2;
        assert((mid as int) * (mid as int) <= u128::MAX) by (nonlinear_arith)
            requires
                mid < 18446744073709551616u128,
        ;
        if mid * mid <= n {
            lo = mid;
        } else {
            hi = mid;
        }
    }
    proof {
        lemma_sqrt_floor_unique(n as int, lo as int);
    }
    lo
}

/// Fixed-point square root, exact per `fx_sqrt_s`.
pub fn fx_sqrt(a: i64) -> (r: i64)
    requires
        a >= 0,
    ensures
        r == fx_sqrt_s(a as int),
        is_sqrt_floor(a as int * (FX_ONE as int), r as int),
        0 <= r < 1099511627776,
{
    let w = (a as u128) * 65536;
    let s = isqrt_u128(w);
    assert(s < 1099511627776) by (nonlinear_arith)
        requires
            is_sqrt_floor(w as int, s as int),
            w as int <= (i64::MAX as int) * 65536,
    ;
    s as i64
}

} // verus!
