//! Fixed-point scalar arithmetic: exact values, including the
//! round-toward-zero behavior on negative operands.

use wknder::fx::{fx_div, fx_mul, fx_sqrt, isqrt_u128, tdiv_i64, FX_ONE};

#[test]
fn fx_one_is_two_to_sixteen() {
    assert_eq!(FX_ONE, 65536);
}

#[test]
fn mul_exact_products() {
    // 1.5 * 1.5 == 2.25
    assert_eq!(fx_mul(98304, 98304), 147456);
    // 2 * 3 == 6
    assert_eq!(fx_mul(131072, 196608), 393216);
    // multiplying by one is the identity
    assert_eq!(fx_mul(12345, FX_ONE), 12345);
    assert_eq!(fx_mul(-12345, FX_ONE), -12345);
}

#[test]
fn mul_rounds_toward_zero() {
    // (-1/65536) * (1/65536) is a tiny negative value that truncates to 0
    assert_eq!(fx_mul(-1, 1), 0);
    // -1.5 * 1.5 == -2.25 exactly
    assert_eq!(fx_mul(-98304, 98304), -147456);
    // 1/65536 * 1.0 stays 1/65536
    assert_eq!(fx_mul(1, FX_ONE), 1);
}

#[test]
fn div_exact_and_truncating() {
    // 1 / 3 in fixed point truncates 4294967296 / 3
    assert_eq!(fx_div(FX_ONE, 3 * FX_ONE), 21845);
    // 6 / 2 == 3
    assert_eq!(fx_div(393216, 131072), 196608);
    // division by a negative divisor keeps round-toward-zero
    assert_eq!(fx_div(FX_ONE, -3 * FX_ONE), -21845);
    assert_eq!(fx_div(-FX_ONE, 3 * FX_ONE), -21845);
}

#[test]
fn sqrt_exact_squares() {
    // sqrt(4.0) == 2.0
    assert_eq!(fx_sqrt(4 * FX_ONE), 2 * FX_ONE);
    // sqrt(1.0) == 1.0
    assert_eq!(fx_sqrt(FX_ONE), FX_ONE);
    // sqrt(2.0) rounds down to 92681/65536
    assert_eq!(fx_sqrt(2 * FX_ONE), 92681);
    assert_eq!(fx_sqrt(0), 0);
}

#[test]
fn isqrt_edges() {
    assert_eq!(isqrt_u128(0), 0);
    assert_eq!(isqrt_u128(1), 1);
    assert_eq!(isqrt_u128(3), 1);
    assert_eq!(isqrt_u128(4), 2);
    assert_eq!(isqrt_u128(u64::MAX as u128), 4294967295);
}

#[test]
fn tdiv_rounds_toward_zero() {
    assert_eq!(tdiv_i64(7, 2), 3);
    assert_eq!(tdiv_i64(-7, 2), -3);
    assert_eq!(tdiv_i64(1, 65536), 0);
    assert_eq!(tdiv_i64(-1, 65536), 0);
}
