//! Exact values of the fixed-point scalar operations.

use ray_tracer::fixed::{fadd, fsub, fneg, fmul, fdiv, fsqrt, FX_ONE, FX_TWO, FX_HALF};

#[test]
fn add_and_sub_are_exact() {
    assert_eq!(fadd(FX_ONE, FX_ONE), FX_TWO);
    assert_eq!(fsub(FX_ONE, FX_TWO), -FX_ONE);
    assert_eq!(fneg(FX_HALF), -FX_HALF);
}

#[test]
fn add_saturates_instead_of_overflowing() {
    assert_eq!(fadd(i64::MAX, 1), i64::MAX);
    assert_eq!(fsub(i64::MIN, 1), i64::MIN);
    assert_eq!(fneg(i64::MIN), i64::MAX);
}

#[test]
fn mul_truncates_toward_zero() {
    assert_eq!(fmul(FX_HALF, FX_HALF), 16384);
    assert_eq!(fmul(FX_TWO, 3 * FX_ONE), 6 * FX_ONE);
    // 0.5 * 0.7: 32768 * 45875 / 65536 = 22937.5 truncates to 22937.
    assert_eq!(fmul(FX_HALF, 45875), 22937);
    // The negative product truncates toward zero, not downward.
    assert_eq!(fmul(-FX_HALF, 45875), -22937);
    assert_eq!(fmul(0, 123456), 0);
}

#[test]
fn div_truncates_and_zero_divisor_yields_zero() {
    assert_eq!(fdiv(FX_ONE, FX_TWO), FX_HALF);
    assert_eq!(fdiv(3 * FX_ONE, FX_TWO), 98304);
    assert_eq!(fdiv(FX_ONE, 3 * FX_ONE), 21845);
    assert_eq!(fdiv(-FX_ONE, 3 * FX_ONE), -21845);
    assert_eq!(fdiv(FX_ONE, 0), 0);
}

#[test]
fn sqrt_exact_values() {
    assert_eq!(fsqrt(0), 0);
    assert_eq!(fsqrt(-FX_ONE), 0);
    assert_eq!(fsqrt(FX_ONE), FX_ONE);
    assert_eq!(fsqrt(4 * FX_ONE), 2 * FX_ONE);
    // sqrt(2) = 1.41421..., floor in fixed point.
    assert_eq!(fsqrt(2 * FX_ONE), 92681);
    assert_eq!(fsqrt(25 * FX_ONE), 5 * FX_ONE);
}
