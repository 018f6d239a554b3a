//! Exact-value tests for the saturating fixed-point operations.

use abstrct::fixed::{
    fx_add, fx_bilerp, fx_clamp01, fx_div, fx_isqrt, fx_max0, fx_mul, fx_muldiv, fx_neg, fx_sub,
    isqrt_u64, HALF, LIM, ONE, QUARTER,
};

#[test]
fn add_and_sub_are_exact_within_range() {
    assert_eq!(fx_add(3 * ONE, 4 * ONE), 7 * ONE);
    assert_eq!(fx_sub(3 * ONE, 4 * ONE), -ONE);
    assert_eq!(fx_neg(5 * ONE), -5 * ONE);
}

#[test]
fn add_saturates_at_the_limit() {
    assert_eq!(fx_add(LIM, LIM), LIM);
    assert_eq!(fx_sub(-LIM, LIM), -LIM);
    assert_eq!(fx_add(LIM, -LIM), 0);
}

#[test]
fn muldiv_truncates_toward_zero() {
    // 7 * 3 / 2 = 10.5 truncates to 10, and symmetrically for negatives.
    assert_eq!(fx_muldiv(7, 3, 2), 10);
    assert_eq!(fx_muldiv(-7, 3, 2), -10);
    assert_eq!(fx_muldiv(7, -3, 2), -10);
}

#[test]
fn mul_is_the_scaled_product() {
    assert_eq!(fx_mul(2 * ONE, 3 * ONE), 6 * ONE);
    assert_eq!(fx_mul(HALF, HALF), QUARTER);
    assert_eq!(fx_mul(-HALF, HALF), -QUARTER);
}

#[test]
fn div_is_guarded_against_zero() {
    assert_eq!(fx_div(5 * ONE, 2 * ONE), 2 * ONE + HALF);
    assert_eq!(fx_div(5 * ONE, 0), 0);
    assert_eq!(fx_div(-5 * ONE, 2 * ONE), -(2 * ONE + HALF));
    assert_eq!(fx_div(5 * ONE, -2 * ONE), -(2 * ONE + HALF));
}

#[test]
fn integer_square_root_is_exact() {
    assert_eq!(isqrt_u64(0), 0);
    assert_eq!(isqrt_u64(15), 3);
    assert_eq!(isqrt_u64(16), 4);
    assert_eq!(isqrt_u64(24), 4);
    assert_eq!(isqrt_u64(25), 5);
    assert_eq!(isqrt_u64(u64::MAX), 4294967295);
    assert_eq!(fx_isqrt(1 << 52), 1 << 26);
}

#[test]
fn bilinear_blend_midpoint_and_corners() {
    // Pure corners.
    assert_eq!(fx_bilerp(7, 8, 9, 10, 0, 0), 7);
    assert_eq!(fx_bilerp(7, 8, 9, 10, ONE, 0), 8);
    assert_eq!(fx_bilerp(7, 8, 9, 10, ONE, ONE), 9);
    assert_eq!(fx_bilerp(7, 8, 9, 10, 0, ONE), 10);
    // Midpoint of a checkerboard is one half.
    assert_eq!(fx_bilerp(0, ONE, ONE, 0, HALF, HALF), HALF);
}

#[test]
fn bilerp_stays_between_the_samples() {
    let samples = [0, ONE / 3, ONE, ONE / 7];
    let fracs = [0, 123, HALF, ONE - 1, ONE];
    for &tx in &fracs {
        for &ty in &fracs {
            let r = fx_bilerp(samples[0], samples[1], samples[2], samples[3], tx, ty);
            assert!(0 <= r && r <= ONE);
        }
    }
}

#[test]
fn clamps() {
    assert_eq!(fx_clamp01(-5), 0);
    assert_eq!(fx_clamp01(ONE + 5), ONE);
    assert_eq!(fx_clamp01(1234), 1234);
    assert_eq!(fx_max0(-3), 0);
    assert_eq!(fx_max0(3), 3);
}
