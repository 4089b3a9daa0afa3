//! Fixed-point arithmetic, hue conversion and diamond angle on
//! concrete values.

use mandelbrot::fixed::{fixed_mul, SCALE};
use mandelbrot::color::{hue_to_rgb, diamond_angle, Color};

#[test]
fn fixed_mul_one_times_one() {
    assert_eq!(fixed_mul(SCALE, SCALE), SCALE);
}

#[test]
fn fixed_mul_two_squared() {
    assert_eq!(fixed_mul(2 * SCALE, 2 * SCALE), 4 * SCALE);
}

#[test]
fn fixed_mul_mixed_signs() {
    // 1.5 * -2.0 == -3.0, exactly representable.
    assert_eq!(fixed_mul(3 * SCALE / 2, -2 * SCALE), -3 * SCALE);
    assert_eq!(fixed_mul(-3 * SCALE / 2, -2 * SCALE), 3 * SCALE);
}

#[test]
fn fixed_mul_truncates_toward_zero() {
    // The smallest positive steps square to less than one step, and the
    // result is truncated toward zero from both sides.
    assert_eq!(fixed_mul(1, 1), 0);
    assert_eq!(fixed_mul(-1, 1), 0);
    assert_eq!(fixed_mul(1, -1), 0);
}

#[test]
fn hue_primary_colors() {
    assert_eq!(hue_to_rgb(0, 1), Color { r: 255, g: 0, b: 0 });
    assert_eq!(hue_to_rgb(120, 1), Color { r: 0, g: 255, b: 0 });
    assert_eq!(hue_to_rgb(240, 1), Color { r: 0, g: 0, b: 255 });
}

#[test]
fn hue_sector_boundaries() {
    // 60 degrees is yellow, reached from either side.
    assert_eq!(hue_to_rgb(60, 1), Color { r: 255, g: 255, b: 0 });
    // 59/60 of the way through the last sector: q = 255 * 1 / 60 = 4.
    assert_eq!(hue_to_rgb(359, 1), Color { r: 255, g: 0, b: 4 });
}

#[test]
fn hue_fractional_denominator() {
    // hue = 360 * 49 / 50 degrees: sector 5, q = 255 * 360 / 3000 = 30.
    assert_eq!(hue_to_rgb(360 * 49, 50), Color { r: 255, g: 0, b: 30 });
}

#[test]
fn diamond_angle_axes() {
    let a = SCALE as u64;
    assert_eq!(diamond_angle(SCALE, 0), 0);
    assert_eq!(diamond_angle(0, SCALE), a);
    assert_eq!(diamond_angle(-SCALE, 0), 2 * a);
    assert_eq!(diamond_angle(0, -SCALE), 3 * a);
}

#[test]
fn diamond_angle_diagonal_and_origin() {
    let a = SCALE as u64;
    assert_eq!(diamond_angle(SCALE, SCALE), a / 2);
    assert_eq!(diamond_angle(0, 0), 0);
}
