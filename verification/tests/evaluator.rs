//! The escape evaluator on the points whose behavior the design pins
//! down: the origin, points outside the radius, and the exact boundary.

use mandelbrot::fixed::SCALE;
use mandelbrot::plane::ComplexSample;
use mandelbrot::escape::evaluate;

#[test]
fn origin_never_escapes() {
    let o = evaluate(ComplexSample { re: 0, im: 0 }, 50);
    assert_eq!(o.iteration_count, 50);
    assert_eq!(o.final_value.re, 0);
    assert_eq!(o.final_value.im, 0);
}

#[test]
fn origin_never_escapes_large_budget() {
    let o = evaluate(ComplexSample { re: 0, im: 0 }, 1000);
    assert_eq!(o.iteration_count, 1000);
}

#[test]
fn far_point_escapes_after_one_step() {
    // |c| = 3 > 2: the first step moves z from the origin onto c, and the
    // radius check then stops the orbit — the counter reads 1, not 0.
    let o = evaluate(ComplexSample { re: 3 * SCALE, im: 0 }, 50);
    assert_eq!(o.iteration_count, 1);
    assert_eq!(o.final_value.re, 3 * SCALE);
    assert_eq!(o.final_value.im, 0);
}

#[test]
fn boundary_point_takes_two_steps() {
    // |c| = 2 exactly: the check uses <=, so z = c survives one more
    // round; z then moves to 4 + 2 = 6 and escapes at count 2.
    let o = evaluate(ComplexSample { re: 2 * SCALE, im: 0 }, 50);
    assert_eq!(o.iteration_count, 2);
    assert_eq!(o.final_value.re, 6 * SCALE);
    assert_eq!(o.final_value.im, 0);
}

#[test]
fn zero_budget_means_zero_iterations() {
    let o = evaluate(ComplexSample { re: 3 * SCALE, im: 0 }, 0);
    assert_eq!(o.iteration_count, 0);
    assert_eq!(o.final_value.re, 0);
    assert_eq!(o.final_value.im, 0);
}

#[test]
fn known_interior_point_exhausts_budget() {
    // c = -0.5 lies inside the set: the orbit stays near the fixed point
    // of z^2 - 0.5 and never leaves the radius.
    let o = evaluate(ComplexSample { re: -SCALE / 2, im: 0 }, 1000);
    assert_eq!(o.iteration_count, 1000);
}
