//! Coloring of escape outcomes.
//!
//! A hue is a rational number of degrees `num / den` in `[0, 360)`. With
//! full saturation and value, the standard six-sector conversion collapses
//! to: primary channel 255, secondary channel the fractional position
//! within the 60-degree sector, remaining channel 0.
//!
//! An escaped point takes its hue from the fraction of the iteration
//! budget it used. An interior point takes its hue from the direction of
//! its final orbit value, measured by the diamond angle: a piecewise
//! rational, monotone stand-in for the arctangent that runs once around
//! the circle, offset by half a turn so the hue circle starts opposite
//! the positive real axis.

use vstd::prelude::*;
use vstd::arithmetic::div_mod::{lemma_div_is_ordered, lemma_div_multiples_vanish, lemma_mod_bound};
use crate::fixed::{SCALE, iabs};
use crate::escape::{EscapeOutcome, ORBIT_LIMIT};

verus! {

/// An RGB color, one byte per channel.
#[derive(Clone, Copy, PartialEq, Eq, Structural, Debug)]
pub struct Color {
    pub r: u8,
    pub g: u8,
    pub b: u8,
}

impl Color {
    /// Builds a color from its three channels.
    pub fn new(r: u8, g: u8, b: u8) -> (c: Color)
        ensures
            c == (Color { r, g, b }),
    {
        Color { r, g, b }
    }
}

/// The six-sector hue conversion at full saturation and value, for the
/// hue `num / den` degrees. `t` rises through a sector, `q` falls.
pub open spec fn hue_to_rgb_spec(num: int, den: int) -> Color {
    let sector = num / (60 * den);
    let fnum = num % (60 * den);
    let t = ((255 * fnum) / (60 * den)) as u8;
    let q = ((255 * (60 * den - fnum)) / (60 * den)) as u8;
    if sector == 0 {
        Color { r: 255, g: t, b: 0 }
    } else if sector == 1 {
        Color { r: q, g: 255, b: 0 }
    } else if sector == 2 {
        Color { r: 0, g: 255, b: t }
    } else if sector == 3 {
        Color { r: 0, g: q, b: 255 }
    } else if sector == 4 {
        Color { r: t, g: 0, b: 255 }
    } else {
        Color { r: 255, g: 0, b: q }
    }
}

/// Converts the hue `num / den` degrees to RGB at full saturation and
/// value, exactly as `hue_to_rgb_spec` prescribes.
pub fn hue_to_rgb(num: u64, den: u64) -> (c: Color)
    requires
        1 <= den <= 0x1_0000_0000,
        num < 360 * den,
    ensures
        c == hue_to_rgb_spec(num as int, den as int),
{
    let sd: u64 = 60 * den;
    let sector: u64 = num / sd;
    let fnum: u64 = num % sd;
    proof {
        lemma_mod_bound(num as int, sd as int);
        lemma_div_is_ordered(255 * (fnum as int), 255 * (sd as int), sd as int);
        lemma_div_is_ordered(255 * (sd - fnum as int), 255 * (sd as int), sd as int);
        lemma_div_multiples_vanish(255, sd as int);
        assert((sd as int) * 255 == 255 * (sd as int));
    }
    let t: u8 = ((255 * fnum) / sd) as u8;
    let q: u8 = ((255 * (sd - fnum)) / sd) as u8;
    if sector == 0 {
        Color { r: 255, g: t, b: 0 }
    } else if sector == 1 {
        Color { r: q, g: 255, b: 0 }
    } else if sector == 2 {
        Color { r: 0, g: 255, b: t }
    } else if sector == 3 {
        Color { r: 0, g: q, b: 255 }
    } else if sector == 4 {
        Color { r: t, g: 0, b: 255 }
    } else {
        Color { r: 255, g: 0, b: q }
    }
}

/// The diamond angle of `(re, im)`: `0` at the positive real axis, rising
/// counterclockwise by `SCALE` per quadrant, so the full turn is
/// `4 * SCALE`. The origin gets angle `0`.
pub open spec fn diamond(re: int, im: int) -> int {
    let a = SCALE as int;
    if re == 0 && im == 0 {
        0
    } else if im >= 0 && re >= 0 {
        (im * a) / (re + im)
    } else if im >= 0 {
        a + ((-re) * a) / ((-re) + im)
    } else if re < 0 {
        2 * a + ((-im) * a) / ((-re) + (-im))
    } else {
        3 * a + (re * a) / (re + (-im))
    }
}

/// The hue numerator (over denominator `SCALE`) of an interior point:
/// its diamond angle, offset by half a turn, spread over 360 degrees.
pub open spec fn interior_hue_num(re: int, im: int) -> int {
    ((diamond(re, im) + 2 * (SCALE as int)) % (4 * (SCALE as int))) * 90
}

/// One quadrant's fraction: `(num * SCALE) / den`, at most `SCALE`, and
/// strictly below `SCALE` when `num < den`.
fn quadrant_frac(num: u64, den: u64) -> (f: u64)
    requires
        0 < den <= 0x200_0000_0000u64,
        num <= den,
    ensures
        f as int == ((num as int) * (SCALE as int)) / (den as int),
        f <= SCALE as u64,
        num < den ==> f < SCALE as u64,
{
    proof {
        let n = num as int;
        let d = den as int;
        let s = SCALE as int;
        lemma_div_is_ordered(n * s, d * s, d);
        lemma_div_multiples_vanish(s, d);
        vstd::arithmetic::mul::lemma_mul_nonnegative(n, s);
        if n < d {
            vstd::arithmetic::mul::lemma_mul_inequality(n, d - 1, s);
            assert((d - 1) * s == d * s - s) by (nonlinear_arith);
            assert((n * s) / d < s) by {
                vstd::arithmetic::div_mod::lemma_fundamental_div_mod(n * s, d);
                lemma_mod_bound(n * s, d);
                if (n * s) / d >= s {
                    vstd::arithmetic::mul::lemma_mul_inequality(s, (n * s) / d, d);
                    assert(false);
                }
            }
        }
    }
    (((num as u128) * (SCALE as u128)) / (den as u128)) as u64
}

/// Computes the diamond angle of a bounded fixed-point value.
pub fn diamond_angle(re: i64, im: i64) -> (d: u64)
    requires
        iabs(re as int) <= ORBIT_LIMIT,
        iabs(im as int) <= ORBIT_LIMIT,
    ensures
        d as int == diamond(re as int, im as int),
        d < 4 * (SCALE as u64),
{
    let a: u64 = SCALE as u64;
    if re == 0 && im == 0 {
        0
    } else if im >= 0 && re >= 0 {
        quadrant_frac(im as u64, (re + im) as u64)
    } else if im >= 0 {
        a + quadrant_frac((-re) as u64, ((-re) + im) as u64)
    } else if re < 0 {
        2 * a + quadrant_frac((-im) as u64, ((-re) + (-im)) as u64)
    } else {
        3 * a + quadrant_frac(re as u64, (re + (-im)) as u64)
    }
}

/// An escaped outcome is colored by the share of the budget it used; an
/// interior outcome by the direction of its final orbit value.
pub open spec fn colorize_spec(o: EscapeOutcome, max_iterations: u32) -> Color {
    if o.iteration_count < max_iterations {
        hue_to_rgb_spec(360 * (o.iteration_count as int), max_iterations as int)
    } else {
        hue_to_rgb_spec(
            interior_hue_num(o.final_value.re as int, o.final_value.im as int),
            SCALE as int)
    }
}

/// Turns an escape outcome into its color, exactly per `colorize_spec`.
pub fn colorize(o: EscapeOutcome, max_iterations: u32) -> (c: Color)
    requires
        o.iteration_count <= max_iterations,
        iabs(o.final_value.re as int) <= ORBIT_LIMIT,
        iabs(o.final_value.im as int) <= ORBIT_LIMIT,
    ensures
        c == colorize_spec(o, max_iterations),
{
    if o.iteration_count < max_iterations {
        hue_to_rgb(360 * (o.iteration_count as u64), max_iterations as u64)
    } else {
        let d: u64 = diamond_angle(o.final_value.re, o.final_value.im);
        let a: u64 = SCALE as u64;
        let num: u64 = ((d + 2 * a) % (4 * a)) * 90;
        proof {
            lemma_mod_bound((d + 2 * a) as int, (4 * a) as int);
        }
        hue_to_rgb(num, a)
    }
}

} // verus!
