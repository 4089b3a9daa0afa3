//! The escape-time evaluator: iterates `z * z + c` from `z = 0` and
//! reports how many steps the orbit took to leave the escape radius,
//! together with the final orbit value.
//!
//! The iteration count equals `max_iterations` exactly when no checked
//! orbit value left the radius within the budget (the interior case);
//! otherwise it is the exact step at which the radius was first exceeded.

use vstd::prelude::*;
use crate::fixed::{SCALE, fmul, iabs, fixed_mul, lemma_fmul_bound, lemma_fmul_square_nonneg};
use crate::plane::{ComplexSample, COORD_LIMIT};

verus! {

/// Magnitude bound that every orbit value respects: one squaring step from
/// inside the escape radius, plus the sample itself.
pub const ORBIT_LIMIT: i64 = 8 * SCALE + COORD_LIMIT;

/// The squared escape radius (radius 2) at the scale of `norm_sqr`.
pub open spec fn escape_threshold() -> int {
    4 * (SCALE as int) * (SCALE as int)
}

/// Squared magnitude of a fixed-point complex value, at scale `SCALE^2`.
pub open spec fn norm_sqr(re: int, im: int) -> int {
    re * re + im * im
}

/// One step of the recurrence `z * z + c` in fixed point.
pub open spec fn orbit_step(zr: int, zi: int, cr: int, ci: int) -> (int, int) {
    (fmul(zr, zr) - fmul(zi, zi) + cr, 2 * fmul(zr, zi) + ci)
}

/// The orbit of `c`: value of `z` after `n` steps from the origin.
pub open spec fn orbit_at(cr: int, ci: int, n: nat) -> (int, int)
    decreases n,
{
    if n == 0 {
        (0int, 0int)
    } else {
        let (zr, zi) = orbit_at(cr, ci, (n - 1) as nat);
        orbit_step(zr, zi, cr, ci)
    }
}

/// The evaluator's loop, as a function: starting at `z = (zr, zi)` after
/// `iters` steps, the final orbit value and the step count at exit.
pub open spec fn run_from(zr: int, zi: int, iters: nat, cr: int, ci: int, max: nat)
    -> (int, int, nat)
    decreases max - iters,
{
    if iters >= max || norm_sqr(zr, zi) > escape_threshold() {
        (zr, zi, iters)
    } else {
        let (nr, ni) = orbit_step(zr, zi, cr, ci);
        run_from(nr, ni, (iters + 1) as nat, cr, ci, max)
    }
}

/// What evaluating `c` under a budget of `max` iterations yields:
/// `(final re, final im, iteration count)`.
pub open spec fn escape_run(c: ComplexSample, max: u32) -> (int, int, nat) {
    run_from(0, 0, 0, c.re as int, c.im as int, max as nat)
}

/// The outcome of evaluating one sample.
#[derive(Clone, Copy, PartialEq, Eq, Structural, Debug)]
pub struct EscapeOutcome {
    pub iteration_count: u32,
    pub final_value: ComplexSample,
}

impl EscapeOutcome {
    /// The outcome is exactly what `escape_run` prescribes for `c`.
    pub open spec fn matches(self, c: ComplexSample, max: u32) -> bool {
        escape_run(c, max)
            == (self.final_value.re as int, self.final_value.im as int,
                self.iteration_count as nat)
    }
}

/// Squared magnitude, computed exactly in 128 bits.
fn norm_sqr_exec(zr: i64, zi: i64) -> (n: i128)
    requires
        iabs(zr as int) <= ORBIT_LIMIT,
        iabs(zi as int) <= ORBIT_LIMIT,
    ensures
        n as int == norm_sqr(zr as int, zi as int),
{
    let wr: i128 = zr as i128;
    let wi: i128 = zi as i128;
    proof {
        let b = ORBIT_LIMIT as int;
        assert(-b <= wr as int <= b && -b <= wi as int <= b);
        assert(b * b <= i128::MAX / 4) by (nonlinear_arith)
            requires b == 309237645312;
        assert(
            (wr as int) * (wr as int) <= b * b && 0 <= (wr as int) * (wr as int)
        ) by (nonlinear_arith)
            requires -b <= wr as int && wr as int <= b;
        assert(
            (wi as int) * (wi as int) <= b * b && 0 <= (wi as int) * (wi as int)
        ) by (nonlinear_arith)
            requires -b <= wi as int && wi as int <= b;
    }
    wr * wr + wi * wi
}

/// Inside the escape radius, both components stay within two units.
proof fn lemma_components_small(zr: int, zi: int)
    requires
        norm_sqr(zr, zi) <= escape_threshold(),
    ensures
        iabs(zr) <= 2 * (SCALE as int),
        iabs(zi) <= 2 * (SCALE as int),
{
    let s = SCALE as int;
    assert(-(2 * s) <= zr <= 2 * s && -(2 * s) <= zi <= 2 * s) by (nonlinear_arith)
        requires zr * zr + zi * zi <= 4 * s * s, s > 0;
}

/// One exec step of the recurrence, with the bounds it keeps.
fn step_exec(zr: i64, zi: i64, c: ComplexSample) -> (z: (i64, i64))
    requires
        norm_sqr(zr as int, zi as int) <= escape_threshold(),
        iabs(c.re as int) <= COORD_LIMIT,
        iabs(c.im as int) <= COORD_LIMIT,
    ensures
        (z.0 as int, z.1 as int) == orbit_step(zr as int, zi as int, c.re as int, c.im as int),
        iabs(z.0 as int) <= ORBIT_LIMIT,
        iabs(z.1 as int) <= ORBIT_LIMIT,
{
    proof {
        let s = SCALE as int;
        lemma_components_small(zr as int, zi as int);
        lemma_fmul_bound(zr as int, zr as int, 2 * s);
        lemma_fmul_bound(zi as int, zi as int, 2 * s);
        lemma_fmul_bound(zr as int, zi as int, 2 * s);
        vstd::arithmetic::div_mod::lemma_div_multiples_vanish(4 * s, s);
        assert((2 * s) * (2 * s) == s * (4 * s)) by (nonlinear_arith);
        lemma_fmul_square_nonneg(zr as int);
        lemma_fmul_square_nonneg(zi as int);
    }
    let rr: i64 = fixed_mul(zr, zr);
    let ii: i64 = fixed_mul(zi, zi);
    let ri: i64 = fixed_mul(zr, zi);
    (rr - ii + c.re, 2 * ri + c.im)
}

/// Runs the recurrence for `c` under the given iteration budget.
pub fn evaluate(c: ComplexSample, max_iterations: u32) -> (o: EscapeOutcome)
    requires
        iabs(c.re as int) <= COORD_LIMIT,
        iabs(c.im as int) <= COORD_LIMIT,
    ensures
        o.matches(c, max_iterations),
        o.iteration_count <= max_iterations,
        iabs(o.final_value.re as int) <= ORBIT_LIMIT,
        iabs(o.final_value.im as int) <= ORBIT_LIMIT,
{
    let mut zr: i64 = 0;
    let mut zi: i64 = 0;
    let mut iters: u32 = 0;
    let threshold: i128 = 4 * (SCALE as i128) * (SCALE as i128);
    loop
        invariant
            iters <= max_iterations,
            iabs(zr as int) <= ORBIT_LIMIT,
            iabs(zi as int) <= ORBIT_LIMIT,
            iabs(c.re as int) <= COORD_LIMIT,
            iabs(c.im as int) <= COORD_LIMIT,
            threshold as int == escape_threshold(),
            run_from(zr as int, zi as int, iters as nat,
                c.re as int, c.im as int, max_iterations as nat)
                == escape_run(c, max_iterations),
        ensures
            iters <= max_iterations,
            iabs(zr as int) <= ORBIT_LIMIT,
            iabs(zi as int) <= ORBIT_LIMIT,
            iters >= max_iterations
                || norm_sqr(zr as int, zi as int) > escape_threshold(),
            run_from(zr as int, zi as int, iters as nat,
                c.re as int, c.im as int, max_iterations as nat)
                == escape_run(c, max_iterations),
        decreases max_iterations - iters,
    {
        let n = norm_sqr_exec(zr, zi);
        if !(n <= threshold && iters < max_iterations) {
            break;
        }
        let z = step_exec(zr, zi, c);
        zr = z.0;
        zi = z.1;
        iters = iters + 1;
    }
    EscapeOutcome { iteration_count: iters, final_value: ComplexSample { re: zr, im: zi } }
}

/// Whether the orbit of `(cr, ci)` is still inside the escape radius
/// after `j` steps.
pub open spec fn orbit_inside(cr: int, ci: int, j: nat) -> bool {
    norm_sqr(orbit_at(cr, ci, j).0, orbit_at(cr, ci, j).1) <= escape_threshold()
}

/// What the iteration count means: it never exceeds the budget; the
/// final value is the orbit at the count; every earlier checked orbit
/// value was still inside the escape radius; and a count short of the
/// budget is the exact step at which the radius was first exceeded.
/// So the count equals the budget exactly when no checked orbit value
/// escaped within it.
pub proof fn lemma_escape_count_exact(c: ComplexSample, max: u32)
    ensures
        ({
            let r = escape_run(c, max);
            &&& r.2 <= max
            &&& (r.0, r.1) == orbit_at(c.re as int, c.im as int, r.2)
            &&& forall|j: nat| j < r.2 ==> orbit_inside(c.re as int, c.im as int, j)
            &&& r.2 < max ==> !orbit_inside(c.re as int, c.im as int, r.2)
        }),
{
    lemma_run_from_tracks_orbit(0, 0, 0, c.re as int, c.im as int, max as nat);
}

/// Helper induction: the loop, started anywhere on the orbit with a
/// clean history, exits on the orbit with a clean history.
proof fn lemma_run_from_tracks_orbit(zr: int, zi: int, iters: nat, cr: int, ci: int, max: nat)
    requires
        iters <= max,
        (zr, zi) == orbit_at(cr, ci, iters),
        forall|j: nat| j < iters ==> orbit_inside(cr, ci, j),
    ensures
        ({
            let r = run_from(zr, zi, iters, cr, ci, max);
            &&& iters <= r.2 <= max
            &&& (r.0, r.1) == orbit_at(cr, ci, r.2)
            &&& forall|j: nat| j < r.2 ==> orbit_inside(cr, ci, j)
            &&& r.2 < max ==> !orbit_inside(cr, ci, r.2)
        }),
    decreases max - iters,
{
    if iters >= max || norm_sqr(zr, zi) > escape_threshold() {
    } else {
        let (nr, ni) = orbit_step(zr, zi, cr, ci);
        assert(orbit_at(cr, ci, iters + 1) == (nr, ni));
        assert(orbit_inside(cr, ci, iters));
        lemma_run_from_tracks_orbit(nr, ni, iters + 1, cr, ci, max);
    }
}

/// The origin is a fixed point of the recurrence: its orbit never moves,
/// so it never escapes and the evaluator spends the whole budget.
pub proof fn lemma_origin_never_escapes(max: u32)
    ensures
        escape_run(ComplexSample { re: 0, im: 0 }, max) == (0int, 0int, max as nat),
{
    lemma_run_zero(0, max as nat);
}

/// Helper induction for `lemma_origin_never_escapes`.
proof fn lemma_run_zero(iters: nat, max: nat)
    requires
        iters <= max,
    ensures
        run_from(0, 0, iters, 0, 0, max) == (0int, 0int, max),
    decreases max - iters,
{
    if iters < max {
        assert(fmul(0, 0) == 0);
        lemma_run_zero(iters + 1, max);
    }
}

/// A sample already outside the escape radius still passes through one
/// step — the first squaring maps the origin onto `c` itself — and the
/// radius check then stops the orbit at count one.
pub proof fn lemma_immediate_escape(c: ComplexSample, max: u32)
    requires
        norm_sqr(c.re as int, c.im as int) > escape_threshold(),
        max >= 1,
    ensures
        escape_run(c, max) == (c.re as int, c.im as int, 1nat),
{
    let cr = c.re as int;
    let ci = c.im as int;
    assert(fmul(0, 0) == 0);
    assert(orbit_step(0, 0, cr, ci) == (cr, ci));
    assert(run_from(cr, ci, 1, cr, ci, max as nat) == (cr, ci, 1nat));
}

} // verus!
