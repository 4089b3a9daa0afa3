//! Fixed-point arithmetic for sampling the complex plane.
//!
//! A coordinate is an `i64` holding `value * SCALE`, so one unit of the
//! plane is `SCALE` steps. Products are rescaled by `SCALE` and rounded
//! toward zero, which keeps every operation an exact function of its
//! integer inputs.

use vstd::prelude::*;
use vstd::arithmetic::div_mod::lemma_div_is_ordered;

verus! {

/// Number of fixed-point steps per unit of the complex plane.
pub const SCALE: i64 = 0x1_0000_0000;

/// Magnitude of an integer.
pub open spec fn iabs(a: int) -> int {
    if a >= 0 { a } else { -a }
}

/// Division by a positive divisor, rounded toward zero.
pub open spec fn tdiv(a: int, d: int) -> int {
    if a >= 0 { a / d } else { -((-a) / d) }
}

/// The fixed-point product: the integer product rescaled by `SCALE`,
/// rounded toward zero.
pub open spec fn fmul(a: int, b: int) -> int {
    tdiv(a * b, SCALE as int)
}

/// Magnitude of an `i64`, exact also at `i64::MIN`.
fn abs_u128(a: i64) -> (r: u128)
    ensures
        r as int == iabs(a as int),
{
    if a >= 0 {
        a as u128
    } else {
        (-(a as i128)) as u128
    }
}

/// Rounding toward zero commutes with taking magnitudes.
proof fn lemma_tdiv_abs(a: int, d: int)
    requires
        d > 0,
    ensures
        iabs(tdiv(a, d)) == iabs(a) / d,
        tdiv(a, d) == if a >= 0 { iabs(a) / d } else { -(iabs(a) / d) },
{
    if a >= 0 {
        assert(iabs(a) == a);
        vstd::arithmetic::div_mod::lemma_div_is_ordered(0, a, d);
    } else {
        assert(iabs(a) == -a);
        vstd::arithmetic::div_mod::lemma_div_is_ordered(0, -a, d);
    }
}

/// The magnitude of a product is the product of the magnitudes.
proof fn lemma_mul_abs(a: int, b: int)
    ensures
        iabs(a * b) == iabs(a) * iabs(b),
        a >= 0 && b >= 0 || a <= 0 && b <= 0 ==> a * b >= 0,
        a >= 0 && b <= 0 || a <= 0 && b >= 0 ==> a * b <= 0,
{
    if a >= 0 && b >= 0 {
        assert(a * b >= 0 && a * b == iabs(a) * iabs(b)) by (nonlinear_arith)
            requires a >= 0 && b >= 0 && iabs(a) == a && iabs(b) == b;
    } else if a >= 0 && b < 0 {
        assert(a * b <= 0 && -(a * b) == iabs(a) * iabs(b)) by (nonlinear_arith)
            requires a >= 0 && b < 0 && iabs(a) == a && iabs(b) == -b;
    } else if a < 0 && b >= 0 {
        assert(a * b <= 0 && -(a * b) == iabs(a) * iabs(b)) by (nonlinear_arith)
            requires a < 0 && b >= 0 && iabs(a) == -a && iabs(b) == b;
    } else {
        assert(a * b > 0 && a * b == iabs(a) * iabs(b)) by (nonlinear_arith)
            requires a < 0 && b < 0 && iabs(a) == -a && iabs(b) == -b;
    }
}

/// Fixed-point multiplication, exact per `fmul`.
pub fn fixed_mul(a: i64, b: i64) -> (r: i64)
    requires
        i64::MIN <= fmul(a as int, b as int) <= i64::MAX,
    ensures
        r as int == fmul(a as int, b as int),
{
    let ghost ia: int = a as int;
    let ghost ib: int = b as int;
    let neg: bool = (a < 0) != (b < 0);
    let ma: u128 = abs_u128(a);
    let mb: u128 = abs_u128(b);
    proof {
        lemma_mul_abs(ia, ib);
        assert(ma * mb == iabs(ia * ib)) by (nonlinear_arith)
            requires ma == iabs(ia), mb == iabs(ib), iabs(ia * ib) == iabs(ia) * iabs(ib);
        lemma_tdiv_abs(ia * ib, SCALE as int);
    }
    let m: u128 = (ma * mb) / (SCALE as u128);
    if neg {
        (-(m as i128)) as i64
    } else {
        m as i64
    }
}

/// The fixed-point square of any value is nonnegative.
pub proof fn lemma_fmul_square_nonneg(a: int)
    ensures
        fmul(a, a) >= 0,
{
    assert(a * a >= 0) by (nonlinear_arith);
    lemma_div_is_ordered(0, a * a, SCALE as int);
}

/// A magnitude bound on both factors bounds the fixed-point product.
pub proof fn lemma_fmul_bound(a: int, b: int, bound: int)
    requires
        iabs(a) <= bound,
        iabs(b) <= bound,
    ensures
        iabs(fmul(a, b)) <= (bound * bound) / (SCALE as int),
{
    lemma_mul_abs(a, b);
    lemma_tdiv_abs(a * b, SCALE as int);
    assert(iabs(a) * iabs(b) <= bound * bound) by (nonlinear_arith)
        requires 0 <= iabs(a) <= bound, 0 <= iabs(b) <= bound;
    lemma_div_is_ordered(iabs(a * b), bound * bound, SCALE as int);
}

} // verus!
