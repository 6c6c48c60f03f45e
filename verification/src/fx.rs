//! Fixed-point arithmetic: the numeric core of the optimizer.
//!
//! A real quantity x is represented by a signed 64-bit integer holding
//! x * `FX_ONE`, i.e. with 16 fractional bits. Addition, subtraction and
//! multiplication saturate at the `i64` range instead of wrapping, so every
//! operation is total and the optimizer never panics on extreme values.
//! The activation function is the algebraic sigmoid
//! x ↦ 1/2 + x / (2 * (1 + |x|)): like the logistic curve it maps 0 to
//! exactly one half and every input strictly inside (0, 1).

use vstd::arithmetic::div_mod::{
    lemma_div_denominator, lemma_div_is_ordered, lemma_div_multiples_vanish,
    lemma_div_nonincreasing, lemma_div_pos_is_pos, lemma_multiply_divide_lt,
};
use vstd::prelude::*;

verus! {

/// One, in fixed-point units: values carry 16 fractional bits.
pub const FX_ONE: i64 = 65536;

/// One half, in fixed-point units.
pub const FX_HALF: i64 = 32768;

/// Saturation of a mathematical integer into the `i64` range.
pub open spec fn clamp64(x: int) -> i64 {
    if x > i64::MAX as int {
        i64::MAX
    } else if x < i64::MIN as int {
        i64::MIN
    } else {
        x as i64
    }
}

/// Division truncating toward zero (the division of machine integers),
/// for a positive divisor.
pub open spec fn tdiv(a: int, b: int) -> int
    recommends
        0 < b,
{
    if a >= 0 {
        a / b
    } else {
        -((-a) / b)
    }
}

/// Saturating fixed-point addition.
pub open spec fn fx_add(a: i64, b: i64) -> i64 {
    clamp64(a + b)
}

/// Saturating fixed-point subtraction.
pub open spec fn fx_sub(a: i64, b: i64) -> i64 {
    clamp64(a - b)
}

/// Saturating fixed-point multiplication: the full product, rescaled by
/// `FX_ONE` with truncation toward zero.
pub open spec fn fx_mul(a: i64, b: i64) -> i64 {
    clamp64(tdiv(a * b, FX_ONE as int))
}

/// The algebraic sigmoid in fixed-point units:
/// `FX_HALF + x * FX_HALF / (FX_ONE + |x|)`, with truncating division.
pub open spec fn sigmoid(x: i64) -> i64 {
    if x >= 0 {
        (FX_HALF + (x * FX_HALF) / (FX_ONE + x)) as i64
    } else {
        (FX_HALF - ((-(x as int)) * FX_HALF) / (FX_ONE - x)) as i64
    }
}

/// The product of two values of the `i64` range stays strictly inside the
/// `i128` range.
proof fn lemma_i64_product_fits(a: int, b: int)
    by (nonlinear_arith)
    requires
        i64::MIN <= a <= i64::MAX,
        i64::MIN <= b <= i64::MAX,
    ensures
        i128::MIN < a * b < i128::MAX,
{
}

/// The quotient inside `sigmoid` lies in `[0, FX_HALF)` for every
/// non-negative magnitude `m`.
proof fn lemma_sigmoid_quotient(m: int)
    requires
        0 <= m,
    ensures
        0 <= (m * FX_HALF) / (FX_ONE + m) < FX_HALF,
{
    assert(m * FX_HALF < (FX_ONE + m) * FX_HALF) by (nonlinear_arith)
        requires
            0 <= m,
    ;
    lemma_multiply_divide_lt(m * FX_HALF, FX_ONE + m, FX_HALF as int);
    lemma_div_pos_is_pos(m * FX_HALF, FX_ONE + m);
}

/// The activation is strictly inside (0, 1), and 0 maps to exactly one half.
pub proof fn lemma_sigmoid_range(x: i64)
    ensures
        0 < sigmoid(x) < FX_ONE,
        sigmoid(0) == FX_HALF,
{
    lemma_sigmoid_quotient(0);
    if x >= 0 {
        lemma_sigmoid_quotient(x as int);
    } else {
        lemma_sigmoid_quotient(-(x as int));
    }
}

/// Saturation into the `i64` range.
fn clamp_to_i64(x: i128) -> (r: i64)
    ensures
        r == clamp64(x as int),
{
    if x > i64::MAX as i128 {
        i64::MAX
    } else if x < i64::MIN as i128 {
        i64::MIN
    } else {
        x as i64
    }
}

/// Division by `FX_ONE`, truncating toward zero.
fn tdiv_fx(p: i128) -> (r: i128)
    requires
        i128::MIN < p,
    ensures
        r as int == tdiv(p as int, FX_ONE as int),
{
    if p >= 0 {
        ((p as u128) / (FX_ONE as u128)) as i128
    } else {
        let m: u128 = (-p) as u128;
        proof {
            lemma_div_nonincreasing(m as int, FX_ONE as int);
        }
        -((m / (FX_ONE as u128)) as i128)
    }
}

/// Saturating fixed-point addition.
pub fn add_fx(a: i64, b: i64) -> (r: i64)
    ensures
        r == fx_add(a, b),
{
    clamp_to_i64((a as i128) + (b as i128))
}

/// Saturating fixed-point subtraction.
pub fn sub_fx(a: i64, b: i64) -> (r: i64)
    ensures
        r == fx_sub(a, b),
{
    clamp_to_i64((a as i128) - (b as i128))
}

/// Saturating fixed-point multiplication.
pub fn mul_fx(a: i64, b: i64) -> (r: i64)
    ensures
        r == fx_mul(a, b),
{
    proof {
        lemma_i64_product_fits(a as int, b as int);
    }
    let p: i128 = (a as i128) * (b as i128);
    let q: i128 = tdiv_fx(p);
    clamp_to_i64(q)
}

/// The fixed-point activation function.
pub fn sigmoid_fx(x: i64) -> (r: i64)
    ensures
        r == sigmoid(x),
        0 < r < FX_ONE,
{
    proof {
        lemma_sigmoid_range(x);
    }
    if x >= 0 {
        let n: u128 = (x as u128) * (FX_HALF as u128);
        let d: u128 = (FX_ONE as u128) + (x as u128);
        let q: u128 = n / d;
        proof {
            lemma_sigmoid_quotient(x as int);
        }
        FX_HALF + (q as i64)
    } else {
        let m: u128 = (-(x as i128)) as u128;
        let n: u128 = m * (FX_HALF as u128);
        let d: u128 = (FX_ONE as u128) + m;
        let q: u128 = n / d;
        proof {
            lemma_sigmoid_quotient(m as int);
        }
        FX_HALF - (q as i64)
    }
}

/// A square never rescales to a negative value.
pub proof fn lemma_square_nonneg(d: i64)
    ensures
        0 <= fx_mul(d, d),
{
    assert(0 <= d * d) by (nonlinear_arith);
    lemma_div_pos_is_pos(d * d, FX_ONE as int);
}

/// Saturating addition moves the value toward the addend by at most the
/// addend itself.
pub proof fn lemma_add_shift(w: i64, d: i64)
    ensures
        d >= 0 ==> w <= fx_add(w, d) && fx_add(w, d) - w <= d,
        d < 0 ==> fx_add(w, d) <= w && w - fx_add(w, d) <= -(d as int),
{
}

/// Relies on `rand::random::<u16>`: a sample of the uniform distribution on
/// the 16-bit range, read here as a fixed-point value drawn from [0, 1).
#[verifier::external_body]
pub(crate) fn random_unit() -> (r: i64)
    ensures
        0 <= r < FX_ONE,
{
    rand::random::<u16>() as i64
}

/// A random perturbation drawn uniformly from [-rate/2, rate/2]: the
/// centered unit sample, scaled by the rate.
pub(crate) fn mutation_delta(rate: i64) -> (d: i64)
    requires
        0 <= rate,
    ensures
        -(rate / 2) <= d <= rate / 2,
        rate == 0 ==> d == 0,
{
    let u: i64 = random_unit();
    let c: i128 = (u - FX_HALF) as i128;
    proof {
        lemma_i64_product_fits(c as int, rate as int);
    }
    let p: i128 = c * (rate as i128);
    proof {
        lemma_div_pos_is_pos(rate as int, 2);
        assert(-(FX_HALF as int) * rate <= p <= FX_HALF as int * rate) by (nonlinear_arith)
            requires
                p == c * rate,
                -(FX_HALF as int) <= c <= FX_HALF as int,
                0 <= rate,
        ;
        lemma_half_rate_bound(rate as int);
    }
    let d128: i128 = tdiv_fx(p);
    proof {
        if p >= 0 {
            lemma_div_is_ordered(p as int, FX_HALF as int * rate, FX_ONE as int);
        } else {
            lemma_div_is_ordered(-(p as int), FX_HALF as int * rate, FX_ONE as int);
        }
    }
    d128 as i64
}

/// Rescaling a half-unit multiple of the rate gives exactly half the rate:
/// `(FX_HALF * rate) / FX_ONE == rate / 2`.
proof fn lemma_half_rate_bound(rate: int)
    requires
        0 <= rate,
    ensures
        (FX_HALF as int * rate) / (FX_ONE as int) == rate / 2,
{
    lemma_div_multiples_vanish(rate, FX_HALF as int);
    lemma_div_denominator(FX_HALF as int * rate, FX_HALF as int, 2);
    assert(FX_HALF as int * rate == rate * FX_HALF as int) by (nonlinear_arith);
}

} // verus!
