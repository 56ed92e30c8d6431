//! Full-precision fixed-point helpers shared by V2 and V3 math.
//!
//! `mul_div` / `mul_div_rounding_up` evaluate `a * b / denom` through a 512-bit intermediate,
//! so the product never overflows before the division. Rounding is explicit: floor vs ceil.
use vstd::prelude::*;

use crate::error::QuoteError;
use crate::uint::{
    U256, U512, lemma_u256_bound, lemma_u512_bound, limbs8_value, p256, p512, u512_div, u512_mul,
    u512_rem,
};

verus! {

broadcast use {lemma_u256_bound, lemma_u512_bound};

/// The numeric view of a fallible 256-bit result.
pub open spec fn lift(r: Result<U256, QuoteError>) -> Result<nat, QuoteError> {
    match r {
        Ok(v) => Ok(v@),
        Err(e) => Err(e),
    }
}

/// `ceil(n / d)` for `d > 0`.
pub open spec fn ceil_div(n: nat, d: nat) -> nat {
    ((n + d - 1) as nat) / d
}

/// What `mul_div(a, b, d)` returns: `floor(a * b / d)` when `d > 0` and it fits in 256 bits.
pub open spec fn mul_div_spec(a: nat, b: nat, d: nat) -> Result<nat, QuoteError> {
    if d == 0 {
        Err(QuoteError::DivisionByZero)
    } else if a * b / d >= p256() {
        Err(QuoteError::Overflow)
    } else {
        Ok(a * b / d)
    }
}

/// What `mul_div_rounding_up(a, b, d)` returns: `ceil(a * b / d)` when `d > 0` and it fits in
/// 256 bits.
pub open spec fn mul_div_up_spec(a: nat, b: nat, d: nat) -> Result<nat, QuoteError> {
    if d == 0 {
        Err(QuoteError::DivisionByZero)
    } else if ceil_div(a * b, d) >= p256() {
        Err(QuoteError::Overflow)
    } else {
        Ok(ceil_div(a * b, d))
    }
}

/// The product of two numbers below `m` is below `m * m`.
pub proof fn lemma_mul_below(a: nat, b: nat, m: nat)
    requires
        a < m,
        b < m,
    ensures
        a * b < m * m,
{
    assert(a * b < m * m) by (nonlinear_arith)
        requires
            a < m,
            b < m,
    ;
}

/// `ceil(n / d)` is `floor(n / d)`, plus one exactly when `d` does not divide `n`.
pub proof fn lemma_ceil_div(n: nat, d: nat)
    requires
        d > 0,
    ensures
        ceil_div(n, d) == n / d + (if n % d == 0 {
            0nat
        } else {
            1nat
        }),
        ceil_div(n, d) * d >= n,
        n / d * d <= n,
{
    let q = n / d;
    let r = n % d;
    assert(n == q * d + r && r < d) by (nonlinear_arith)
        requires
            d > 0,
            q == n / d,
            r == n % d,
    ;
    if r == 0 {
        assert(((q * d + d - 1) as nat) / d == q) by (nonlinear_arith)
            requires
                d > 0,
        ;
    } else {
        assert(((q * d + r + d - 1) as nat) / d == q + 1) by (nonlinear_arith)
            requires
                d > 0,
                0 < r < d,
        ;
    }
    assert(ceil_div(n, d) * d >= n) by (nonlinear_arith)
        requires
            d > 0,
            n == q * d + r,
            r < d,
            ceil_div(n, d) == q + (if r == 0 {
                0nat
            } else {
                1nat
            }),
    ;
}

fn widen(value: U256) -> (r: U512)
    ensures
        r@ == value@,
{
    let l = value.into_limbs();
    U512::from_limbs([l[0], l[1], l[2], l[3], 0, 0, 0, 0])
}

fn narrow(value: U512) -> (r: Result<U256, QuoteError>)
    ensures
        value@ < p256() ==> (r matches Ok(v) && v@ == value@),
        value@ >= p256() ==> r == Err::<U256, QuoteError>(QuoteError::Overflow),
{
    let l = value.into_limbs();
    let (l4, l5, l6, l7) = (l[4], l[5], l[6], l[7]);
    assert((l4 | l5 | l6 | l7) == 0 <==> (l4 == 0 && l5 == 0 && l6 == 0 && l7 == 0))
        by (bit_vector);
    assert(limbs8_value(l) == l[0] as nat + l[1] as nat * 18446744073709551616nat + l[2] as nat
        * 340282366920938463463374607431768211456nat + l[3] as nat
        * 6277101735386680763835789423207666416102355444464034512896nat + (l4 as nat + l5 as nat
        * 18446744073709551616nat + l6 as nat * 340282366920938463463374607431768211456nat
        + l7 as nat * 6277101735386680763835789423207666416102355444464034512896nat) * p256());
    if (l4 | l5 | l6 | l7) != 0 {
        return Err(QuoteError::Overflow);
    }
    Ok(U256::from_limbs([l[0], l[1], l[2], l[3]]))
}

/// Returns `floor(a * b / denom)`.
///
/// # Errors
/// [`QuoteError::DivisionByZero`] if `denom` is zero; [`QuoteError::Overflow`] if the exact
/// quotient does not fit in 256 bits.
pub fn mul_div(a: U256, b: U256, denom: U256) -> (r: Result<U256, QuoteError>)
    ensures
        lift(r) == mul_div_spec(a@, b@, denom@),
        denom@ == 0 ==> r == Err::<U256, QuoteError>(QuoteError::DivisionByZero),
        denom@ > 0 && (a@ * b@) as int / (denom@ as int) < 115792089237316195423570985008687907853269984665640564039457584007913129639936int ==> (r matches Ok(v) && v@
            == (a@ * b@) as int / (denom@ as int)),
        denom@ > 0 && (a@ * b@) as int / (denom@ as int) >= 115792089237316195423570985008687907853269984665640564039457584007913129639936int ==> r == Err::<
            U256,
            QuoteError,
        >(QuoteError::Overflow),
{
    if denom.is_zero() {
        return Err(QuoteError::DivisionByZero);
    }
    proof {
        lemma_mul_below(a@, b@, p256());
    }
    narrow(u512_div(u512_mul(widen(a), widen(b)), widen(denom)))
}

/// Returns `ceil(a * b / denom)`.
///
/// # Errors
/// [`QuoteError::DivisionByZero`] if `denom` is zero; [`QuoteError::Overflow`] if the rounded
/// quotient does not fit in 256 bits.
pub fn mul_div_rounding_up(a: U256, b: U256, denom: U256) -> (r: Result<U256, QuoteError>)
    ensures
        lift(r) == mul_div_up_spec(a@, b@, denom@),
        denom@ == 0 ==> r == Err::<U256, QuoteError>(QuoteError::DivisionByZero),
        denom@ > 0 && (a@ * b@ + denom@ - 1) / (denom@ as int) < 115792089237316195423570985008687907853269984665640564039457584007913129639936int ==> (r matches Ok(v)
            && v@ == (a@ * b@ + denom@ - 1) / (denom@ as int)),
        denom@ > 0 && (a@ * b@ + denom@ - 1) / (denom@ as int) >= 115792089237316195423570985008687907853269984665640564039457584007913129639936int ==> r == Err::<
            U256,
            QuoteError,
        >(QuoteError::Overflow),
{
    if denom.is_zero() {
        return Err(QuoteError::DivisionByZero);
    }
    proof {
        lemma_mul_below(a@, b@, p256());
        lemma_ceil_div(a@ * b@, denom@);
    }
    let prod = u512_mul(widen(a), widen(b));
    let denom_wide = widen(denom);
    let result = match narrow(u512_div(prod, denom_wide)) {
        Ok(v) => v,
        Err(e) => return Err(e),
    };
    if u512_rem(prod, denom_wide).is_zero() {
        Ok(result)
    } else {
        match result.checked_add(U256::one()) {
            Some(v) => Ok(v),
            None => Err(QuoteError::Overflow),
        }
    }
}

/// Scaling by a factor of at most one never increases: `a * b / d <= a` when `b <= d`.
pub proof fn lemma_mul_div_le(a: nat, b: nat, d: nat)
    requires
        0 < d,
        b <= d,
    ensures
        a * b / d <= a,
{
    assert(a * b / d <= a) by (nonlinear_arith)
        requires
            0 < d,
            b <= d,
    ;
}

/// Floor division respects the order of fractions: `p1 / q1 <= p2 / q2` when
/// `p1 * q2 <= p2 * q1`.
pub proof fn lemma_floor_div_fraction_order(p1: nat, q1: nat, p2: nat, q2: nat)
    requires
        q1 > 0,
        q2 > 0,
        p1 * q2 <= p2 * q1,
    ensures
        p1 / q1 <= p2 / q2,
{
    let k = p1 / q1;
    assert(k * q1 <= p1) by (nonlinear_arith)
        requires
            q1 > 0,
            k == p1 / q1,
    ;
    assert(k * q2 <= p2) by (nonlinear_arith)
        requires
            q1 > 0,
            q2 > 0,
            k * q1 <= p1,
            p1 * q2 <= p2 * q1,
    ;
    assert(k <= p2 / q2) by (nonlinear_arith)
        requires
            q2 > 0,
            k * q2 <= p2,
    ;
}

/// Floor division is monotone in the numerator.
pub proof fn lemma_div_monotone(a: nat, b: nat, d: nat)
    requires
        d > 0,
        a <= b,
    ensures
        a / d <= b / d,
{
    assert(a / d <= b / d) by (nonlinear_arith)
        requires
            d > 0,
            a <= b,
    ;
}

/// Rounding of `mul_div_rounding_up` against `mul_div`: whenever the ceiling fits, so does the
/// floor, and the ceiling is the floor or one more — one more exactly when `denom` does not
/// divide `a * b`.
pub proof fn lemma_mul_div_rounding(a: nat, b: nat, d: nat)
    requires
        mul_div_up_spec(a, b, d) is Ok,
    ensures
        mul_div_spec(a, b, d) is Ok,
        mul_div_up_spec(a, b, d)->Ok_0 == mul_div_spec(a, b, d)->Ok_0 + (if (a * b) % d == 0 {
            0nat
        } else {
            1nat
        }),
{
    lemma_ceil_div(a * b, d);
}

} // verus!
