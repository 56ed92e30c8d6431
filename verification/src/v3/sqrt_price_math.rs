//! Amount deltas and price transitions within a single liquidity range (`SqrtPriceMath`).
//!
//! Rounding follows the fund-safety invariant: **`amount_in` rounds UP, `amount_out` rounds
//! DOWN** (via the `round_up` flag on the delta helpers), and price transitions round so the pool
//! never releases more than it must.
use vstd::prelude::*;

use crate::error::QuoteError;
use crate::math::{
    ceil_div, lemma_ceil_div, lemma_mul_div_le, lift, mul_div, mul_div_rounding_up, mul_div_spec,
    mul_div_up_spec,
};
use crate::uint::{U256, lemma_pow2_values, lemma_u256_bound, p256, u256_div, u256_shl, u256_sub};
use crate::v3::constants::{q96, q96_nat};
use crate::v3::types::{Liquidity, SqrtPriceX96};

verus! {

broadcast use lemma_u256_bound;

/// The numeric view of a fallible sqrt-price result.
pub open spec fn lift_price(r: Result<SqrtPriceX96, QuoteError>) -> Result<nat, QuoteError> {
    match r {
        Ok(v) => Ok(v@),
        Err(e) => Err(e),
    }
}

/// The smaller of two numbers.
pub open spec fn min_nat(a: nat, b: nat) -> nat {
    if a <= b {
        a
    } else {
        b
    }
}

/// The larger of two numbers.
pub open spec fn max_nat(a: nat, b: nat) -> nat {
    if a <= b {
        b
    } else {
        a
    }
}

/// What `get_amount0_delta` returns: `L * 2^96 * (hi - lo) / hi / lo` for the sorted prices,
/// ceiled twice with `round_up` and floored twice without; an error when the lower price is 0.
pub open spec fn amount0_delta_spec(a: nat, b: nat, liquidity: nat, round_up: bool) -> Result<
    nat,
    QuoteError,
> {
    let lo = min_nat(a, b);
    let hi = max_nat(a, b);
    let numerator = liquidity * q96_nat() * ((hi - lo) as nat);
    if lo == 0 {
        Err(QuoteError::SqrtPriceOutOfRange)
    } else if round_up {
        Ok(ceil_div(ceil_div(numerator, hi), lo))
    } else {
        Ok(numerator / hi / lo)
    }
}

/// What `get_amount1_delta` returns: `L * (hi - lo) / 2^96` for the sorted prices, ceiled with
/// `round_up` and floored without; an overflow error when that does not fit in 256 bits.
pub open spec fn amount1_delta_spec(a: nat, b: nat, liquidity: nat, round_up: bool) -> Result<
    nat,
    QuoteError,
> {
    let lo = min_nat(a, b);
    let hi = max_nat(a, b);
    if round_up {
        mul_div_up_spec(liquidity, (hi - lo) as nat, q96_nat())
    } else {
        mul_div_spec(liquidity, (hi - lo) as nat, q96_nat())
    }
}

/// The price after adding (`add`) or removing token0, rounded up.
///
/// Adding uses `L·2^96·P / (L·2^96 + amount·P)` when that denominator fits in 256 bits and
/// `L·2^96 / (L·2^96 / P + amount)` otherwise. Removing uses `L·2^96·P / (L·2^96 - amount·P)`,
/// which needs `amount·P < L·2^96`.
pub open spec fn next_price_amount0_spec(price: nat, liquidity: nat, amount: nat, add: bool) -> Result<
    nat,
    QuoteError,
> {
    let n1 = liquidity * q96_nat();
    if amount == 0 {
        Ok(price)
    } else if add {
        if amount * price < p256() && n1 + amount * price < p256() {
            mul_div_up_spec(n1, price, n1 + amount * price)
        } else if price == 0 {
            Err(QuoteError::SqrtPriceOutOfRange)
        } else if n1 / price + amount >= p256() {
            Err(QuoteError::Overflow)
        } else {
            mul_div_up_spec(n1, 1, n1 / price + amount)
        }
    } else {
        if amount * price >= p256() {
            Err(QuoteError::Overflow)
        } else if n1 <= amount * price {
            Err(QuoteError::SqrtPriceOutOfRange)
        } else {
            mul_div_up_spec(n1, price, (n1 - amount * price) as nat)
        }
    }
}

/// The price after adding (`add`) or removing token1, rounded down: `P + floor(amount·2^96 / L)`
/// when adding, `P - ceil(amount·2^96 / L)` when removing.
pub open spec fn next_price_amount1_spec(price: nat, liquidity: nat, amount: nat, add: bool) -> Result<
    nat,
    QuoteError,
> {
    if liquidity == 0 {
        Err(QuoteError::InsufficientLiquidity)
    } else if add {
        match mul_div_spec(amount, q96_nat(), liquidity) {
            Err(e) => Err(e),
            Ok(q) => if price + q >= p256() {
                Err(QuoteError::Overflow)
            } else {
                Ok(price + q)
            },
        }
    } else {
        match mul_div_up_spec(amount, q96_nat(), liquidity) {
            Err(e) => Err(e),
            Ok(q) => if price <= q {
                Err(QuoteError::SqrtPriceOutOfRange)
            } else {
                Ok((price - q) as nat)
            },
        }
    }
}

/// What `next_sqrt_price_from_input` returns: the price after adding `amount` of the input token.
pub open spec fn next_price_from_input_spec(
    price: nat,
    liquidity: nat,
    amount: nat,
    zero_for_one: bool,
) -> Result<nat, QuoteError> {
    if price == 0 {
        Err(QuoteError::SqrtPriceOutOfRange)
    } else if liquidity == 0 {
        Err(QuoteError::InsufficientLiquidity)
    } else if zero_for_one {
        next_price_amount0_spec(price, liquidity, amount, true)
    } else {
        next_price_amount1_spec(price, liquidity, amount, true)
    }
}

/// What `next_sqrt_price_from_output` returns: the price after removing `amount` of the output
/// token.
pub open spec fn next_price_from_output_spec(
    price: nat,
    liquidity: nat,
    amount: nat,
    zero_for_one: bool,
) -> Result<nat, QuoteError> {
    if price == 0 {
        Err(QuoteError::SqrtPriceOutOfRange)
    } else if liquidity == 0 {
        Err(QuoteError::InsufficientLiquidity)
    } else if zero_for_one {
        next_price_amount1_spec(price, liquidity, amount, false)
    } else {
        next_price_amount0_spec(price, liquidity, amount, false)
    }
}

/// `ceil(n / d) <= bound` whenever `n <= bound * d`.
pub proof fn lemma_ceil_div_le(n: nat, d: nat, bound: nat)
    requires
        d > 0,
        n <= bound * d,
    ensures
        ceil_div(n, d) <= bound,
{
    assert(((n + d - 1) as nat) / d <= bound) by (nonlinear_arith)
        requires
            d > 0,
            n <= bound * d,
    ;
}

/// `L * 2^96` fits in 256 bits for every liquidity.
proof fn lemma_numerator1_fits(liquidity: nat)
    requires
        liquidity <= u128::MAX,
    ensures
        liquidity * q96_nat() < p256(),
{
}

fn sorted(a: U256, b: U256) -> (r: (U256, U256))
    ensures
        r.0@ == min_nat(a@, b@),
        r.1@ == max_nat(a@, b@),
{
    if a.le_value(&b) {
        (a, b)
    } else {
        (b, a)
    }
}

/// `L * 2^96` as a 256-bit value.
fn numerator1(liquidity: u128) -> (r: U256)
    ensures
        r@ == liquidity * q96_nat(),
{
    proof {
        lemma_pow2_values();
        lemma_numerator1_fits(liquidity as nat);
        let n = liquidity as nat * q96_nat();
        assert(n % p256() == n) by (nonlinear_arith)
            requires
                n < p256(),
        ;
    }
    u256_shl(U256::from_u128(liquidity), 96)
}

/// A price move needs a non-zero price and non-zero liquidity.
fn require_price_and_liquidity(sqrt_p: SqrtPriceX96, liquidity: Liquidity) -> (r: Result<
    (),
    QuoteError,
>)
    ensures
        sqrt_p@ == 0 ==> r == Err::<(), QuoteError>(QuoteError::SqrtPriceOutOfRange),
        sqrt_p@ != 0 && liquidity@ == 0 ==> r == Err::<(), QuoteError>(
            QuoteError::InsufficientLiquidity,
        ),
        sqrt_p@ != 0 && liquidity@ != 0 ==> r == Ok::<(), QuoteError>(()),
{
    if sqrt_p.get().is_zero() {
        return Err(QuoteError::SqrtPriceOutOfRange);
    }
    if liquidity.is_zero() {
        return Err(QuoteError::InsufficientLiquidity);
    }
    Ok(())
}

/// `amount0 = L * (1/sqrt_a - 1/sqrt_b)`, exact integer form.
///
/// With `round_up` the result is ceiled twice (used for an input amount); otherwise floored twice
/// (used for an output amount) — mirroring `SqrtPriceMath.getAmount0Delta`.
///
/// # Errors
/// [`QuoteError::SqrtPriceOutOfRange`] if the lower sqrt price is zero.
pub fn get_amount0_delta(
    sqrt_a: SqrtPriceX96,
    sqrt_b: SqrtPriceX96,
    liquidity: Liquidity,
    round_up: bool,
) -> (r: Result<U256, QuoteError>)
    ensures
        lift(r) == amount0_delta_spec(sqrt_a@, sqrt_b@, liquidity@, round_up),
        ({
            let lo: int = if sqrt_a@ <= sqrt_b@ { sqrt_a@ as int } else { sqrt_b@ as int };
            let hi: int = if sqrt_a@ <= sqrt_b@ { sqrt_b@ as int } else { sqrt_a@ as int };
            let numerator = liquidity@ * 79228162514264337593543950336int * (hi - lo);
            &&& lo == 0 ==> r == Err::<U256, QuoteError>(QuoteError::SqrtPriceOutOfRange)
            &&& lo > 0 && round_up ==> (r matches Ok(v) && v@ == ((numerator + hi - 1) / hi + lo
                - 1) / lo)
            &&& lo > 0 && !round_up ==> (r matches Ok(v) && v@ == numerator / hi / lo)
        }),
{
    let (lo, hi) = sorted(sqrt_a.get(), sqrt_b.get());
    if lo.is_zero() {
        return Err(QuoteError::SqrtPriceOutOfRange);
    }
    let numerator1 = numerator1(liquidity.get());
    let numerator2 = u256_sub(hi, lo);
    if round_up {
        proof {
            assert(numerator1@ * numerator2@ <= numerator1@ * hi@) by (nonlinear_arith)
                requires
                    numerator2@ <= hi@,
            ;
            lemma_ceil_div_le(numerator1@ * numerator2@, hi@, numerator1@);
        }
        let inner = match mul_div_rounding_up(numerator1, numerator2, hi) {
            Ok(v) => v,
            Err(e) => return Err(e),
        };
        proof {
            assert(inner@ * 1 <= inner@ * lo@) by (nonlinear_arith)
                requires
                    lo@ >= 1,
            ;
            lemma_ceil_div_le(inner@ * 1, lo@, inner@);
        }
        mul_div_rounding_up(inner, U256::one(), lo)
    } else {
        proof {
            lemma_mul_div_le(numerator1@, numerator2@, hi@);
        }
        let inner = match mul_div(numerator1, numerator2, hi) {
            Ok(v) => v,
            Err(e) => return Err(e),
        };
        Ok(u256_div(inner, lo))
    }
}

/// `amount1 = L * (sqrt_b - sqrt_a)`, in Q96.
///
/// # Errors
/// [`QuoteError::Overflow`] if the result does not fit in 256 bits.
pub fn get_amount1_delta(
    sqrt_a: SqrtPriceX96,
    sqrt_b: SqrtPriceX96,
    liquidity: Liquidity,
    round_up: bool,
) -> (r: Result<U256, QuoteError>)
    ensures
        lift(r) == amount1_delta_spec(sqrt_a@, sqrt_b@, liquidity@, round_up),
        ({
            let lo: int = if sqrt_a@ <= sqrt_b@ { sqrt_a@ as int } else { sqrt_b@ as int };
            let hi: int = if sqrt_a@ <= sqrt_b@ { sqrt_b@ as int } else { sqrt_a@ as int };
            let amount: int = if round_up {
                (liquidity@ * (hi - lo) + 79228162514264337593543950336int - 1) / 79228162514264337593543950336int
            } else {
                liquidity@ * (hi - lo) / 79228162514264337593543950336int
            };
            &&& amount < 115792089237316195423570985008687907853269984665640564039457584007913129639936int ==> (r matches Ok(v) && v@ == amount)
            &&& amount >= 115792089237316195423570985008687907853269984665640564039457584007913129639936int ==> r == Err::<U256, QuoteError>(QuoteError::Overflow)
        }),
{
    let (lo, hi) = sorted(sqrt_a.get(), sqrt_b.get());
    let l = U256::from_u128(liquidity.get());
    let numerator = u256_sub(hi, lo);
    if round_up {
        mul_div_rounding_up(l, numerator, q96())
    } else {
        mul_div(l, numerator, q96())
    }
}

/// Adding/removing token0 moves the price; the resulting price rounds **up**.
fn next_sqrt_price_from_amount0_rounding_up(
    sqrt_p: U256,
    liquidity: u128,
    amount: U256,
    add: bool,
) -> (r: Result<U256, QuoteError>)
    ensures
        lift(r) == next_price_amount0_spec(sqrt_p@, liquidity as nat, amount@, add),
{
    if amount.is_zero() {
        return Ok(sqrt_p);
    }
    let numerator1 = numerator1(liquidity);
    if add {
        // Prefer the precise form `L·2^96·sqrtP / (L·2^96 + amount·sqrtP)`; fall back to an
        // overflow-proof rearrangement when the product does not fit.
        match amount.checked_mul(sqrt_p) {
            Some(product) => match numerator1.checked_add(product) {
                Some(denominator) => {
                    if numerator1.le_value(&denominator) {
                        return mul_div_rounding_up(numerator1, sqrt_p, denominator);
                    }
                },
                None => {},
            },
            None => {},
        }
        if sqrt_p.is_zero() {
            return Err(QuoteError::SqrtPriceOutOfRange);
        }
        let denominator = match u256_div(numerator1, sqrt_p).checked_add(amount) {
            Some(v) => v,
            None => return Err(QuoteError::Overflow),
        };
        mul_div_rounding_up(numerator1, U256::one(), denominator)
    } else {
        let product = match amount.checked_mul(sqrt_p) {
            Some(v) => v,
            None => return Err(QuoteError::Overflow),
        };
        if numerator1.le_value(&product) {
            return Err(QuoteError::SqrtPriceOutOfRange);
        }
        let denominator = u256_sub(numerator1, product);
        mul_div_rounding_up(numerator1, sqrt_p, denominator)
    }
}

/// Adding/removing token1 moves the price; the resulting price rounds **down**.
fn next_sqrt_price_from_amount1_rounding_down(
    sqrt_p: U256,
    liquidity: u128,
    amount: U256,
    add: bool,
) -> (r: Result<U256, QuoteError>)
    ensures
        lift(r) == next_price_amount1_spec(sqrt_p@, liquidity as nat, amount@, add),
{
    if liquidity == 0 {
        return Err(QuoteError::InsufficientLiquidity);
    }
    let l = U256::from_u128(liquidity);
    if add {
        let quotient = match mul_div(amount, q96(), l) {
            Ok(v) => v,
            Err(e) => return Err(e),
        };
        match sqrt_p.checked_add(quotient) {
            Some(v) => Ok(v),
            None => Err(QuoteError::Overflow),
        }
    } else {
        // Ceil the quotient so that `sqrt_p - quotient` is itself floored.
        let quotient = match mul_div_rounding_up(amount, q96(), l) {
            Ok(v) => v,
            Err(e) => return Err(e),
        };
        if sqrt_p.le_value(&quotient) {
            return Err(QuoteError::SqrtPriceOutOfRange);
        }
        Ok(u256_sub(sqrt_p, quotient))
    }
}

/// The sqrt price after adding `amount_in` of the input token.
///
/// # Errors
/// [`QuoteError::SqrtPriceOutOfRange`] if the price is zero; [`QuoteError::InsufficientLiquidity`]
/// if liquidity is zero; [`QuoteError::Overflow`] if an intermediate value does not fit in 256
/// bits.
pub fn next_sqrt_price_from_input(
    sqrt_p: SqrtPriceX96,
    liquidity: Liquidity,
    amount_in: U256,
    zero_for_one: bool,
) -> (r: Result<SqrtPriceX96, QuoteError>)
    ensures
        lift_price(r) == next_price_from_input_spec(sqrt_p@, liquidity@, amount_in@, zero_for_one),
        r matches Ok(n) ==> (zero_for_one ==> n@ <= sqrt_p@) && (!zero_for_one ==> n@
            >= sqrt_p@),
{
    match require_price_and_liquidity(sqrt_p, liquidity) {
        Ok(()) => {},
        Err(e) => return Err(e),
    }
    let next = if zero_for_one {
        next_sqrt_price_from_amount0_rounding_up(sqrt_p.get(), liquidity.get(), amount_in, true)
    } else {
        next_sqrt_price_from_amount1_rounding_down(sqrt_p.get(), liquidity.get(), amount_in, true)
    };
    match next {
        Ok(v) => {
            proof {
                lemma_next_price_from_input_direction(
                    sqrt_p@,
                    liquidity@,
                    amount_in@,
                    zero_for_one,
                );
            }
            Ok(SqrtPriceX96::new(v))
        },
        Err(e) => Err(e),
    }
}

/// The sqrt price after removing `amount_out` of the output token.
///
/// # Errors
/// [`QuoteError::SqrtPriceOutOfRange`] if the price is zero or the output would take the price
/// to zero or below; [`QuoteError::InsufficientLiquidity`] if liquidity is zero;
/// [`QuoteError::Overflow`] if an intermediate value does not fit in 256 bits.
pub fn next_sqrt_price_from_output(
    sqrt_p: SqrtPriceX96,
    liquidity: Liquidity,
    amount_out: U256,
    zero_for_one: bool,
) -> (r: Result<SqrtPriceX96, QuoteError>)
    ensures
        lift_price(r) == next_price_from_output_spec(sqrt_p@, liquidity@, amount_out@, zero_for_one),
        r matches Ok(n) ==> (zero_for_one ==> n@ <= sqrt_p@) && (!zero_for_one ==> n@
            >= sqrt_p@),
{
    match require_price_and_liquidity(sqrt_p, liquidity) {
        Ok(()) => {},
        Err(e) => return Err(e),
    }
    let next = if zero_for_one {
        next_sqrt_price_from_amount1_rounding_down(sqrt_p.get(), liquidity.get(), amount_out, false)
    } else {
        next_sqrt_price_from_amount0_rounding_up(sqrt_p.get(), liquidity.get(), amount_out, false)
    };
    match next {
        Ok(v) => {
            proof {
                lemma_next_price_from_output_direction(
                    sqrt_p@,
                    liquidity@,
                    amount_out@,
                    zero_for_one,
                );
            }
            Ok(SqrtPriceX96::new(v))
        },
        Err(e) => Err(e),
    }
}

/// Rounding of `get_amount0_delta`: whenever the delta is defined, rounding up gives at least
/// the rounded-down amount and at most one more.
pub proof fn lemma_amount0_delta_rounding(a: nat, b: nat, liquidity: nat)
    requires
        amount0_delta_spec(a, b, liquidity, false) is Ok,
    ensures
        amount0_delta_spec(a, b, liquidity, true) is Ok,
        amount0_delta_spec(a, b, liquidity, false)->Ok_0 <= amount0_delta_spec(
            a,
            b,
            liquidity,
            true,
        )->Ok_0,
        amount0_delta_spec(a, b, liquidity, true)->Ok_0 <= amount0_delta_spec(
            a,
            b,
            liquidity,
            false,
        )->Ok_0 + 1,
{
    let lo = min_nat(a, b);
    let hi = max_nat(a, b);
    let x = liquidity * q96_nat() * ((hi - lo) as nat);
    let f1 = x / hi;
    let c1 = ceil_div(x, hi);
    lemma_ceil_div(x, hi);
    lemma_ceil_div(c1, lo);
    lemma_ceil_div(f1, lo);
    assert(f1 / lo <= c1 / lo) by (nonlinear_arith)
        requires
            f1 <= c1,
            lo > 0,
    ;
    let q = f1 / lo;
    assert(f1 + 1 <= (q + 1) * lo) by (nonlinear_arith)
        requires
            lo > 0,
            q == f1 / lo,
    ;
    assert(f1 <= (q + 1) * lo);
    if c1 == f1 {
        lemma_ceil_div_le(f1, lo, q + 1);
    } else {
        lemma_ceil_div_le(f1 + 1, lo, q + 1);
    }
}

/// Rounding of `get_amount1_delta`: whenever the rounded-up delta is defined, so is the
/// rounded-down one, and they differ by at most one.
pub proof fn lemma_amount1_delta_rounding(a: nat, b: nat, liquidity: nat)
    requires
        amount1_delta_spec(a, b, liquidity, true) is Ok,
    ensures
        amount1_delta_spec(a, b, liquidity, false) is Ok,
        amount1_delta_spec(a, b, liquidity, false)->Ok_0 <= amount1_delta_spec(
            a,
            b,
            liquidity,
            true,
        )->Ok_0,
        amount1_delta_spec(a, b, liquidity, true)->Ok_0 <= amount1_delta_spec(
            a,
            b,
            liquidity,
            false,
        )->Ok_0 + 1,
{
    let lo = min_nat(a, b);
    let hi = max_nat(a, b);
    lemma_ceil_div(liquidity * ((hi - lo) as nat), q96_nat());
}

/// Both amount deltas depend only on the pair of prices, not on their order.
pub proof fn lemma_amount_deltas_symmetric(a: nat, b: nat, liquidity: nat, round_up: bool)
    ensures
        amount0_delta_spec(a, b, liquidity, round_up) == amount0_delta_spec(
            b,
            a,
            liquidity,
            round_up,
        ),
        amount1_delta_spec(a, b, liquidity, round_up) == amount1_delta_spec(
            b,
            a,
            liquidity,
            round_up,
        ),
{
}

/// Adding token0 never raises the price (`P·N / (N + aP)` rounded up is at most `P`).
proof fn lemma_add_amount0_lowers(price: nat, liquidity: nat, amount: nat)
    requires
        next_price_amount0_spec(price, liquidity, amount, true) is Ok,
    ensures
        next_price_amount0_spec(price, liquidity, amount, true)->Ok_0 <= price,
{
    let n1 = liquidity * q96_nat();
    if amount == 0 {
    } else if amount * price < p256() && n1 + amount * price < p256() {
        let den = n1 + amount * price;
        assert(n1 * price <= price * den) by (nonlinear_arith)
            requires
                den == n1 + amount * price,
        ;
        lemma_ceil_div_le(n1 * price, den, price);
    } else {
        let m = n1 / price + amount;
        assert(n1 * 1 <= price * m) by (nonlinear_arith)
            requires
                price > 0,
                amount >= 1,
                m == n1 / price + amount,
        ;
        lemma_ceil_div_le(n1 * 1, m, price);
    }
}

/// Removing token0 never lowers the price.
proof fn lemma_remove_amount0_raises(price: nat, liquidity: nat, amount: nat)
    requires
        next_price_amount0_spec(price, liquidity, amount, false) is Ok,
    ensures
        next_price_amount0_spec(price, liquidity, amount, false)->Ok_0 >= price,
{
    let n1 = liquidity * q96_nat();
    if amount != 0 {
        let den = (n1 - amount * price) as nat;
        lemma_ceil_div(n1 * price, den);
        assert((n1 * price) / den >= price) by (nonlinear_arith)
            requires
                0 < den <= n1,
        ;
    }
}

/// Direction of `next_sqrt_price_from_input`: token0 in (`zero_for_one`) never raises the
/// price, token1 in never lowers it.
pub proof fn lemma_next_price_from_input_direction(
    price: nat,
    liquidity: nat,
    amount: nat,
    zero_for_one: bool,
)
    requires
        next_price_from_input_spec(price, liquidity, amount, zero_for_one) is Ok,
    ensures
        zero_for_one ==> next_price_from_input_spec(price, liquidity, amount, zero_for_one)->Ok_0
            <= price,
        !zero_for_one ==> next_price_from_input_spec(price, liquidity, amount, zero_for_one)->Ok_0
            >= price,
{
    if zero_for_one {
        lemma_add_amount0_lowers(price, liquidity, amount);
    }
}

/// Direction of `next_sqrt_price_from_output`: token1 out (`zero_for_one`) never raises the
/// price, token0 out never lowers it.
pub proof fn lemma_next_price_from_output_direction(
    price: nat,
    liquidity: nat,
    amount: nat,
    zero_for_one: bool,
)
    requires
        next_price_from_output_spec(price, liquidity, amount, zero_for_one) is Ok,
    ensures
        zero_for_one ==> next_price_from_output_spec(price, liquidity, amount, zero_for_one)->Ok_0
            <= price,
        !zero_for_one ==> next_price_from_output_spec(price, liquidity, amount, zero_for_one)->Ok_0
            >= price,
{
    if !zero_for_one {
        lemma_remove_amount0_raises(price, liquidity, amount);
    }
}

/// `ceil(ceil(n1 * (p - n) / p) / n) <= a` whenever `n1 * (p - n) <= a * p * n`.
proof fn lemma_amount0_input_bound(n1: nat, p: nat, n: nat, a: nat)
    requires
        0 < n <= p,
        n1 * ((p - n) as nat) <= a * p * n,
    ensures
        ceil_div(ceil_div(n1 * ((p - n) as nat), p), n) <= a,
{
    let x = n1 * ((p - n) as nat);
    assert(x <= (a * n) * p) by (nonlinear_arith)
        requires
            x <= a * p * n,
    ;
    lemma_ceil_div_le(x, p, a * n);
    let c = ceil_div(x, p);
    assert(c <= a * n);
    lemma_ceil_div_le(c, n, a);
}

/// Fund safety of a price move by input: the input that the computed next price accounts for
/// (rounded up) never exceeds the input supplied. For token0 in the next price is positive
/// and at most the current one; for token1 in it is at least the current one.
pub proof fn lemma_next_price_input_covers_delta(
    price: nat,
    liquidity: nat,
    amount: nat,
    zero_for_one: bool,
)
    requires
        amount < p256(),
        next_price_from_input_spec(price, liquidity, amount, zero_for_one) is Ok,
    ensures
        ({
            let next = next_price_from_input_spec(price, liquidity, amount, zero_for_one)->Ok_0;
            if zero_for_one {
                &&& 0 < next <= price
                &&& amount0_delta_spec(next, price, liquidity, true) is Ok
                &&& amount0_delta_spec(next, price, liquidity, true)->Ok_0 <= amount
            } else {
                &&& price <= next
                &&& amount1_delta_spec(price, next, liquidity, true) is Ok
                &&& amount1_delta_spec(price, next, liquidity, true)->Ok_0 <= amount
            }
        }),
{
    let next = next_price_from_input_spec(price, liquidity, amount, zero_for_one)->Ok_0;
    let n1 = liquidity * q96_nat();
    assert(n1 > 0) by (nonlinear_arith)
        requires
            liquidity > 0,
            n1 == liquidity * q96_nat(),
    ;
    if zero_for_one {
        lemma_add_amount0_lowers(price, liquidity, amount);
        if amount == 0 {
            assert(((0 + price - 1) as nat) / price == 0) by (nonlinear_arith)
                requires
                    price > 0,
            ;
            assert(ceil_div(0, price) == 0);
            assert(liquidity * q96_nat() * ((price - next) as nat) == 0) by (nonlinear_arith)
                requires
                    next == price,
            ;
        } else if amount * price < p256() && n1 + amount * price < p256() {
            let den = n1 + amount * price;
            lemma_ceil_div(n1 * price, den);
            assert(next > 0) by (nonlinear_arith)
                requires
                    next * den >= n1 * price,
                    n1 > 0,
                    price > 0,
            ;
            assert(n1 * ((price - next) as nat) <= amount * price * next) by (nonlinear_arith)
                requires
                    next * den >= n1 * price,
                    den == n1 + amount * price,
                    next <= price,
            ;
            lemma_amount0_input_bound(n1, price, next, amount);
        } else {
            let m = n1 / price + amount;
            lemma_ceil_div(n1 * 1, m);
            assert(next > 0) by (nonlinear_arith)
                requires
                    next * m >= n1 * 1,
                    n1 > 0,
            ;
            assert((n1 / price) * price <= n1) by (nonlinear_arith)
                requires
                    price > 0,
            ;
            assert(n1 * ((price - next) as nat) <= amount * price * next) by (nonlinear_arith)
                requires
                    next * m >= n1 * 1,
                    m == n1 / price + amount,
                    (n1 / price) * price <= n1,
                    next <= price,
            ;
            lemma_amount0_input_bound(n1, price, next, amount);
        }
        assert(liquidity * q96_nat() * ((price - next) as nat) == n1 * ((price - next) as nat));
    } else {
        let q = amount * q96_nat() / liquidity;
        assert(liquidity * q <= amount * q96_nat()) by (nonlinear_arith)
            requires
                liquidity > 0,
                q == amount * q96_nat() / liquidity,
        ;
        assert(next == price + q);
        lemma_ceil_div_le(liquidity * q, q96_nat(), amount);
    }
}

/// The rounded-up token0 amount grows as the lower price moves down: for
/// `0 < lo1 <= lo2 <= hi`, the amount for `[lo1, hi]` is at least the amount for `[lo2, hi]`.
pub proof fn lemma_amount0_delta_up_antitone(lo1: nat, lo2: nat, hi: nat, liquidity: nat)
    requires
        0 < lo1 <= lo2 <= hi,
    ensures
        amount0_delta_spec(lo2, hi, liquidity, true)->Ok_0 <= amount0_delta_spec(
            lo1,
            hi,
            liquidity,
            true,
        )->Ok_0,
{
    let n1 = liquidity * q96_nat();
    let x1 = n1 * ((hi - lo1) as nat);
    let x2 = n1 * ((hi - lo2) as nat);
    assert(x2 <= x1) by (nonlinear_arith)
        requires
            x1 == n1 * ((hi - lo1) as nat),
            x2 == n1 * ((hi - lo2) as nat),
            lo1 <= lo2 <= hi,
    ;
    let c1 = ceil_div(x1, hi);
    let c2 = ceil_div(x2, hi);
    assert(c2 <= c1) by (nonlinear_arith)
        requires
            x2 <= x1,
            hi > 0,
            c1 == ((x1 + hi - 1) as nat) / hi,
            c2 == ((x2 + hi - 1) as nat) / hi,
    ;
    lemma_ceil_div(c1, lo1);
    assert(c2 <= ceil_div(c1, lo1) * lo2) by (nonlinear_arith)
        requires
            c2 <= c1,
            c1 <= ceil_div(c1, lo1) * lo1,
            lo1 <= lo2,
    ;
    lemma_ceil_div_le(c2, lo2, ceil_div(c1, lo1));
}

/// The rounded-up token1 amount grows with the upper price: for `lo <= hi1 <= hi2`, if the
/// amount for `[lo, hi2]` fits then so does the amount for `[lo, hi1]`, and it is no larger.
pub proof fn lemma_amount1_delta_up_monotone(lo: nat, hi1: nat, hi2: nat, liquidity: nat)
    requires
        lo <= hi1 <= hi2,
        amount1_delta_spec(lo, hi2, liquidity, true) is Ok,
    ensures
        amount1_delta_spec(lo, hi1, liquidity, true) is Ok,
        amount1_delta_spec(lo, hi1, liquidity, true)->Ok_0 <= amount1_delta_spec(
            lo,
            hi2,
            liquidity,
            true,
        )->Ok_0,
{
    let x1 = liquidity * ((hi1 - lo) as nat);
    let x2 = liquidity * ((hi2 - lo) as nat);
    assert(x1 <= x2) by (nonlinear_arith)
        requires
            x1 == liquidity * ((hi1 - lo) as nat),
            x2 == liquidity * ((hi2 - lo) as nat),
            lo <= hi1 <= hi2,
    ;
    assert(ceil_div(x1, q96_nat()) <= ceil_div(x2, q96_nat())) by (nonlinear_arith)
        requires
            x1 <= x2,
    ;
}

/// `ceil(p1 / q1) <= ceil(p2 / q2)` whenever `p1 / q1 <= p2 / q2` as fractions.
pub proof fn lemma_ceil_div_fraction_order(p1: nat, q1: nat, p2: nat, q2: nat)
    requires
        q1 > 0,
        q2 > 0,
        p1 * q2 <= p2 * q1,
    ensures
        ceil_div(p1, q1) <= ceil_div(p2, q2),
{
    let c2 = ceil_div(p2, q2);
    lemma_ceil_div(p2, q2);
    assert(p1 <= c2 * q1) by (nonlinear_arith)
        requires
            q2 > 0,
            p1 * q2 <= p2 * q1,
            p2 <= c2 * q2,
    ;
    lemma_ceil_div_le(p1, q1, c2);
}

/// More input moves the price further: the price after adding token0 falls (weakly) as the
/// amount grows, and the price after adding token1 rises (weakly).
pub proof fn lemma_next_price_from_input_monotone(
    price: nat,
    liquidity: nat,
    a1: nat,
    a2: nat,
    zero_for_one: bool,
)
    requires
        a1 <= a2,
        next_price_from_input_spec(price, liquidity, a1, zero_for_one) is Ok,
        next_price_from_input_spec(price, liquidity, a2, zero_for_one) is Ok,
    ensures
        zero_for_one ==> next_price_from_input_spec(price, liquidity, a2, zero_for_one)->Ok_0
            <= next_price_from_input_spec(price, liquidity, a1, zero_for_one)->Ok_0,
        !zero_for_one ==> next_price_from_input_spec(price, liquidity, a1, zero_for_one)->Ok_0
            <= next_price_from_input_spec(price, liquidity, a2, zero_for_one)->Ok_0,
{
    let n1 = liquidity * q96_nat();
    if zero_for_one {
        lemma_add_amount0_lowers(price, liquidity, a2);
        if a1 != 0 && a1 != a2 {
            let case1_a1 = a1 * price < p256() && n1 + a1 * price < p256();
            let case1_a2 = a2 * price < p256() && n1 + a2 * price < p256();
            assert(a1 * price <= a2 * price) by (nonlinear_arith)
                requires
                    a1 <= a2,
            ;
            assert(n1 > 0) by (nonlinear_arith)
                requires
                    liquidity > 0,
                    n1 == liquidity * q96_nat(),
            ;
            if case1_a2 {
                let d1 = n1 + a1 * price;
                let d2 = n1 + a2 * price;
                assert((n1 * price) * d1 <= (n1 * price) * d2) by (nonlinear_arith)
                    requires
                        d1 <= d2,
                ;
                lemma_ceil_div_fraction_order(n1 * price, d2, n1 * price, d1);
            } else if !case1_a1 {
                let f = n1 / price;
                let d1 = f + a1;
                let d2 = f + a2;
                assert((n1 * 1) * d1 <= (n1 * 1) * d2) by (nonlinear_arith)
                    requires
                        d1 <= d2,
                ;
                lemma_ceil_div_fraction_order(n1 * 1, d2, n1 * 1, d1);
            } else {
                let f = n1 / price;
                let d1 = n1 + a1 * price;
                let d2 = f + a2;
                assert(price * f + price > n1) by (nonlinear_arith)
                    requires
                        price > 0,
                        f == n1 / price,
                ;
                assert((n1 * 1) * d1 <= (n1 * price) * d2) by (nonlinear_arith)
                    requires
                        price * f + price > n1,
                        a2 >= a1 + 1,
                        d1 == n1 + a1 * price,
                        d2 == f + a2,
                ;
                lemma_ceil_div_fraction_order(n1 * 1, d2, n1 * price, d1);
            }
        }
    } else {
        assert(a1 * q96_nat() <= a2 * q96_nat()) by (nonlinear_arith)
            requires
                a1 <= a2,
        ;
        crate::math::lemma_div_monotone(a1 * q96_nat(), a2 * q96_nat(), liquidity);
    }
}

/// The rounded-down token1 amount of `[next, current]` grows as `next` moves down.
pub proof fn lemma_amount1_delta_down_antitone(n1: nat, n2: nat, current: nat, liquidity: nat)
    requires
        n2 <= n1 <= current,
        amount1_delta_spec(n2, current, liquidity, false) is Ok,
    ensures
        amount1_delta_spec(n1, current, liquidity, false) is Ok,
        amount1_delta_spec(n1, current, liquidity, false)->Ok_0 <= amount1_delta_spec(
            n2,
            current,
            liquidity,
            false,
        )->Ok_0,
{
    let x1 = liquidity * ((current - n1) as nat);
    let x2 = liquidity * ((current - n2) as nat);
    assert(x1 <= x2) by (nonlinear_arith)
        requires
            x1 == liquidity * ((current - n1) as nat),
            x2 == liquidity * ((current - n2) as nat),
            n2 <= n1 <= current,
    ;
    crate::math::lemma_div_monotone(x1, x2, q96_nat());
}

/// The rounded-down token0 amount of `[current, next]` grows as `next` moves up.
pub proof fn lemma_amount0_delta_down_monotone(current: nat, n1: nat, n2: nat, liquidity: nat)
    requires
        0 < current <= n1 <= n2,
    ensures
        amount0_delta_spec(current, n1, liquidity, false)->Ok_0 <= amount0_delta_spec(
            current,
            n2,
            liquidity,
            false,
        )->Ok_0,
{
    let m = liquidity * q96_nat();
    let x1 = m * ((n1 - current) as nat);
    let x2 = m * ((n2 - current) as nat);
    assert(x1 * n2 <= x2 * n1) by (nonlinear_arith)
        requires
            x1 == m * ((n1 - current) as nat),
            x2 == m * ((n2 - current) as nat),
            0 < current <= n1 <= n2,
    ;
    crate::math::lemma_floor_div_fraction_order(x1, n1, x2, n2);
    crate::math::lemma_div_monotone(x1 / n1, x2 / n2, current);
}

} // verus!
