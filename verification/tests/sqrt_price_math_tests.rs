use dex_quote_engine::v3::constants::q96;
use dex_quote_engine::v3::sqrt_price_math::{
    get_amount0_delta, get_amount1_delta, next_sqrt_price_from_input, next_sqrt_price_from_output,
};
use dex_quote_engine::v3::{Liquidity, SqrtPriceX96};
use dex_quote_engine::{QuoteError, U256};

fn price(mult: u64) -> SqrtPriceX96 {
    SqrtPriceX96::new(q96().checked_mul(U256::from_u64(mult)).unwrap())
}

#[test]
fn amount1_delta_over_one_q96_step_is_liquidity() {
    let l = Liquidity::new(1_000_000_000_000_000_000);
    let got = get_amount1_delta(price(1), price(2), l, false).unwrap();
    assert_eq!(got, U256::from_u128(l.get()));
}

#[test]
fn amount0_delta_over_one_q96_step_halves_liquidity() {
    let l = Liquidity::new(2);
    let got = get_amount0_delta(price(1), price(2), l, false).unwrap();
    assert_eq!(got, U256::one());
}

#[test]
fn amount0_delta_round_up_is_at_least_round_down() {
    let l = Liquidity::new(1_000_000_000_000_000_000);
    let down = get_amount0_delta(price(1), price(3), l, false).unwrap();
    let up = get_amount0_delta(price(1), price(3), l, true).unwrap();
    assert!(up >= down);
    assert!(up.checked_sub(down).unwrap() <= U256::one());
}

#[test]
fn delta_is_symmetric_in_price_order() {
    let l = Liquidity::new(12_345);
    assert_eq!(
        get_amount0_delta(price(1), price(5), l, true).unwrap(),
        get_amount0_delta(price(5), price(1), l, true).unwrap()
    );
}

#[test]
fn next_price_from_token1_input_moves_price_up() {
    let l = Liquidity::new(1_000_000_000_000_000_000);
    let next = next_sqrt_price_from_input(price(1), l, U256::from_u128(l.get()), false).unwrap();
    assert_eq!(next, price(2));
}

#[test]
fn next_price_from_token0_input_moves_price_down() {
    let l = Liquidity::new(1_000_000_000_000_000_000);
    let next =
        next_sqrt_price_from_input(price(2), l, U256::from_u64(1_000_000_000), true).unwrap();
    assert!(next.get() < price(2).get());
}

#[test]
fn zero_liquidity_input_is_insufficient() {
    assert_eq!(
        next_sqrt_price_from_input(price(1), Liquidity::new(0), U256::one(), true),
        Err(QuoteError::InsufficientLiquidity)
    );
}

#[test]
fn next_price_from_token1_output_lowers_price_one_step() {
    let l = Liquidity::new(1_000_000_000_000_000_000);
    let next = next_sqrt_price_from_output(price(2), l, U256::from_u128(l.get()), true).unwrap();
    assert_eq!(next, price(1));
}

#[test]
fn next_price_from_token0_output_raises_price() {
    let l = Liquidity::new(1_000_000_000_000_000_000);
    let next =
        next_sqrt_price_from_output(price(1), l, U256::from_u64(1_000_000), false).unwrap();
    assert!(next.get() > price(1).get());
}

#[test]
fn output_that_would_drive_price_below_zero_is_rejected() {
    let l = Liquidity::new(1000);
    assert_eq!(
        next_sqrt_price_from_output(price(1), l, U256::from_u64(2000), true),
        Err(QuoteError::SqrtPriceOutOfRange)
    );
}

#[test]
fn zero_lower_price_is_out_of_range() {
    let zero = SqrtPriceX96::new(U256::zero());
    assert_eq!(
        get_amount0_delta(zero, price(1), Liquidity::new(1), true),
        Err(QuoteError::SqrtPriceOutOfRange)
    );
    assert_eq!(
        next_sqrt_price_from_input(zero, Liquidity::new(1), U256::one(), true),
        Err(QuoteError::SqrtPriceOutOfRange)
    );
}

#[test]
fn amount1_delta_rounding_pins_exact_values() {
    // L = 3, prices 1 and 2 (in Q96): 3 * 2^96 / 2^96 = 3 exactly.
    let l = Liquidity::new(3);
    assert_eq!(get_amount1_delta(price(1), price(2), l, false).unwrap(), U256::from_u64(3));
    assert_eq!(get_amount1_delta(price(1), price(2), l, true).unwrap(), U256::from_u64(3));
    // One wei of price difference: 3 / 2^96 floors to 0 and ceils to 1.
    let p1 = SqrtPriceX96::new(q96().checked_add(U256::one()).unwrap());
    assert_eq!(get_amount1_delta(price(1), p1, l, false).unwrap(), U256::zero());
    assert_eq!(get_amount1_delta(price(1), p1, l, true).unwrap(), U256::one());
}

#[test]
fn amount0_delta_rounds_up_when_inexact() {
    // L = 3, prices 1 and 2: 3 * (1 - 1/2) = 1.5 floors to 1, ceils to 2.
    let l = Liquidity::new(3);
    assert_eq!(get_amount0_delta(price(1), price(2), l, false).unwrap(), U256::one());
    assert_eq!(get_amount0_delta(price(1), price(2), l, true).unwrap(), U256::from_u64(2));
}

#[test]
fn next_price_from_token0_input_is_exact_on_round_values() {
    // L = 2^64, P = 2 * Q96, adding L / 2 of token0 gives P' = L * P / (L + a * P / Q96) = Q96.
    let l = Liquidity::new(1u128 << 64);
    let next = next_sqrt_price_from_input(price(2), l, U256::from_u128(1u128 << 63), true).unwrap();
    assert_eq!(next, price(1));
}
