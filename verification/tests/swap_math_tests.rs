use dex_quote_engine::math::mul_div_rounding_up;
use dex_quote_engine::v3::constants::q96;
use dex_quote_engine::v3::sqrt_price_math::{
    get_amount0_delta, get_amount1_delta, next_sqrt_price_from_output,
};
use dex_quote_engine::v3::swap_math::compute_swap_step;
use dex_quote_engine::v3::{Liquidity, SqrtPriceX96};
use dex_quote_engine::{QuoteError, U256};

fn price(mult: u64) -> SqrtPriceX96 {
    SqrtPriceX96::new(q96().checked_mul(U256::from_u64(mult)).unwrap())
}

#[test]
fn exact_in_reaching_target_charges_fee_on_input() {
    let l = Liquidity::new(1_000_000_000_000_000_000);
    let step =
        compute_swap_step(price(2), price(1), l, U256::from_u128(u128::MAX), true, 3000).unwrap();
    assert_eq!(step.sqrt_price_next, price(1));
    let expected_in = get_amount0_delta(price(1), price(2), l, true).unwrap();
    let expected_out = get_amount1_delta(price(1), price(2), l, false).unwrap();
    assert_eq!(step.amount_in, expected_in);
    assert_eq!(step.amount_out, expected_out);
    let expected_fee =
        mul_div_rounding_up(expected_in, U256::from_u64(3000), U256::from_u64(997_000)).unwrap();
    assert_eq!(step.fee_amount, expected_fee);
}

#[test]
fn exact_in_not_reaching_target_consumes_all_input() {
    let l = Liquidity::new(1_000_000_000_000_000_000);
    let remaining = U256::from_u64(1_000_000);
    let step = compute_swap_step(price(2), price(1), l, remaining, true, 3000).unwrap();
    assert_ne!(step.sqrt_price_next, price(1));
    assert_eq!(step.amount_in.checked_add(step.fee_amount).unwrap(), remaining);
}

#[test]
fn exact_out_partial_step_pins_in_out_and_fee() {
    let l = Liquidity::new(1_000_000_000_000_000_000);
    let want_out = U256::from_u64(1000);
    let step = compute_swap_step(price(2), price(1), l, want_out, false, 3000).unwrap();

    let sqrt_next = next_sqrt_price_from_output(price(2), l, want_out, true).unwrap();
    let expected_in = get_amount0_delta(sqrt_next, price(2), l, true).unwrap();
    let expected_fee =
        mul_div_rounding_up(expected_in, U256::from_u64(3000), U256::from_u64(997_000)).unwrap();

    assert_eq!(step.sqrt_price_next, sqrt_next);
    assert_eq!(step.amount_out, want_out);
    assert_eq!(step.amount_in, expected_in);
    assert_eq!(step.fee_amount, expected_fee);
    assert!(sqrt_next.get() < price(2).get() && sqrt_next.get() > price(1).get());
}

#[test]
fn fee_at_or_above_denominator_is_rejected() {
    let l = Liquidity::new(1_000_000_000_000_000_000);
    assert_eq!(
        compute_swap_step(price(2), price(1), l, U256::from_u64(1000), true, 1_000_000),
        Err(QuoteError::InvalidFee)
    );
}

#[test]
fn exact_in_never_spends_more_than_remaining_on_samples() {
    let l = Liquidity::new(1_000_000_000_000_000_000);
    for remaining in [1u64, 2, 999, 1000, 1001, 123_456_789, u64::MAX / 3, u64::MAX] {
        let r = U256::from_u64(remaining);
        let step = compute_swap_step(price(2), price(1), l, r, true, 3000).unwrap();
        assert!(step.amount_in.checked_add(step.fee_amount).unwrap() <= r);
    }
}

#[test]
fn exact_out_reaching_target_delivers_the_range() {
    let l = Liquidity::new(1_000_000_000_000_000_000);
    let step =
        compute_swap_step(price(1), price(2), l, U256::from_u128(u128::MAX), false, 500).unwrap();
    assert_eq!(step.sqrt_price_next, price(2));
    assert_eq!(step.amount_out, get_amount0_delta(price(1), price(2), l, false).unwrap());
    assert_eq!(step.amount_in, get_amount1_delta(price(1), price(2), l, true).unwrap());
}

#[test]
fn zero_fee_step_charges_no_fee() {
    let l = Liquidity::new(1_000_000_000_000_000_000);
    let step =
        compute_swap_step(price(2), price(1), l, U256::from_u128(u128::MAX), true, 0).unwrap();
    assert_eq!(step.fee_amount, U256::zero());
}
