use dex_quote_engine::math::{mul_div, mul_div_rounding_up};
use dex_quote_engine::{QuoteError, U256};

fn u(v: u64) -> U256 {
    U256::from_u64(v)
}

#[test]
fn mul_div_uses_the_full_512_bit_product() {
    assert_eq!(
        mul_div(U256::max_value(), U256::max_value(), U256::max_value()).unwrap(),
        U256::max_value()
    );
}

#[test]
fn mul_div_by_zero_is_rejected() {
    assert_eq!(mul_div(u(1), u(1), U256::zero()), Err(QuoteError::DivisionByZero));
}

#[test]
fn mul_div_overflowing_quotient_is_rejected() {
    assert_eq!(
        mul_div(U256::max_value(), U256::max_value(), U256::one()),
        Err(QuoteError::Overflow)
    );
}

#[test]
fn rounding_up_does_not_bump_an_exact_division() {
    assert_eq!(mul_div_rounding_up(u(6), u(8), u(4)).unwrap(), u(12));
}

#[test]
fn rounding_up_bumps_an_inexact_division() {
    assert_eq!(mul_div_rounding_up(u(7), u(3), u(4)).unwrap(), u(6));
}

#[test]
fn mul_div_floors_and_rounding_up_ceils() {
    assert_eq!(mul_div(u(6), u(7), u(4)).unwrap(), u(10));
    assert_eq!(mul_div_rounding_up(u(6), u(7), u(4)).unwrap(), u(11));
}

#[test]
fn rounding_up_by_zero_is_rejected() {
    assert_eq!(mul_div_rounding_up(u(1), u(1), U256::zero()), Err(QuoteError::DivisionByZero));
}

#[test]
fn rounding_up_past_the_top_is_overflow() {
    // floor(MAX * 3 / 2) does not fit.
    assert_eq!(
        mul_div_rounding_up(U256::max_value(), u(3), u(2)),
        Err(QuoteError::Overflow)
    );
    // MAX * MAX / (MAX - 1) is just above MAX: its ceiling does not fit either.
    let below_max = U256::max_value().checked_sub(U256::one()).unwrap();
    assert_eq!(
        mul_div_rounding_up(U256::max_value(), U256::max_value(), below_max),
        Err(QuoteError::Overflow)
    );
}

#[test]
fn mul_div_exceeding_two_to_the_256_in_the_product_is_exact() {
    // (2^255) * 4 / 8 = 2^254: the product needs 258 bits.
    let two_255 = U256::from_limbs([0, 0, 0, 1u64 << 63]);
    let two_254 = U256::from_limbs([0, 0, 0, 1u64 << 62]);
    assert_eq!(mul_div(two_255, u(4), u(8)).unwrap(), two_254);
    assert_eq!(mul_div_rounding_up(two_255, u(4), u(8)).unwrap(), two_254);
}
