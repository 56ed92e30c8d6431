use dex_quote_engine::v2::V2Pool;
use dex_quote_engine::{Address, QuoteError, U256};

fn u(v: u64) -> U256 {
    U256::from_u64(v)
}

fn pool(reserve0: u64, reserve1: u64, fee: u32) -> V2Pool {
    V2Pool::new(Address::from([1u8; 20]), Address::from([2u8; 20]), u(reserve0), u(reserve1), fee)
        .unwrap()
}

#[test]
fn get_amount_out_matches_canonical_v2() {
    let pool = pool(1000, 1000, 30);
    let out = pool.get_amount_out(true, u(100)).unwrap();
    assert_eq!(out, u(90));
}

#[test]
fn get_amount_out_pre_divides_the_fee() {
    let pool = pool(100, 100, 30);
    assert_eq!(pool.get_amount_out(true, u(3)).unwrap(), u(1));
}

#[test]
fn get_amount_in_is_inverse_of_out() {
    let pool = pool(1000, 1000, 30);
    assert_eq!(pool.get_amount_in(true, u(90)).unwrap(), u(100));
}

#[test]
fn direction_flips_reserves() {
    let pool = pool(2000, 1000, 30);
    let z4o = pool.get_amount_out(true, u(100)).unwrap();
    let o4z = pool.get_amount_out(false, u(100)).unwrap();
    assert_ne!(z4o, o4z);
}

#[test]
fn zero_amount_out_needs_zero_input() {
    let pool = pool(1000, 1000, 30);
    assert_eq!(pool.get_amount_in(true, U256::zero()).unwrap(), U256::zero());
}

#[test]
fn zero_reserves_are_insufficient_liquidity() {
    let pool = pool(0, 1000, 30);
    assert_eq!(pool.get_amount_out(true, u(1)), Err(QuoteError::InsufficientLiquidity));
}

#[test]
fn amount_out_at_or_above_reserve_is_insufficient() {
    let pool = pool(1000, 1000, 30);
    assert_eq!(pool.get_amount_in(true, u(1000)), Err(QuoteError::InsufficientLiquidity));
}

#[test]
fn amount_out_reserve_overflow_is_reported() {
    let pool = V2Pool::new(Address::ZERO, Address::ZERO, U256::max_value(), u(1000), 30).unwrap();
    assert_eq!(pool.get_amount_out(true, u(1_000_000)), Err(QuoteError::Overflow));
}

#[test]
fn amount_in_reserve_overflow_is_reported() {
    let pool =
        V2Pool::new(Address::ZERO, Address::ZERO, U256::max_value(), U256::max_value(), 30).unwrap();
    assert_eq!(pool.get_amount_in(true, u(1000)), Err(QuoteError::Overflow));
}

#[test]
fn invalid_fee_is_rejected() {
    let r = V2Pool::new(Address::ZERO, Address::ZERO, u(1), u(1), 10_000);
    assert_eq!(r.unwrap_err(), QuoteError::InvalidFee);
}

#[test]
fn v2_accessors_return_the_snapshot() {
    let pool = pool(2000, 1000, 30);
    assert_eq!(pool.token0(), Address::from([1u8; 20]));
    assert_eq!(pool.token1(), Address::from([2u8; 20]));
    assert_eq!(pool.reserves(), (u(2000), u(1000)));
    assert_eq!(pool.fee(), 30);
}

#[test]
fn direction_uses_the_matching_reserves() {
    // reserve0 = 2000, reserve1 = 1000: token0 in gives 100*9970/10000 = 99 (floored) with-fee
    // input, 99 * 1000 / 2099 = 47; token1 in gives 99 * 2000 / 1099 = 180.
    let pool = pool(2000, 1000, 30);
    assert_eq!(pool.get_amount_out(true, u(100)).unwrap(), u(47));
    assert_eq!(pool.get_amount_out(false, u(100)).unwrap(), u(180));
}

#[test]
fn v2_more_input_never_less_output_on_samples() {
    let pool = pool(1_000_000, 5_000_000, 30);
    let mut last = U256::zero();
    for a in [1u64, 2, 3, 10, 99, 100, 101, 1000, 12345, 999_999] {
        let out = pool.get_amount_out(true, u(a)).unwrap();
        assert!(out >= last);
        last = out;
    }
}

#[test]
fn output_stays_below_reserve() {
    let pool = pool(1000, 1000, 0);
    let out = pool.get_amount_out(true, u(1_000_000_000)).unwrap();
    assert_eq!(out, u(999));
}

#[test]
fn zero_output_reserve_is_insufficient_for_exact_output() {
    let pool = pool(1000, 0, 30);
    assert_eq!(pool.get_amount_in(true, u(1)), Err(QuoteError::InsufficientLiquidity));
}

#[test]
fn exact_output_denominator_overflow_is_reported() {
    // (reserve_out - amount_out) * (10000 - fee) does not fit in 256 bits.
    let pool = V2Pool::new(Address::ZERO, Address::ZERO, u(1000), U256::max_value(), 0).unwrap();
    assert_eq!(pool.get_amount_in(true, u(1)), Err(QuoteError::Overflow));
}
