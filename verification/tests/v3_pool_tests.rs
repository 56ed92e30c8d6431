use dex_quote_engine::v3::constants::q96;
use dex_quote_engine::v3::pool::cross_tick;
use dex_quote_engine::v3::swap_math::compute_swap_step;
use dex_quote_engine::v3::tick_math::get_sqrt_ratio_at_tick;
use dex_quote_engine::v3::{Liquidity, PoolStateV3Params, SqrtPriceX96, Tick, TickData, V3Pool};
use dex_quote_engine::{Address, QuoteError, U256};

fn addr(byte: u8) -> Address {
    Address::from([byte; 20])
}

fn u(v: u64) -> U256 {
    U256::from_u64(v)
}

fn pool_with_range(liquidity: u128) -> V3Pool {
    let net = i128::try_from(liquidity).unwrap();
    V3Pool::new(PoolStateV3Params {
        token0: addr(1),
        token1: addr(2),
        tick: Tick::new(0).unwrap(),
        tick_liquidity_net: 0,
        tick_spacing: 60,
        fee: 3000,
        sqrt_price_x96: SqrtPriceX96::new(q96()),
        liquidity: Liquidity::new(liquidity),
        zero_for_one_ticks: vec![TickData::new(-600, true, net).unwrap()],
        one_for_zero_ticks: vec![TickData::new(600, true, -net).unwrap()],
    })
    .unwrap()
}

#[test]
fn tick_array_layout_places_current_in_the_middle() {
    let pool = pool_with_range(1_000_000_000_000_000_000);
    assert_eq!(pool.current_tick_index(), 1);
    assert_eq!(pool.ticks()[0].tick.get(), -600);
    assert_eq!(pool.current_tick_data().tick.get(), 0);
    assert_eq!(pool.ticks()[2].tick.get(), 600);
}

#[test]
fn exact_in_zero_for_one_lowers_price_and_pays_out() {
    let pool = pool_with_range(1_000_000_000_000_000_000);
    let (out, remaining) = pool.get_amount_out(true, u(1_000_000_000_000)).unwrap();
    assert!(out > U256::zero());
    assert!(pool.sqrt_price_x96().get() == q96()); // a pure quote does not mutate
    assert!(remaining.is_zero());
}

#[test]
fn exact_in_one_for_zero_pays_out() {
    let pool = pool_with_range(1_000_000_000_000_000_000);
    let (out, remaining) = pool.get_amount_out(false, u(1_000_000_000_000)).unwrap();
    assert!(out > U256::zero());
    assert!(remaining.is_zero());
}

#[test]
fn small_swap_stays_within_range() {
    let pool = pool_with_range(1_000_000_000_000_000_000);
    let (out, remaining) = pool.get_amount_out(true, u(1_000_000)).unwrap();
    assert!(out > U256::zero());
    assert!(remaining.is_zero());
}

#[test]
fn huge_swap_exhausts_ticks_and_reports_remaining() {
    let pool = pool_with_range(1_000_000_000_000_000_000);
    let (_out, remaining) = pool.get_amount_out(true, U256::max_value()).unwrap();
    assert!(remaining > U256::zero());
}

#[test]
fn zero_amount_in_returns_zero() {
    let pool = pool_with_range(1_000_000_000_000_000_000);
    assert_eq!(pool.get_amount_out(true, U256::zero()).unwrap(), (U256::zero(), U256::zero()));
}

#[test]
fn exact_out_requires_more_input_than_output() {
    let pool = pool_with_range(1_000_000_000_000_000_000);
    let want_out = u(1_000_000_000);
    let (amount_in, remaining) = pool.get_amount_in(true, want_out).unwrap();
    assert!(amount_in > want_out);
    assert!(remaining.is_zero());
}

#[test]
fn exact_out_exhausts_ticks_and_reports_remaining() {
    let pool = pool_with_range(1_000_000_000_000_000_000);
    let (_amount_in, remaining) = pool.get_amount_in(true, U256::max_value()).unwrap();
    assert!(remaining > U256::zero());
}

#[test]
fn non_positive_tick_spacing_is_rejected() {
    let result = V3Pool::new(PoolStateV3Params {
        token0: addr(1),
        token1: addr(2),
        tick: Tick::new(0).unwrap(),
        tick_liquidity_net: 0,
        tick_spacing: 0,
        fee: 3000,
        sqrt_price_x96: SqrtPriceX96::new(q96()),
        liquidity: Liquidity::new(1),
        zero_for_one_ticks: vec![],
        one_for_zero_ticks: vec![],
    });
    assert_eq!(result.unwrap_err(), QuoteError::InvalidTickSpacing(0));
}

#[test]
fn cross_tick_applies_net_by_direction() {
    let l = Liquidity::new(1000);
    assert_eq!(cross_tick(l, 400, false).unwrap().get(), 1400); // up, +net
    assert_eq!(cross_tick(l, -400, false).unwrap().get(), 600); // up, -|net|
    assert_eq!(cross_tick(l, 400, true).unwrap().get(), 600); // down, -net
    assert_eq!(cross_tick(l, -400, true).unwrap().get(), 1400); // down, +|net|
}

#[test]
fn cross_tick_underflow_is_insufficient_liquidity() {
    assert_eq!(
        cross_tick(Liquidity::new(100), -400, false),
        Err(QuoteError::InsufficientLiquidity)
    );
}

// Two ranges above the price: liquidity doubles past tick 60. A swap that crosses tick 60 must
// continue in the 2·L range; the exact output only matches if crossing updated the liquidity.
#[test]
fn crossing_a_tick_updates_liquidity_for_the_next_range() {
    let l0 = 1_000_000_000_000_000_000u128;
    let net = i128::try_from(l0).unwrap();
    let pool = V3Pool::new(PoolStateV3Params {
        token0: addr(1),
        token1: addr(2),
        tick: Tick::new(0).unwrap(),
        tick_liquidity_net: 0,
        tick_spacing: 60,
        fee: 3000,
        sqrt_price_x96: SqrtPriceX96::new(q96()),
        liquidity: Liquidity::new(l0),
        zero_for_one_ticks: vec![],
        one_for_zero_ticks: vec![
            TickData::new(60, true, net).unwrap(),
            TickData::new(600, true, -(2 * net)).unwrap(),
        ],
    })
    .unwrap();

    let amount_in = u(5_000_000_000_000_000);
    let (out, remaining) = pool.get_amount_out(false, amount_in).unwrap();
    assert!(remaining.is_zero());

    let sqrt60 = get_sqrt_ratio_at_tick(Tick::new(60).unwrap());
    let sqrt600 = get_sqrt_ratio_at_tick(Tick::new(600).unwrap());
    let step1 = compute_swap_step(
        SqrtPriceX96::new(q96()),
        sqrt60,
        Liquidity::new(l0),
        amount_in,
        true,
        3000,
    )
    .unwrap();
    let after1 =
        amount_in.checked_sub(step1.amount_in.checked_add(step1.fee_amount).unwrap()).unwrap();
    let step2 =
        compute_swap_step(sqrt60, sqrt600, Liquidity::new(2 * l0), after1, true, 3000).unwrap();
    assert_eq!(step1.sqrt_price_next, sqrt60); // step 1 actually reached and crossed tick 60
    assert_eq!(out, step1.amount_out.checked_add(step2.amount_out).unwrap());
}

// The current range holds zero liquidity; the swap must hop it at zero cost and resume in the
// funded range past tick 60.
#[test]
fn zero_liquidity_gap_is_traversed() {
    let l1 = 1_000_000_000_000_000_000u128;
    let net = i128::try_from(l1).unwrap();
    let pool = V3Pool::new(PoolStateV3Params {
        token0: addr(1),
        token1: addr(2),
        tick: Tick::new(0).unwrap(),
        tick_liquidity_net: 0,
        tick_spacing: 60,
        fee: 3000,
        sqrt_price_x96: SqrtPriceX96::new(q96()),
        liquidity: Liquidity::new(0),
        zero_for_one_ticks: vec![],
        one_for_zero_ticks: vec![
            TickData::new(60, true, net).unwrap(),
            TickData::new(600, true, -net).unwrap(),
        ],
    })
    .unwrap();

    let (out, remaining) = pool.get_amount_out(false, u(1_000_000_000)).unwrap();
    assert!(out > U256::zero());
    assert!(remaining.is_zero());
}

#[test]
fn v3_invalid_fee_is_rejected() {
    let result = V3Pool::new(PoolStateV3Params {
        token0: addr(1),
        token1: addr(2),
        tick: Tick::new(0).unwrap(),
        tick_liquidity_net: 0,
        tick_spacing: 60,
        fee: 1_000_000,
        sqrt_price_x96: SqrtPriceX96::new(q96()),
        liquidity: Liquidity::new(1),
        zero_for_one_ticks: vec![],
        one_for_zero_ticks: vec![],
    });
    assert_eq!(result.unwrap_err(), QuoteError::InvalidFee);
}

#[test]
fn v3_accessors_return_the_snapshot() {
    let pool = pool_with_range(1_000_000);
    assert_eq!(pool.token0(), addr(1));
    assert_eq!(pool.token1(), addr(2));
    assert_eq!(pool.fee(), 3000);
    assert_eq!(pool.tick_spacing(), 60);
    assert_eq!(pool.liquidity(), Liquidity::new(1_000_000));
    assert_eq!(pool.sqrt_price_x96(), SqrtPriceX96::new(q96()));
    assert_eq!(pool.ticks().len(), 3);
}

#[test]
fn cross_tick_overflow_is_reported() {
    assert_eq!(cross_tick(Liquidity::new(u128::MAX), 1, false), Err(QuoteError::Overflow));
    // |i128::MIN| = 2^127 is handled without overflow.
    assert_eq!(cross_tick(Liquidity::new(5), i128::MIN, true).unwrap().get(), 5 + (1u128 << 127));
}

#[test]
fn v3_more_input_never_less_output_on_samples() {
    let pool = pool_with_range(1_000_000_000_000_000_000);
    let mut last = U256::zero();
    for a in [1u64, 10, 1000, 1_000_000, 1_000_000_000, 4_999_999_999, 5_000_000_000] {
        let (out, _) = pool.get_amount_out(true, u(a)).unwrap();
        assert!(out >= last);
        last = out;
    }
}

#[test]
fn below_ticks_are_stored_farthest_first() {
    let pool = V3Pool::new(PoolStateV3Params {
        token0: addr(1),
        token1: addr(2),
        tick: Tick::new(0).unwrap(),
        tick_liquidity_net: 7,
        tick_spacing: 60,
        fee: 3000,
        sqrt_price_x96: SqrtPriceX96::new(q96()),
        liquidity: Liquidity::new(1),
        zero_for_one_ticks: vec![
            TickData::new(-60, true, 1).unwrap(),
            TickData::new(-120, false, 2).unwrap(),
        ],
        one_for_zero_ticks: vec![TickData::new(60, true, 3).unwrap()],
    })
    .unwrap();
    let ticks: Vec<i32> = pool.ticks().iter().map(|t| t.tick.get()).collect();
    assert_eq!(ticks, vec![-120, -60, 0, 60]);
    assert_eq!(pool.current_tick_index(), 2);
    assert_eq!(pool.current_tick_data().liquidity_net, 7);
    assert!(pool.current_tick_data().initialized);
}

#[test]
fn current_tick_liquidity_net_does_not_change_quotes() {
    let build = |current_net: i128| {
        V3Pool::new(PoolStateV3Params {
            token0: addr(1),
            token1: addr(2),
            tick: Tick::new(0).unwrap(),
            tick_liquidity_net: current_net,
            tick_spacing: 60,
            fee: 3000,
            sqrt_price_x96: SqrtPriceX96::new(q96()),
            liquidity: Liquidity::new(1_000_000_000_000_000_000),
            zero_for_one_ticks: vec![TickData::new(-600, true, 1_000_000_000_000_000_000).unwrap()],
            one_for_zero_ticks: vec![TickData::new(600, true, -1_000_000_000_000_000_000).unwrap()],
        })
        .unwrap()
    };
    let a = build(0);
    let b = build(-123_456_789_000_000_000);
    for zero_for_one in [true, false] {
        for amount in [1u64, 1_000_000, 5_000_000_000, 1_000_000_000_000_000_000] {
            assert_eq!(
                a.get_amount_out(zero_for_one, u(amount)),
                b.get_amount_out(zero_for_one, u(amount))
            );
            assert_eq!(
                a.get_amount_in(zero_for_one, u(amount)),
                b.get_amount_in(zero_for_one, u(amount))
            );
        }
    }
}

#[test]
fn leftover_only_when_the_loaded_ticks_run_out() {
    let pool = pool_with_range(1_000_000_000_000_000_000);
    // Within the loaded range nothing is left over.
    let (_, remaining) = pool.get_amount_out(true, u(1_000_000)).unwrap();
    assert!(remaining.is_zero());
    // Past the last loaded tick the rest is reported back.
    let (_, remaining) = pool.get_amount_out(true, U256::from_u128(u128::MAX)).unwrap();
    assert!(!remaining.is_zero());
}
