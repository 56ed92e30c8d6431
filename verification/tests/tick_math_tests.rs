use dex_quote_engine::v3::constants::{MAX_TICK, MIN_TICK, max_sqrt_ratio, min_sqrt_ratio, q96};
use dex_quote_engine::v3::tick_math::{get_sqrt_ratio_at_tick, get_tick_at_sqrt_ratio};
use dex_quote_engine::v3::{SqrtPriceX96, Tick};
use dex_quote_engine::{QuoteError, U256};

fn tick(t: i32) -> Tick {
    Tick::new(t).unwrap()
}

#[test]
fn sqrt_ratio_at_tick_zero_is_q96() {
    assert_eq!(get_sqrt_ratio_at_tick(tick(0)).get(), q96());
}

#[test]
fn sqrt_ratio_at_min_tick_is_min_sqrt_ratio() {
    assert_eq!(get_sqrt_ratio_at_tick(tick(MIN_TICK)).get(), min_sqrt_ratio());
}

#[test]
fn sqrt_ratio_at_max_tick_is_max_sqrt_ratio() {
    assert_eq!(get_sqrt_ratio_at_tick(tick(MAX_TICK)).get(), max_sqrt_ratio());
}

#[test]
fn sqrt_ratio_is_monotonic_across_zero() {
    assert!(get_sqrt_ratio_at_tick(tick(-1)).get() < get_sqrt_ratio_at_tick(tick(0)).get());
    assert!(get_sqrt_ratio_at_tick(tick(0)).get() < get_sqrt_ratio_at_tick(tick(1)).get());
}

#[test]
fn tick_at_q96_is_zero() {
    let q = SqrtPriceX96::new(q96());
    assert_eq!(get_tick_at_sqrt_ratio(q).unwrap(), tick(0));
}

#[test]
fn tick_at_min_sqrt_ratio_is_min_tick() {
    let p = SqrtPriceX96::new(min_sqrt_ratio());
    assert_eq!(get_tick_at_sqrt_ratio(p).unwrap(), tick(MIN_TICK));
}

#[test]
fn sqrt_price_out_of_range_is_rejected() {
    let too_low = SqrtPriceX96::new(min_sqrt_ratio().checked_sub(U256::one()).unwrap());
    assert_eq!(get_tick_at_sqrt_ratio(too_low), Err(QuoteError::SqrtPriceOutOfRange));
    let too_high = SqrtPriceX96::new(max_sqrt_ratio());
    assert_eq!(get_tick_at_sqrt_ratio(too_high), Err(QuoteError::SqrtPriceOutOfRange));
}

#[test]
fn tick_round_trips_through_sqrt_ratio_on_samples() {
    for t in [MIN_TICK, -600_000, -887, -61, -60, -1, 0, 1, 59, 60, 600, 10_000, 500_000, MAX_TICK - 1]
    {
        let recovered = get_tick_at_sqrt_ratio(get_sqrt_ratio_at_tick(tick(t))).unwrap();
        assert_eq!(recovered.get(), t);
    }
}

#[test]
fn tick_at_sqrt_ratio_is_a_floor_on_samples() {
    for t in [MIN_TICK + 1, -600_000, -61, -1, 1, 60, 600, 500_000, MAX_TICK - 1] {
        let p = get_sqrt_ratio_at_tick(tick(t)).get();
        let below = SqrtPriceX96::new(p.checked_sub(U256::one()).unwrap());
        let recovered = get_tick_at_sqrt_ratio(below).unwrap();
        assert_eq!(recovered.get(), t - 1);
    }
}

#[test]
fn sqrt_ratio_at_known_ticks() {
    // Values of the on-chain `TickMath.getSqrtRatioAtTick`.
    assert_eq!(
        get_sqrt_ratio_at_tick(tick(60)).get(),
        U256::from_u128(79466191966197645195421774833)
    );
    assert_eq!(
        get_sqrt_ratio_at_tick(tick(-60)).get(),
        U256::from_u128(78990846045029531151608375686)
    );
}

#[test]
fn tick_new_rejects_out_of_range() {
    assert_eq!(Tick::new(MAX_TICK + 1), Err(QuoteError::TickOutOfRange(MAX_TICK + 1)));
    assert_eq!(Tick::new(MIN_TICK - 1), Err(QuoteError::TickOutOfRange(MIN_TICK - 1)));
    assert_eq!(Tick::new(MAX_TICK).unwrap().get(), MAX_TICK);
}

#[test]
fn sqrt_ratio_increases_and_stays_in_range_on_samples() {
    let samples = [
        MIN_TICK,
        MIN_TICK + 1,
        -524_289,
        -524_288,
        -1_024,
        -1_023,
        -2,
        -1,
        0,
        1,
        2,
        1_023,
        1_024,
        524_287,
        524_288,
        MAX_TICK - 1,
        MAX_TICK,
    ];
    let mut last: Option<U256> = None;
    for t in samples {
        let p = get_sqrt_ratio_at_tick(tick(t)).get();
        assert!(min_sqrt_ratio() <= p && p <= max_sqrt_ratio());
        if let Some(prev) = last {
            assert!(prev < p);
        }
        last = Some(p);
    }
}

#[test]
fn every_in_range_price_has_a_tick_on_samples() {
    let min = min_sqrt_ratio();
    let max = max_sqrt_ratio();
    let one = U256::one();
    let samples = [
        min,
        min.checked_add(one).unwrap(),
        q96(),
        q96().checked_sub(one).unwrap(),
        max.checked_sub(one).unwrap(),
        max.checked_sub(U256::from_u64(1_000_000)).unwrap(),
    ];
    for p in samples {
        let t = get_tick_at_sqrt_ratio(SqrtPriceX96::new(p)).unwrap();
        assert!(MIN_TICK <= t.get() && t.get() <= MAX_TICK);
    }
    assert_eq!(
        get_tick_at_sqrt_ratio(SqrtPriceX96::new(max.checked_sub(one).unwrap())).unwrap().get(),
        MAX_TICK - 1
    );
}
