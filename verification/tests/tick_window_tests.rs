use dex_quote_engine::v3::constants::{MAX_TICK, MIN_TICK};
use dex_quote_engine::v3::tick_math::{check_tick_windows, get_sqrt_ratio_at_tick, get_tick_at_sqrt_ratio};
use dex_quote_engine::v3::{SqrtPriceX96, Tick};

// `check_tick_windows` is verified to return `true` only when every tick it covers has its
// candidate window; the floor and round-trip laws of `get_tick_at_sqrt_ratio` are proved from
// the windows of all ticks in `(MIN_TICK, MAX_TICK]`.
#[test]
fn tick_windows_hold_for_every_tick() {
    assert!(check_tick_windows(MIN_TICK, MAX_TICK));
}

#[test]
fn tick_windows_checker_accepts_an_empty_range() {
    assert!(check_tick_windows(10, 5));
    assert!(check_tick_windows(MIN_TICK, MIN_TICK));
}

#[test]
fn round_trip_at_range_edges() {
    for t in [MIN_TICK, MIN_TICK + 1, -1, 0, 1, MAX_TICK - 1] {
        let p = get_sqrt_ratio_at_tick(Tick::new(t).unwrap());
        assert_eq!(get_tick_at_sqrt_ratio(p).unwrap().get(), t);
        let below = SqrtPriceX96::new(p.get().checked_sub(dex_quote_engine::U256::one()).unwrap());
        if t > MIN_TICK {
            assert_eq!(get_tick_at_sqrt_ratio(below).unwrap().get(), t - 1);
        }
    }
}
