# dex_quote_engine

Exact-integer Uniswap V2 and V3 swap quotes, verified with Verus.

Given a pool snapshot, the library computes how many tokens come out for a given input
(`get_amount_out`) or how many must go in for a wanted output (`get_amount_in`), with the same
256-bit integer arithmetic and rounding as the on-chain contracts.

## Layout

- `src/uint.rs` — 256/512-bit unsigned and 256-bit signed integers with numeric views; the
  arithmetic is performed by `alloy_primitives` behind small trusted wrappers whose contracts state
  what each operation returns.
- `src/math.rs` — `mul_div` / `mul_div_rounding_up` through a 512-bit intermediate.
- `src/v2/` — the constant-product pool (`V2Pool`).
- `src/v3/` — tick math, sqrt-price math, the single swap step, and the tick-walking pool
  (`V3Pool`).
- `tests/` — example-based tests.
- `app/` — a displayable error type (via `thiserror`) and conversions to `alloy_primitives::U256`.

Every public function states its exact result (including each error case) as a spec function
over natural numbers; the laws of the library (rounding bounds, monotonicity, fund safety of a
swap step, …) are public proof functions next to the code they are about. The one law that
rests on an executed check rather than on a proof alone is the floor / round-trip law of
`get_tick_at_sqrt_ratio`: it is proved from a per-tick window condition, and the verified
checker `check_tick_windows` confirms that condition for every tick in the test suite.
