//! The [`V3Pool`] snapshot and its tick-array swap loop.
//!
//! The pool holds an ordered tick array laid out as `reverse(zero_for_one_ticks) ++ current_tick
//! ++ one_for_zero_ticks`, with `current_tick_index` marking the current position. A swap starts
//! at the array slot **adjacent** to the current tick (`current_tick_index ∓ 1`) and walks
//! outward by index (∓1 per iteration), running one [`compute_swap_step`] per range. It stops when
//! the amount is spent, the price limit is reached, or the pre-loaded array is exhausted.
use vstd::prelude::*;

use alloy_primitives::Address;

use crate::error::QuoteError;
use crate::uint::{U256, lemma_u256_bound, p256};
use crate::v3::constants::{
    PIPS_DENOMINATOR, max_sqrt_ratio, max_sqrt_ratio_nat, min_sqrt_ratio, min_sqrt_ratio_nat,
};
use crate::v3::sqrt_price_math::{max_nat, min_nat};
use crate::v3::swap_math::{compute_swap_step, lemma_exact_in_step_monotone, swap_step_spec};
use crate::v3::tick_math::{get_sqrt_ratio_at_tick, sqrt_ratio_at_tick_spec};
use crate::v3::types::{Liquidity, SqrtPriceX96, Tick};

verus! {

broadcast use lemma_u256_bound;

/// An initialized tick and its net liquidity change (crossing upward adds it).
#[derive(Debug, Clone, Copy, PartialEq, Eq, Structural)]
pub struct TickData {
    /// The tick index.
    pub tick: Tick,
    /// Whether this tick is initialized (its liquidity net is applied when crossed).
    pub initialized: bool,
    /// Signed liquidity delta applied when crossing this tick upward.
    pub liquidity_net: i128,
}

impl TickData {
    /// Creates tick data, validating the tick range.
    ///
    /// # Errors
    /// [`QuoteError::TickOutOfRange`] if `tick` is out of range.
    pub fn new(tick: i32, initialized: bool, liquidity_net: i128) -> (r: Result<Self, QuoteError>)
        ensures
            crate::v3::constants::MIN_TICK <= tick <= crate::v3::constants::MAX_TICK ==> (r matches Ok(
                d,
            ) && d.tick@ == tick && d.initialized == initialized && d.liquidity_net
                == liquidity_net),
            !(crate::v3::constants::MIN_TICK <= tick <= crate::v3::constants::MAX_TICK) ==> r
                == Err::<Self, QuoteError>(QuoteError::TickOutOfRange(tick)),
    {
        let tick = match Tick::new(tick) {
            Ok(t) => t,
            Err(e) => return Err(e),
        };
        Ok(Self { tick, initialized, liquidity_net })
    }
}

/// Construction parameters for a [`V3Pool`] snapshot. `zero_for_one_ticks` and
/// `one_for_zero_ticks` are the pre-loaded ticks below/above the current price, each in crossing
/// order (nearest first).
#[derive(Debug, Clone)]
pub struct PoolStateV3Params {
    /// The pool's `token0` address.
    pub token0: Address,
    /// The pool's `token1` address.
    pub token1: Address,
    /// The current tick.
    pub tick: Tick,
    /// The current tick's net liquidity (unused by the loop; the current tick is never re-crossed).
    pub tick_liquidity_net: i128,
    /// The pool's tick spacing.
    pub tick_spacing: i32,
    /// The fee in pips.
    pub fee: u32,
    /// The current sqrt price (Q64.96).
    pub sqrt_price_x96: SqrtPriceX96,
    /// The current active liquidity.
    pub liquidity: Liquidity,
    /// Pre-loaded ticks below the current price, in crossing order (nearest below first).
    pub zero_for_one_ticks: Vec<TickData>,
    /// Pre-loaded ticks above the current price, in crossing order (nearest above first).
    pub one_for_zero_ticks: Vec<TickData>,
}

/// The tick array a pool is built with: `reverse(zero_for_one_ticks) ++ [current] ++
/// one_for_zero_ticks`, where the current tick counts as initialized.
pub open spec fn assembled_ticks(params: PoolStateV3Params) -> Seq<TickData> {
    params.zero_for_one_ticks@.reverse() + seq![
        TickData {
            tick: params.tick,
            initialized: true,
            liquidity_net: params.tick_liquidity_net,
        },
    ] + params.one_for_zero_ticks@
}

/// The widest price limit for a direction: `MIN_SQRT_RATIO + 1` going down, `MAX_SQRT_RATIO - 1`
/// going up.
pub open spec fn default_limit_nat(zero_for_one: bool) -> nat {
    if zero_for_one {
        min_sqrt_ratio_nat() + 1
    } else {
        (max_sqrt_ratio_nat() - 1) as nat
    }
}

/// The next array slot outward from `index`: one lower going down, one higher (in bounds) going
/// up.
pub open spec fn next_cursor(index: int, zero_for_one: bool, len: int) -> Option<int> {
    if zero_for_one {
        if index >= 1 {
            Some(index - 1)
        } else {
            None
        }
    } else {
        if index + 1 < len {
            Some(index + 1)
        } else {
            None
        }
    }
}

/// How many slots are left to visit from a cursor.
pub open spec fn cursor_measure(cursor: Option<int>, zero_for_one: bool, len: int) -> nat {
    match cursor {
        None => 0,
        Some(i) => if zero_for_one {
            (i + 1) as nat
        } else {
            (len - i) as nat
        },
    }
}

/// What crossing a tick does to the liquidity: moving up (`!zero_for_one`) adds `net`, moving
/// down subtracts it. Going above `u128::MAX` is an overflow; going below zero is insufficient
/// liquidity.
pub open spec fn cross_tick_spec(liquidity: nat, net: int, zero_for_one: bool) -> Result<
    nat,
    QuoteError,
> {
    let magnitude: nat = if net >= 0 {
        net as nat
    } else {
        (-net) as nat
    };
    if (net >= 0) != zero_for_one {
        if liquidity + magnitude > u128::MAX {
            Err(QuoteError::Overflow)
        } else {
            Ok(liquidity + magnitude)
        }
    } else {
        if liquidity < magnitude {
            Err(QuoteError::InsufficientLiquidity)
        } else {
            Ok((liquidity - magnitude) as nat)
        }
    }
}

/// The swap loop, from a cursor position and running state to `(amount_calculated,
/// amount_remaining)`.
///
/// Each iteration targets the price of the tick under the cursor (clamped to the direction's
/// default limit), runs one swap step, charges `amount_in + fee` against the remaining amount for
/// exact input (the output for exact output), credits the other side, crosses the tick when the
/// price landed exactly on an initialized tick, and moves the cursor outward. It stops when
/// nothing remains, the price is at the limit, or the ticks run out.
pub open spec fn swap_loop(
    ticks: Seq<TickData>,
    fee: nat,
    zero_for_one: bool,
    exact_in: bool,
    cursor: Option<int>,
    price: nat,
    liquidity: nat,
    remaining: nat,
    calculated: nat,
) -> Result<(nat, nat), QuoteError>
    decreases cursor_measure(cursor, zero_for_one, ticks.len() as int),
{
    if remaining == 0 || price == default_limit_nat(zero_for_one) {
        Ok((calculated, remaining))
    } else {
        match cursor {
            None => Ok((calculated, remaining)),
            Some(index) => if !(0 <= index < ticks.len()) {
                Ok((calculated, remaining))
            } else {
                let data = ticks[index];
                let tick_price = sqrt_ratio_at_tick_spec(data.tick@);
                let target = if zero_for_one {
                    max_nat(tick_price, default_limit_nat(zero_for_one))
                } else {
                    min_nat(tick_price, default_limit_nat(zero_for_one))
                };
                match swap_step_spec(price, target, liquidity, remaining, exact_in, fee) {
                    Err(e) => Err(e),
                    Ok(step) => {
                        let step_input = step.1 + step.3;
                        let spent = if exact_in {
                            step_input
                        } else {
                            step.2
                        };
                        let gained = if exact_in {
                            step.2
                        } else {
                            step_input
                        };
                        if step_input >= p256() {
                            Err(QuoteError::Overflow)
                        } else if remaining < spent {
                            Err(QuoteError::Overflow)
                        } else if calculated + gained >= p256() {
                            Err(QuoteError::Overflow)
                        } else {
                            let crossed = if step.0 == tick_price && data.initialized {
                                cross_tick_spec(liquidity, data.liquidity_net as int, zero_for_one)
                            } else {
                                Ok(liquidity)
                            };
                            match crossed {
                                Err(e) => Err(e),
                                Ok(new_liquidity) => swap_loop(
                                    ticks,
                                    fee,
                                    zero_for_one,
                                    exact_in,
                                    next_cursor(index, zero_for_one, ticks.len() as int),
                                    step.0,
                                    new_liquidity,
                                    (remaining - spent) as nat,
                                    calculated + gained,
                                ),
                            }
                        }
                    },
                }
            },
        }
    }
}

/// Where the swap loop stops, as `(cursor, price)`: it follows the same steps as [`swap_loop`]
/// and reports the cursor and price of the iteration that ended the walk.
pub open spec fn swap_loop_stop(
    ticks: Seq<TickData>,
    fee: nat,
    zero_for_one: bool,
    exact_in: bool,
    cursor: Option<int>,
    price: nat,
    liquidity: nat,
    remaining: nat,
    calculated: nat,
) -> (Option<int>, nat)
    decreases cursor_measure(cursor, zero_for_one, ticks.len() as int),
{
    if remaining == 0 || price == default_limit_nat(zero_for_one) {
        (cursor, price)
    } else {
        match cursor {
            None => (cursor, price),
            Some(index) => if !(0 <= index < ticks.len()) {
                (cursor, price)
            } else {
                let data = ticks[index];
                let tick_price = sqrt_ratio_at_tick_spec(data.tick@);
                let target = if zero_for_one {
                    max_nat(tick_price, default_limit_nat(zero_for_one))
                } else {
                    min_nat(tick_price, default_limit_nat(zero_for_one))
                };
                match swap_step_spec(price, target, liquidity, remaining, exact_in, fee) {
                    Err(_) => (cursor, price),
                    Ok(step) => {
                        let step_input = step.1 + step.3;
                        let spent = if exact_in {
                            step_input
                        } else {
                            step.2
                        };
                        let gained = if exact_in {
                            step.2
                        } else {
                            step_input
                        };
                        let crossed = if step.0 == tick_price && data.initialized {
                            cross_tick_spec(liquidity, data.liquidity_net as int, zero_for_one)
                        } else {
                            Ok(liquidity)
                        };
                        if step_input >= p256() || remaining < spent || calculated + gained
                            >= p256() || crossed is Err {
                            (cursor, price)
                        } else {
                            swap_loop_stop(
                                ticks,
                                fee,
                                zero_for_one,
                                exact_in,
                                next_cursor(index, zero_for_one, ticks.len() as int),
                                step.0,
                                crossed->Ok_0,
                                (remaining - spent) as nat,
                                calculated + gained,
                            )
                        }
                    },
                }
            },
        }
    }
}

/// The numeric view of a fallible pair of amounts.
pub open spec fn lift_pair(r: Result<(U256, U256), QuoteError>) -> Result<(nat, nat), QuoteError> {
    match r {
        Ok(v) => Ok((v.0@, v.1@)),
        Err(e) => Err(e),
    }
}

/// A concentrated-liquidity pool snapshot. Quotes are pure and take `&self`.
#[derive(Debug)]
pub struct V3Pool {
    token0: Address,
    token1: Address,
    tick_spacing: i32,
    fee: u32,
    liquidity: Liquidity,
    sqrt_price_x96: SqrtPriceX96,
    ticks: Vec<TickData>,
    current_tick_index: usize,
}

impl V3Pool {
    #[verifier::type_invariant]
    spec fn well_formed(self) -> bool {
        &&& self.fee < PIPS_DENOMINATOR
        &&& self.tick_spacing > 0
        &&& self.current_tick_index < self.ticks@.len()
    }

    /// The pool's `token0` address.
    pub closed spec fn token0_view(self) -> Address {
        self.token0
    }

    /// The pool's `token1` address.
    pub closed spec fn token1_view(self) -> Address {
        self.token1
    }

    /// The tick spacing.
    pub closed spec fn tick_spacing_view(self) -> int {
        self.tick_spacing as int
    }

    /// The fee in pips.
    pub closed spec fn fee_view(self) -> nat {
        self.fee as nat
    }

    /// The current active liquidity.
    pub closed spec fn liquidity_view(self) -> nat {
        self.liquidity@
    }

    /// The current sqrt price.
    pub closed spec fn sqrt_price_view(self) -> nat {
        self.sqrt_price_x96@
    }

    /// The ordered tick array.
    pub closed spec fn ticks_view(self) -> Seq<TickData> {
        self.ticks@
    }

    /// The position of the current tick in the tick array.
    pub closed spec fn current_tick_index_view(self) -> int {
        self.current_tick_index as int
    }

    /// What a quote returns, as `(amount_calculated, amount_remaining)`: the swap loop started
    /// next to the current tick with the pool's price and liquidity, the given amount remaining
    /// and nothing calculated yet.
    pub open spec fn quote_spec(self, zero_for_one: bool, amount: nat, exact_in: bool) -> Result<
        (nat, nat),
        QuoteError,
    > {
        swap_loop(
            self.ticks_view(),
            self.fee_view(),
            zero_for_one,
            exact_in,
            next_cursor(self.current_tick_index_view(), zero_for_one, self.ticks_view().len() as int),
            self.sqrt_price_view(),
            self.liquidity_view(),
            amount,
            0,
        )
    }

    /// Builds a pool from a state snapshot, assembling the tick array as
    /// `reverse(zero_for_one_ticks) ++ current_tick ++ one_for_zero_ticks`.
    ///
    /// # Errors
    /// [`QuoteError::InvalidFee`] if `fee` is not below [`PIPS_DENOMINATOR`];
    /// [`QuoteError::InvalidTickSpacing`] if `tick_spacing` is not positive.
    pub fn new(params: PoolStateV3Params) -> (r: Result<Self, QuoteError>)
        ensures
            params.fee >= PIPS_DENOMINATOR ==> r == Err::<Self, QuoteError>(QuoteError::InvalidFee),
            params.fee < PIPS_DENOMINATOR && params.tick_spacing <= 0 ==> r == Err::<
                Self,
                QuoteError,
            >(QuoteError::InvalidTickSpacing(params.tick_spacing)),
            params.fee < PIPS_DENOMINATOR && params.tick_spacing > 0 ==> (r matches Ok(p) && {
                &&& p.token0_view() == params.token0
                &&& p.token1_view() == params.token1
                &&& p.tick_spacing_view() == params.tick_spacing
                &&& p.fee_view() == params.fee
                &&& p.liquidity_view() == params.liquidity@
                &&& p.sqrt_price_view() == params.sqrt_price_x96@
                &&& p.ticks_view() == assembled_ticks(params)
                &&& p.current_tick_index_view() == params.zero_for_one_ticks@.len()
            }),
    {
        if params.fee >= PIPS_DENOMINATOR {
            return Err(QuoteError::InvalidFee);
        }
        if params.tick_spacing <= 0 {
            return Err(QuoteError::InvalidTickSpacing(params.tick_spacing));
        }
        let below = &params.zero_for_one_ticks;
        let n = below.len();
        let mut ticks: Vec<TickData> = Vec::new();
        let mut j: usize = 0;
        while j < n
            invariant
                n == below@.len(),
                j <= n,
                ticks@.len() == j,
                forall|i: int| 0 <= i < j ==> ticks@[i] == below@[n - 1 - i],
            decreases n - j,
        {
            ticks.push(below[n - 1 - j]);
            j = j + 1;
        }
        assert(ticks@ =~= below@.reverse());
        let current_tick_index = ticks.len();
        ticks.push(
            TickData {
                tick: params.tick,
                initialized: true,
                liquidity_net: params.tick_liquidity_net,
            },
        );
        let above = &params.one_for_zero_ticks;
        let ghost prefix = ticks@;
        let m = above.len();
        let mut k: usize = 0;
        while k < m
            invariant
                m == above@.len(),
                k <= m,
                ticks@ =~= prefix + above@.subrange(0, k as int),
            decreases m - k,
        {
            ticks.push(above[k]);
            k = k + 1;
        }
        assert(above@.subrange(0, m as int) =~= above@);
        Ok(
            Self {
                token0: params.token0,
                token1: params.token1,
                tick_spacing: params.tick_spacing,
                fee: params.fee,
                liquidity: params.liquidity,
                sqrt_price_x96: params.sqrt_price_x96,
                ticks,
                current_tick_index,
            },
        )
    }

    /// The pool's `token0` address.
    pub fn token0(&self) -> (r: Address)
        ensures
            r == self.token0_view(),
    {
        self.token0
    }

    /// The pool's `token1` address.
    pub fn token1(&self) -> (r: Address)
        ensures
            r == self.token1_view(),
    {
        self.token1
    }

    /// The current sqrt price (Q64.96).
    pub fn sqrt_price_x96(&self) -> (r: SqrtPriceX96)
        ensures
            r@ == self.sqrt_price_view(),
    {
        self.sqrt_price_x96
    }

    /// The current active liquidity.
    pub fn liquidity(&self) -> (r: Liquidity)
        ensures
            r@ == self.liquidity_view(),
    {
        self.liquidity
    }

    /// The fee in pips.
    pub fn fee(&self) -> (r: u32)
        ensures
            r == self.fee_view(),
            r < PIPS_DENOMINATOR,
    {
        proof {
            use_type_invariant(self);
        }
        self.fee
    }

    /// The pool's tick spacing.
    pub fn tick_spacing(&self) -> (r: i32)
        ensures
            r == self.tick_spacing_view(),
            r > 0,
    {
        proof {
            use_type_invariant(self);
        }
        self.tick_spacing
    }

    /// The position of the current tick in the tick array.
    pub fn current_tick_index(&self) -> (r: usize)
        ensures
            r == self.current_tick_index_view(),
            r < self.ticks_view().len(),
    {
        proof {
            use_type_invariant(self);
        }
        self.current_tick_index
    }

    /// The ordered tick array: the ticks below the current one (farthest first), the current
    /// tick, then the ticks above it (nearest first).
    pub fn ticks(&self) -> (r: &Vec<TickData>)
        ensures
            r@ == self.ticks_view(),
    {
        &self.ticks
    }

    /// The tick data currently pointed at by `current_tick_index`.
    pub fn current_tick_data(&self) -> (r: TickData)
        ensures
            r == self.ticks_view()[self.current_tick_index_view()],
    {
        proof {
            use_type_invariant(self);
        }
        self.ticks[self.current_tick_index]
    }

    /// Returns `(amount_out, amount_remaining)` for an exact `amount_in` in the given direction.
    /// `amount_remaining` is non-zero when the pre-loaded ticks are exhausted before the input
    /// is.
    ///
    /// # Errors
    /// Arithmetic errors from the step math and from crossing ticks.
    pub fn get_amount_out(&self, zero_for_one: bool, amount_in: U256) -> (r: Result<
        (U256, U256),
        QuoteError,
    >)
        ensures
            lift_pair(r) == self.quote_spec(zero_for_one, amount_in@, true),
    {
        if amount_in.is_zero() {
            return Ok((U256::zero(), U256::zero()));
        }
        self.run_swap(zero_for_one, amount_in, true)
    }

    /// Returns `(amount_in, amount_remaining)` for an exact `amount_out` in the given direction.
    /// `amount_remaining` is non-zero when the pre-loaded ticks are exhausted before the output is
    /// fully delivered.
    ///
    /// # Errors
    /// Arithmetic errors from the step math and from crossing ticks.
    pub fn get_amount_in(&self, zero_for_one: bool, amount_out: U256) -> (r: Result<
        (U256, U256),
        QuoteError,
    >)
        ensures
            lift_pair(r) == self.quote_spec(zero_for_one, amount_out@, false),
    {
        if amount_out.is_zero() {
            return Ok((U256::zero(), U256::zero()));
        }
        self.run_swap(zero_for_one, amount_out, false)
    }

    fn run_swap(&self, zero_for_one: bool, amount_specified: U256, exact_in: bool) -> (r: Result<
        (U256, U256),
        QuoteError,
    >)
        ensures
            lift_pair(r) == self.quote_spec(zero_for_one, amount_specified@, exact_in),
    {
        proof {
            use_type_invariant(self);
        }
        let sqrt_limit = default_limit(zero_for_one);
        let mut sqrt_price = self.sqrt_price_x96;
        let mut liquidity = self.liquidity;
        let mut amount_remaining = amount_specified;
        let mut amount_calculated = U256::zero();
        let len = self.ticks.len();
        let ghost ticks = self.ticks@;
        let ghost fee = self.fee as nat;

        // Start adjacent to the current tick; the current tick itself is never re-crossed.
        let mut cursor = step_cursor(self.current_tick_index, zero_for_one, len);

        loop
            invariant
                len == ticks.len(),
                ticks == self.ticks@,
                fee == self.fee,
                sqrt_limit@ == default_limit_nat(zero_for_one),
                cursor matches Some(i) ==> i < len,
                swap_loop(
                    ticks,
                    fee,
                    zero_for_one,
                    exact_in,
                    opt_int(cursor),
                    sqrt_price@,
                    liquidity@,
                    amount_remaining@,
                    amount_calculated@,
                ) == self.quote_spec(zero_for_one, amount_specified@, exact_in),
            decreases cursor_measure(opt_int(cursor), zero_for_one, len as int),
        {
            if amount_remaining.is_zero() || sqrt_price.get().eq_value(&sqrt_limit.get()) {
                return Ok((amount_calculated, amount_remaining));
            }
            let index = match cursor {
                Some(i) => i,
                None => return Ok((amount_calculated, amount_remaining)),
            };
            let tick_data = self.ticks[index];

            let sqrt_next_tick = get_sqrt_ratio_at_tick(tick_data.tick);
            let sqrt_target = if zero_for_one {
                if sqrt_next_tick.get().lt_value(&sqrt_limit.get()) {
                    sqrt_limit
                } else {
                    sqrt_next_tick
                }
            } else {
                if sqrt_limit.get().lt_value(&sqrt_next_tick.get()) {
                    sqrt_limit
                } else {
                    sqrt_next_tick
                }
            };

            let step = match compute_swap_step(
                sqrt_price,
                sqrt_target,
                liquidity,
                amount_remaining,
                exact_in,
                self.fee,
            ) {
                Ok(s) => s,
                Err(e) => return Err(e),
            };
            sqrt_price = step.sqrt_price_next;

            let step_input = match step.amount_in.checked_add(step.fee_amount) {
                Some(v) => v,
                None => return Err(QuoteError::Overflow),
            };
            let (spent, gained) = if exact_in {
                (step_input, step.amount_out)
            } else {
                (step.amount_out, step_input)
            };
            amount_remaining = match amount_remaining.checked_sub(spent) {
                Some(v) => v,
                None => return Err(QuoteError::Overflow),
            };
            amount_calculated = match amount_calculated.checked_add(gained) {
                Some(v) => v,
                None => return Err(QuoteError::Overflow),
            };

            // Cross the tick only when the price actually landed on it.
            if sqrt_price.get().eq_value(&sqrt_next_tick.get()) && tick_data.initialized {
                liquidity = match cross_tick(liquidity, tick_data.liquidity_net, zero_for_one) {
                    Ok(l) => l,
                    Err(e) => return Err(e),
                };
            }

            cursor = step_cursor(index, zero_for_one, len);
        }
    }
}

impl Clone for V3Pool {
    fn clone(&self) -> (r: Self)
        ensures
            r.token0_view() == self.token0_view(),
            r.token1_view() == self.token1_view(),
            r.tick_spacing_view() == self.tick_spacing_view(),
            r.fee_view() == self.fee_view(),
            r.liquidity_view() == self.liquidity_view(),
            r.sqrt_price_view() == self.sqrt_price_view(),
            r.ticks_view() == self.ticks_view(),
            r.current_tick_index_view() == self.current_tick_index_view(),
    {
        proof {
            use_type_invariant(self);
        }
        let ticks = self.ticks.clone();
        assert(ticks@ =~= self.ticks@);
        V3Pool {
            token0: self.token0,
            token1: self.token1,
            tick_spacing: self.tick_spacing,
            fee: self.fee,
            liquidity: self.liquidity,
            sqrt_price_x96: self.sqrt_price_x96,
            ticks,
            current_tick_index: self.current_tick_index,
        }
    }
}

/// A cursor as a mathematical index.
pub open spec fn opt_int(cursor: Option<usize>) -> Option<int> {
    match cursor {
        Some(i) => Some(i as int),
        None => None,
    }
}

/// The next array slot outward from `index`: one lower going down, one higher (in bounds) going
/// up.
fn step_cursor(index: usize, zero_for_one: bool, len: usize) -> (r: Option<usize>)
    requires
        index < len,
    ensures
        opt_int(r) == next_cursor(index as int, zero_for_one, len as int),
        zero_for_one ==> r == (if index > 0 {
            Some((index - 1) as usize)
        } else {
            None
        }),
        !zero_for_one ==> r == (if index + 1 < len {
            Some((index + 1) as usize)
        } else {
            None
        }),
        r matches Some(j) ==> j < len && j != index,
{
    if zero_for_one {
        index.checked_sub(1)
    } else {
        if index + 1 < len {
            Some(index + 1)
        } else {
            None
        }
    }
}

/// The widest price limit for a direction (`MIN_SQRT_RATIO + 1` down, `MAX_SQRT_RATIO - 1` up).
fn default_limit(zero_for_one: bool) -> (r: SqrtPriceX96)
    ensures
        r@ == default_limit_nat(zero_for_one),
        zero_for_one ==> r@ == 4295128740nat,
        !zero_for_one ==> r@ == 1461446703485210103287273052203988822378723970341nat,
{
    if zero_for_one {
        SqrtPriceX96::new(crate::uint::u256_add(min_sqrt_ratio(), U256::one()))
    } else {
        SqrtPriceX96::new(crate::uint::u256_sub(max_sqrt_ratio(), U256::one()))
    }
}

/// Applies a tick's net liquidity when crossing it. Moving up (`!zero_for_one`) adds `net`;
/// moving down subtracts it.
///
/// # Errors
/// [`QuoteError::Overflow`] if the liquidity would exceed `u128::MAX`;
/// [`QuoteError::InsufficientLiquidity`] if it would go below zero.
pub fn cross_tick(liquidity: Liquidity, net: i128, zero_for_one: bool) -> (r: Result<
    Liquidity,
    QuoteError,
>)
    ensures
        match r {
            Ok(l) => cross_tick_spec(liquidity@, net as int, zero_for_one) == Ok::<nat, QuoteError>(
                l@,
            ),
            Err(e) => cross_tick_spec(liquidity@, net as int, zero_for_one) == Err::<nat, QuoteError>(
                e,
            ),
        },
{
    let base = liquidity.get();
    // `|net|`, computed so that `i128::MIN` does not overflow.
    let magnitude: u128 = if net >= 0 {
        net as u128
    } else {
        ((-(net + 1)) as u128) + 1
    };
    let add = (net >= 0) != zero_for_one;
    let updated = if add {
        match base.checked_add(magnitude) {
            Some(v) => v,
            None => return Err(QuoteError::Overflow),
        }
    } else {
        match base.checked_sub(magnitude) {
            Some(v) => v,
            None => return Err(QuoteError::InsufficientLiquidity),
        }
    };
    Ok(Liquidity::new(updated))
}

/// The swap loop never ends with more remaining or less calculated than it started with.
proof fn lemma_swap_loop_monotone(
    ticks: Seq<TickData>,
    fee: nat,
    zero_for_one: bool,
    exact_in: bool,
    cursor: Option<int>,
    price: nat,
    liquidity: nat,
    remaining: nat,
    calculated: nat,
)
    requires
        swap_loop(
            ticks,
            fee,
            zero_for_one,
            exact_in,
            cursor,
            price,
            liquidity,
            remaining,
            calculated,
        ) is Ok,
    ensures
        ({
            let out = swap_loop(
                ticks,
                fee,
                zero_for_one,
                exact_in,
                cursor,
                price,
                liquidity,
                remaining,
                calculated,
            )->Ok_0;
            out.1 <= remaining && out.0 >= calculated
        }),
    decreases cursor_measure(cursor, zero_for_one, ticks.len() as int),
{
    if remaining == 0 || price == default_limit_nat(zero_for_one) {
    } else {
        match cursor {
            None => {},
            Some(index) => {
                if 0 <= index < ticks.len() {
                    let data = ticks[index];
                    let tick_price = sqrt_ratio_at_tick_spec(data.tick@);
                    let target = if zero_for_one {
                        max_nat(tick_price, default_limit_nat(zero_for_one))
                    } else {
                        min_nat(tick_price, default_limit_nat(zero_for_one))
                    };
                    let step = swap_step_spec(price, target, liquidity, remaining, exact_in, fee)->Ok_0;
                    let step_input = step.1 + step.3;
                    let spent = if exact_in {
                        step_input
                    } else {
                        step.2
                    };
                    let gained = if exact_in {
                        step.2
                    } else {
                        step_input
                    };
                    let crossed = if step.0 == tick_price && data.initialized {
                        cross_tick_spec(liquidity, data.liquidity_net as int, zero_for_one)
                    } else {
                        Ok(liquidity)
                    };
                    lemma_swap_loop_monotone(
                        ticks,
                        fee,
                        zero_for_one,
                        exact_in,
                        next_cursor(index, zero_for_one, ticks.len() as int),
                        step.0,
                        crossed->Ok_0,
                        (remaining - spent) as nat,
                        calculated + gained,
                    );
                }
            },
        }
    }
}

/// A quote for a zero amount is `(0, 0)`.
pub proof fn lemma_v3_zero_amount_quotes_zero(pool: V3Pool, zero_for_one: bool, exact_in: bool)
    ensures
        pool.quote_spec(zero_for_one, 0, exact_in) == Ok::<(nat, nat), QuoteError>((0, 0)),
{
}

/// A quote never reports more left over than the amount asked for: in
/// `(amount_calculated, amount_remaining)`, `amount_remaining <= amount`.
pub proof fn lemma_v3_remaining_within_amount(
    pool: V3Pool,
    zero_for_one: bool,
    amount: nat,
    exact_in: bool,
)
    requires
        pool.quote_spec(zero_for_one, amount, exact_in) is Ok,
    ensures
        pool.quote_spec(zero_for_one, amount, exact_in)->Ok_0.1 <= amount,
{
    lemma_swap_loop_monotone(
        pool.ticks_view(),
        pool.fee_view(),
        zero_for_one,
        exact_in,
        next_cursor(
            pool.current_tick_index_view(),
            zero_for_one,
            pool.ticks_view().len() as int,
        ),
        pool.sqrt_price_view(),
        pool.liquidity_view(),
        amount,
        0,
    );
}

/// Two exact-input runs of the swap loop from the same position, price, liquidity and amount
/// calculated so far, the second with at least as much remaining: the second ends with at least
/// as much calculated.
#[verifier::spinoff_prover]
#[verifier::rlimit(50)]
proof fn lemma_swap_loop_exact_in_monotone(
    ticks: Seq<TickData>,
    fee: nat,
    zero_for_one: bool,
    cursor: Option<int>,
    price: nat,
    liquidity: nat,
    r1: nat,
    r2: nat,
    calculated: nat,
)
    requires
        r1 <= r2 < p256(),
        swap_loop(ticks, fee, zero_for_one, true, cursor, price, liquidity, r1, calculated) is Ok,
        swap_loop(ticks, fee, zero_for_one, true, cursor, price, liquidity, r2, calculated) is Ok,
    ensures
        swap_loop(ticks, fee, zero_for_one, true, cursor, price, liquidity, r1, calculated)->Ok_0.0
            <= swap_loop(
            ticks,
            fee,
            zero_for_one,
            true,
            cursor,
            price,
            liquidity,
            r2,
            calculated,
        )->Ok_0.0,
    decreases cursor_measure(cursor, zero_for_one, ticks.len() as int),
{
    let out1 = swap_loop(ticks, fee, zero_for_one, true, cursor, price, liquidity, r1, calculated);
    let out2 = swap_loop(ticks, fee, zero_for_one, true, cursor, price, liquidity, r2, calculated);
    lemma_swap_loop_monotone(ticks, fee, zero_for_one, true, cursor, price, liquidity, r2, calculated);
    if r1 == 0 || price == default_limit_nat(zero_for_one) {
        assert(out1 == Ok::<(nat, nat), QuoteError>((calculated, r1)));
    } else if cursor is None {
    } else if !(0 <= cursor->0 < ticks.len()) {
    } else {
        let index = cursor->0;
        let len = ticks.len() as int;
        let data = ticks[index];
        let tick_price = sqrt_ratio_at_tick_spec(data.tick@);
        let target = if zero_for_one {
            max_nat(tick_price, default_limit_nat(zero_for_one))
        } else {
            min_nat(tick_price, default_limit_nat(zero_for_one))
        };
        let step1 = swap_step_spec(price, target, liquidity, r1, true, fee);
        let step2 = swap_step_spec(price, target, liquidity, r2, true, fee);
        assert(step1 is Ok);
        assert(step2 is Ok);
        let s1 = step1->Ok_0;
        let s2 = step2->Ok_0;
        lemma_exact_in_step_monotone(price, target, liquidity, r1, r2, fee);
        let next = next_cursor(index, zero_for_one, len);
        let crossed1 = if s1.0 == tick_price && data.initialized {
            cross_tick_spec(liquidity, data.liquidity_net as int, zero_for_one)
        } else {
            Ok(liquidity)
        };
        let crossed2 = if s2.0 == tick_price && data.initialized {
            cross_tick_spec(liquidity, data.liquidity_net as int, zero_for_one)
        } else {
            Ok(liquidity)
        };
        assert(crossed1 is Ok);
        assert(crossed2 is Ok);
        let rest1 = (r1 - (s1.1 + s1.3)) as nat;
        let rest2 = (r2 - (s2.1 + s2.3)) as nat;
        assert(out1 == swap_loop(
            ticks,
            fee,
            zero_for_one,
            true,
            next,
            s1.0,
            crossed1->Ok_0,
            rest1,
            calculated + s1.2,
        ));
        assert(out2 == swap_loop(
            ticks,
            fee,
            zero_for_one,
            true,
            next,
            s2.0,
            crossed2->Ok_0,
            rest2,
            calculated + s2.2,
        ));
        // What the second run has gained after its first step, it keeps.
        lemma_swap_loop_monotone(
            ticks,
            fee,
            zero_for_one,
            true,
            next,
            s2.0,
            crossed2->Ok_0,
            rest2,
            calculated + s2.2,
        );
        if s1.0 == target {
            // Both runs took the very same step; the first has no more left.
            lemma_swap_loop_exact_in_monotone(
                ticks,
                fee,
                zero_for_one,
                next,
                s1.0,
                crossed1->Ok_0,
                rest1,
                rest2,
                calculated + s1.2,
            );
        } else {
            // The first run spent everything in this step and stops.
            assert(rest1 == 0);
            assert(out1->Ok_0.0 == calculated + s1.2);
        }
    }
}

/// More exact input never buys less: for amounts `a1 <= a2` whose quotes both succeed, the
/// output quoted for `a1` is at most the output quoted for `a2`.
pub proof fn lemma_v3_more_input_never_less_output(
    pool: V3Pool,
    zero_for_one: bool,
    a1: nat,
    a2: nat,
)
    requires
        a1 <= a2 < p256(),
        pool.quote_spec(zero_for_one, a1, true) is Ok,
        pool.quote_spec(zero_for_one, a2, true) is Ok,
    ensures
        pool.quote_spec(zero_for_one, a1, true)->Ok_0.0 <= pool.quote_spec(
            zero_for_one,
            a2,
            true,
        )->Ok_0.0,
{
    lemma_swap_loop_exact_in_monotone(
        pool.ticks_view(),
        pool.fee_view(),
        zero_for_one,
        next_cursor(
            pool.current_tick_index_view(),
            zero_for_one,
            pool.ticks_view().len() as int,
        ),
        pool.sqrt_price_view(),
        pool.liquidity_view(),
        a1,
        a2,
        0,
    );
}

/// A loop that ends with something left over has stopped at the price limit or run out of
/// loaded ticks.
proof fn lemma_swap_loop_leftover_means_stopped(
    ticks: Seq<TickData>,
    fee: nat,
    zero_for_one: bool,
    exact_in: bool,
    cursor: Option<int>,
    price: nat,
    liquidity: nat,
    remaining: nat,
    calculated: nat,
)
    requires
        cursor matches Some(i) ==> 0 <= i < ticks.len(),
        swap_loop(
            ticks,
            fee,
            zero_for_one,
            exact_in,
            cursor,
            price,
            liquidity,
            remaining,
            calculated,
        ) is Ok,
        swap_loop(
            ticks,
            fee,
            zero_for_one,
            exact_in,
            cursor,
            price,
            liquidity,
            remaining,
            calculated,
        )->Ok_0.1 > 0,
    ensures
        ({
            let stop = swap_loop_stop(
                ticks,
                fee,
                zero_for_one,
                exact_in,
                cursor,
                price,
                liquidity,
                remaining,
                calculated,
            );
            stop.0 is None || stop.1 == default_limit_nat(zero_for_one)
        }),
    decreases cursor_measure(cursor, zero_for_one, ticks.len() as int),
{
    if remaining == 0 || price == default_limit_nat(zero_for_one) {
    } else {
        match cursor {
            None => {},
            Some(index) => {
                let data = ticks[index];
                let tick_price = sqrt_ratio_at_tick_spec(data.tick@);
                let target = if zero_for_one {
                    max_nat(tick_price, default_limit_nat(zero_for_one))
                } else {
                    min_nat(tick_price, default_limit_nat(zero_for_one))
                };
                let step = swap_step_spec(price, target, liquidity, remaining, exact_in, fee)->Ok_0;
                let step_input = step.1 + step.3;
                let spent = if exact_in {
                    step_input
                } else {
                    step.2
                };
                let gained = if exact_in {
                    step.2
                } else {
                    step_input
                };
                let crossed = if step.0 == tick_price && data.initialized {
                    cross_tick_spec(liquidity, data.liquidity_net as int, zero_for_one)
                } else {
                    Ok(liquidity)
                };
                lemma_swap_loop_leftover_means_stopped(
                    ticks,
                    fee,
                    zero_for_one,
                    exact_in,
                    next_cursor(index, zero_for_one, ticks.len() as int),
                    step.0,
                    crossed->Ok_0,
                    (remaining - spent) as nat,
                    calculated + gained,
                );
            },
        }
    }
}

/// Something is left over only when the swap is bigger than the loaded ticks: a quote whose
/// `amount_remaining` is non-zero has walked past the last loaded tick in its direction, or
/// has stopped at the direction's price limit.
pub proof fn lemma_v3_leftover_only_past_loaded_ticks(
    pool: V3Pool,
    zero_for_one: bool,
    amount: nat,
    exact_in: bool,
)
    requires
        pool.current_tick_index_view() < pool.ticks_view().len(),
        pool.quote_spec(zero_for_one, amount, exact_in) is Ok,
        pool.quote_spec(zero_for_one, amount, exact_in)->Ok_0.1 > 0,
    ensures
        ({
            let stop = swap_loop_stop(
                pool.ticks_view(),
                pool.fee_view(),
                zero_for_one,
                exact_in,
                next_cursor(
                    pool.current_tick_index_view(),
                    zero_for_one,
                    pool.ticks_view().len() as int,
                ),
                pool.sqrt_price_view(),
                pool.liquidity_view(),
                amount,
                0,
            );
            stop.0 is None || stop.1 == default_limit_nat(zero_for_one)
        }),
{
    lemma_swap_loop_leftover_means_stopped(
        pool.ticks_view(),
        pool.fee_view(),
        zero_for_one,
        exact_in,
        next_cursor(
            pool.current_tick_index_view(),
            zero_for_one,
            pool.ticks_view().len() as int,
        ),
        pool.sqrt_price_view(),
        pool.liquidity_view(),
        amount,
        0,
    );
}

/// The swap loop reads only the slots it walks over: two tick arrays that differ at most in
/// slot `k`, walked away from `k`, give the same result.
proof fn lemma_swap_loop_ignores_slot(
    t1: Seq<TickData>,
    t2: Seq<TickData>,
    k: int,
    fee: nat,
    zero_for_one: bool,
    exact_in: bool,
    cursor: Option<int>,
    price: nat,
    liquidity: nat,
    remaining: nat,
    calculated: nat,
)
    requires
        t1.len() == t2.len(),
        forall|i: int| 0 <= i < t1.len() && i != k ==> t1[i] == t2[i],
        cursor matches Some(i) ==> (if zero_for_one {
            i < k
        } else {
            i > k
        }),
    ensures
        swap_loop(t1, fee, zero_for_one, exact_in, cursor, price, liquidity, remaining, calculated)
            == swap_loop(
            t2,
            fee,
            zero_for_one,
            exact_in,
            cursor,
            price,
            liquidity,
            remaining,
            calculated,
        ),
    decreases cursor_measure(cursor, zero_for_one, t1.len() as int),
{
    if remaining == 0 || price == default_limit_nat(zero_for_one) {
    } else {
        match cursor {
            None => {},
            Some(index) => {
                if 0 <= index < t1.len() {
                    assert(t1[index] == t2[index]);
                    let data = t1[index];
                    let tick_price = sqrt_ratio_at_tick_spec(data.tick@);
                    let target = if zero_for_one {
                        max_nat(tick_price, default_limit_nat(zero_for_one))
                    } else {
                        min_nat(tick_price, default_limit_nat(zero_for_one))
                    };
                    match swap_step_spec(price, target, liquidity, remaining, exact_in, fee) {
                        Err(_) => {},
                        Ok(step) => {
                            let step_input = step.1 + step.3;
                            let spent = if exact_in {
                                step_input
                            } else {
                                step.2
                            };
                            let gained = if exact_in {
                                step.2
                            } else {
                                step_input
                            };
                            let crossed = if step.0 == tick_price && data.initialized {
                                cross_tick_spec(liquidity, data.liquidity_net as int, zero_for_one)
                            } else {
                                Ok(liquidity)
                            };
                            if crossed is Ok {
                                lemma_swap_loop_ignores_slot(
                                    t1,
                                    t2,
                                    k,
                                    fee,
                                    zero_for_one,
                                    exact_in,
                                    next_cursor(index, zero_for_one, t1.len() as int),
                                    step.0,
                                    crossed->Ok_0,
                                    (remaining - spent) as nat,
                                    calculated + gained,
                                );
                            }
                        },
                    }
                }
            },
        }
    }
}

/// The current tick is never re-crossed: two pools that agree in everything but the data stored
/// for the current tick give the same quotes.
pub proof fn lemma_v3_current_tick_data_is_never_read(
    pool1: V3Pool,
    pool2: V3Pool,
    zero_for_one: bool,
    amount: nat,
    exact_in: bool,
)
    requires
        pool1.fee_view() == pool2.fee_view(),
        pool1.liquidity_view() == pool2.liquidity_view(),
        pool1.sqrt_price_view() == pool2.sqrt_price_view(),
        pool1.current_tick_index_view() == pool2.current_tick_index_view(),
        pool1.ticks_view().len() == pool2.ticks_view().len(),
        forall|i: int|
            0 <= i < pool1.ticks_view().len() && i != pool1.current_tick_index_view()
                ==> pool1.ticks_view()[i] == pool2.ticks_view()[i],
    ensures
        pool1.quote_spec(zero_for_one, amount, exact_in) == pool2.quote_spec(
            zero_for_one,
            amount,
            exact_in,
        ),
{
    lemma_swap_loop_ignores_slot(
        pool1.ticks_view(),
        pool2.ticks_view(),
        pool1.current_tick_index_view(),
        pool1.fee_view(),
        zero_for_one,
        exact_in,
        next_cursor(
            pool1.current_tick_index_view(),
            zero_for_one,
            pool1.ticks_view().len() as int,
        ),
        pool1.sqrt_price_view(),
        pool1.liquidity_view(),
        amount,
        0,
    );
}

/// The first step of a quote, spelled out: the step runs from the pool's price toward the
/// adjacent tick's price (clamped to the direction's limit). Exact input is charged the step's
/// `amount_in + fee_amount` and credited its `amount_out`; exact output is charged its
/// `amount_out` and credited `amount_in + fee_amount`. When the step lands on an initialized tick
/// the next range's liquidity is the liquidity before the crossing **minus** the tick's
/// `liquidity_net` when the price falls and **plus** it when the price rises; below zero is
/// [`QuoteError::InsufficientLiquidity`] and above `u128::MAX` is [`QuoteError::Overflow`]. The
/// quote then continues from the next tick outward with that price, liquidity and amounts.
#[verifier::spinoff_prover]
#[verifier::rlimit(60)]
pub proof fn lemma_v3_quote_first_step(
    pool: V3Pool,
    zero_for_one: bool,
    amount: nat,
    exact_in: bool,
)
    requires
        pool.current_tick_index_view() < pool.ticks_view().len(),
        0 < amount < p256(),
        pool.sqrt_price_view() != default_limit_nat(zero_for_one),
        next_cursor(
            pool.current_tick_index_view(),
            zero_for_one,
            pool.ticks_view().len() as int,
        ) is Some,
    ensures
        ({
            let ticks = pool.ticks_view();
            let len = ticks.len() as int;
            let i = next_cursor(pool.current_tick_index_view(), zero_for_one, len)->0;
            let data = ticks[i];
            let tick_price = sqrt_ratio_at_tick_spec(data.tick@);
            let target = if zero_for_one {
                max_nat(tick_price, default_limit_nat(zero_for_one))
            } else {
                min_nat(tick_price, default_limit_nat(zero_for_one))
            };
            let liquidity = pool.liquidity_view() as int;
            let step = swap_step_spec(
                pool.sqrt_price_view(),
                target,
                pool.liquidity_view(),
                amount,
                exact_in,
                pool.fee_view(),
            );
            let quote = pool.quote_spec(zero_for_one, amount, exact_in);
            &&& step is Err ==> quote == Err::<(nat, nat), QuoteError>(step->Err_0)
            &&& step is Ok ==> {
                let s = step->Ok_0;
                let paid = s.1 + s.3;
                let spent = if exact_in {
                    paid
                } else {
                    s.2
                };
                let gained = if exact_in {
                    s.2
                } else {
                    paid
                };
                let crossed = s.0 == tick_price && data.initialized;
                let net = data.liquidity_net as int;
                let next_liquidity: int = if !crossed {
                    liquidity
                } else if zero_for_one {
                    liquidity - net
                } else {
                    liquidity + net
                };
                &&& spent <= amount
                &&& (paid >= p256() || gained >= p256()) ==> quote == Err::<(nat, nat), QuoteError>(
                    QuoteError::Overflow,
                )
                &&& (paid < p256() && gained < p256()) ==> {
                    &&& next_liquidity < 0 ==> quote == Err::<(nat, nat), QuoteError>(
                        QuoteError::InsufficientLiquidity,
                    )
                    &&& next_liquidity > u128::MAX ==> quote == Err::<(nat, nat), QuoteError>(
                        QuoteError::Overflow,
                    )
                    &&& 0 <= next_liquidity <= u128::MAX ==> quote == swap_loop(
                        ticks,
                        pool.fee_view(),
                        zero_for_one,
                        exact_in,
                        next_cursor(i, zero_for_one, len),
                        s.0,
                        next_liquidity as nat,
                        (amount - spent) as nat,
                        gained,
                    )
                }
            }
        }),
{
    let ticks = pool.ticks_view();
    let len = ticks.len() as int;
    let i = next_cursor(pool.current_tick_index_view(), zero_for_one, len)->0;
    let data = ticks[i];
    let tick_price = sqrt_ratio_at_tick_spec(data.tick@);
    let target = if zero_for_one {
        max_nat(tick_price, default_limit_nat(zero_for_one))
    } else {
        min_nat(tick_price, default_limit_nat(zero_for_one))
    };
    let step = swap_step_spec(
        pool.sqrt_price_view(),
        target,
        pool.liquidity_view(),
        amount,
        exact_in,
        pool.fee_view(),
    );
    assert(0 <= i < len);
    pool.liquidity.lemma_fits_u128();
    if step is Ok {
        let st = step->Ok_0;
        let liquidity = pool.liquidity_view();
        let net = data.liquidity_net as int;
        let crossing = cross_tick_spec(liquidity, net, zero_for_one);
        if zero_for_one {
            if liquidity - net < 0 {
                assert(crossing == Err::<nat, QuoteError>(QuoteError::InsufficientLiquidity));
            } else if liquidity - net > u128::MAX {
                assert(crossing == Err::<nat, QuoteError>(QuoteError::Overflow));
            } else {
                assert(crossing == Ok::<nat, QuoteError>((liquidity - net) as nat));
            }
        } else {
            if liquidity + net < 0 {
                assert(crossing == Err::<nat, QuoteError>(QuoteError::InsufficientLiquidity));
            } else if liquidity + net > u128::MAX {
                assert(crossing == Err::<nat, QuoteError>(QuoteError::Overflow));
            } else {
                assert(crossing == Ok::<nat, QuoteError>((liquidity + net) as nat));
            }
        }
        if exact_in {
            crate::v3::swap_math::lemma_exact_in_never_spends_more_than_remaining(
                pool.sqrt_price_view(),
                target,
                pool.liquidity_view(),
                amount,
                pool.fee_view(),
            );
        } else {
            crate::v3::swap_math::lemma_exact_out_never_delivers_more_than_remaining(
                pool.sqrt_price_view(),
                target,
                pool.liquidity_view(),
                amount,
                pool.fee_view(),
            );
        }
    }
}

/// An exact-output quote that is filled inside the current range (its first step delivers the
/// whole amount without landing on the adjacent tick) asks for that step's `amount_in` plus its
/// `fee_amount`, nothing left over; so the input asked is at least
/// `amount_in * 10^6 / (10^6 - fee)`.
pub proof fn lemma_v3_exact_out_within_one_range(pool: V3Pool, zero_for_one: bool, amount: nat)
    requires
        pool.current_tick_index_view() < pool.ticks_view().len(),
        0 < amount < p256(),
        pool.sqrt_price_view() != default_limit_nat(zero_for_one),
        next_cursor(
            pool.current_tick_index_view(),
            zero_for_one,
            pool.ticks_view().len() as int,
        ) is Some,
    ensures
        ({
            let ticks = pool.ticks_view();
            let i = next_cursor(
                pool.current_tick_index_view(),
                zero_for_one,
                ticks.len() as int,
            )->0;
            let tick_price = sqrt_ratio_at_tick_spec(ticks[i].tick@);
            let target = if zero_for_one {
                max_nat(tick_price, default_limit_nat(zero_for_one))
            } else {
                min_nat(tick_price, default_limit_nat(zero_for_one))
            };
            let step = swap_step_spec(
                pool.sqrt_price_view(),
                target,
                pool.liquidity_view(),
                amount,
                false,
                pool.fee_view(),
            );
            (step matches Ok(s) && s.2 == amount && s.0 != tick_price && s.1 + s.3 < p256()) ==> {
                let s = step->Ok_0;
                let fee = pool.fee_view();
                &&& pool.quote_spec(zero_for_one, amount, false) == Ok::<(nat, nat), QuoteError>(
                    (s.1 + s.3, 0),
                )
                &&& (s.1 + s.3) * ((1000000 - fee) as nat) >= s.1 * 1000000
            }
        }),
{
    lemma_v3_quote_first_step(pool, zero_for_one, amount, false);
    let ticks = pool.ticks_view();
    let i = next_cursor(pool.current_tick_index_view(), zero_for_one, ticks.len() as int)->0;
    let tick_price = sqrt_ratio_at_tick_spec(ticks[i].tick@);
    let target = if zero_for_one {
        max_nat(tick_price, default_limit_nat(zero_for_one))
    } else {
        min_nat(tick_price, default_limit_nat(zero_for_one))
    };
    let step = swap_step_spec(
        pool.sqrt_price_view(),
        target,
        pool.liquidity_view(),
        amount,
        false,
        pool.fee_view(),
    );
    if step is Ok {
        let s = step->Ok_0;
        let fee = pool.fee_view();
        if fee < 1000000 {
            let d = (1000000 - fee) as nat;
            let n = s.1 * fee;
            assert(s.3 == crate::math::ceil_div(n, d));
            assert(s.3 * d >= n) by (nonlinear_arith)
                requires
                    s.3 == ((n + d - 1) as nat) / d,
                    d > 0,
            ;
            assert((s.1 + s.3) * d >= s.1 * 1000000) by (nonlinear_arith)
                requires
                    s.3 * d >= s.1 * fee,
                    d == 1000000 - fee,
            ;
        }
    }
}

/// A quote with nothing to do returns at once: when the amount is zero, the pool's price is
/// already at the direction's limit, or there is no loaded tick next to the current one in that
/// direction, the quote is `(0, amount)`.
pub proof fn lemma_v3_quote_nothing_to_do(
    pool: V3Pool,
    zero_for_one: bool,
    amount: nat,
    exact_in: bool,
)
    requires
        amount == 0 || pool.sqrt_price_view() == default_limit_nat(zero_for_one) || next_cursor(
            pool.current_tick_index_view(),
            zero_for_one,
            pool.ticks_view().len() as int,
        ) is None,
    ensures
        pool.quote_spec(zero_for_one, amount, exact_in) == Ok::<(nat, nat), QuoteError>(
            (0, amount),
        ),
{
}

} // verus!
