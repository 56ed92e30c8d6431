//! A single swap step within one liquidity range (`SwapMath.computeSwapStep`).
use vstd::prelude::*;

use crate::error::QuoteError;
use crate::math::{lemma_mul_div_le, mul_div, mul_div_rounding_up, mul_div_up_spec};
use crate::uint::{U256, lemma_u256_bound, p256, u256_sub};
use crate::v3::constants::PIPS_DENOMINATOR;
use crate::v3::constants::q96_nat;
use crate::v3::sqrt_price_math::{
    amount0_delta_spec, amount1_delta_spec, get_amount0_delta, get_amount1_delta,
    lemma_amount0_delta_up_antitone, lemma_amount1_delta_up_monotone,
    lemma_next_price_from_input_monotone,
    lemma_next_price_from_output_direction, lemma_next_price_input_covers_delta,
    next_price_from_input_spec, next_price_from_output_spec, next_sqrt_price_from_input,
    next_sqrt_price_from_output,
};
use crate::v3::types::{Liquidity, SqrtPriceX96};

verus! {

broadcast use lemma_u256_bound;

/// The outcome of one swap step: the price reached and the amounts moved.
#[derive(Debug, Clone, Copy, PartialEq, Eq, Structural)]
pub struct SwapStep {
    /// Sqrt price after the step.
    pub sqrt_price_next: SqrtPriceX96,
    /// Input consumed, **excluding** the fee.
    pub amount_in: U256,
    /// Output produced.
    pub amount_out: U256,
    /// Fee taken on the input.
    pub fee_amount: U256,
}

impl View for SwapStep {
    type V = (nat, nat, nat, nat);

    /// `(sqrt_price_next, amount_in, amount_out, fee_amount)` as numbers.
    open spec fn view(&self) -> (nat, nat, nat, nat) {
        (self.sqrt_price_next@, self.amount_in@, self.amount_out@, self.fee_amount@)
    }
}

/// The numeric view of a fallible swap step.
pub open spec fn lift_step(r: Result<SwapStep, QuoteError>) -> Result<
    (nat, nat, nat, nat),
    QuoteError,
> {
    match r {
        Ok(v) => Ok(v@),
        Err(e) => Err(e),
    }
}

/// The input left after the fee, floored: `remaining * (10^6 - fee) / 10^6`.
pub open spec fn remaining_less_fee(remaining: nat, fee: nat) -> nat {
    remaining * ((1000000 - fee) as nat) / 1000000
}

/// First phase of a step: the amount needed to reach the target (input rounded up for exact
/// input, output rounded down for exact output), and the price reached, which is the target when
/// the amount suffices and the price moved by the whole amount otherwise. Returns
/// `(next_price, amount_in, amount_out)`.
pub open spec fn step_reach_spec(
    current: nat,
    target: nat,
    liquidity: nat,
    remaining: nat,
    exact_in: bool,
    fee: nat,
) -> Result<(nat, nat, nat), QuoteError> {
    let zero_for_one = current >= target;
    if exact_in {
        let less_fee = remaining_less_fee(remaining, fee);
        let needed = if zero_for_one {
            amount0_delta_spec(target, current, liquidity, true)
        } else {
            amount1_delta_spec(current, target, liquidity, true)
        };
        match needed {
            Err(e) => Err(e),
            Ok(amount_in) => if less_fee >= amount_in {
                Ok((target, amount_in, 0))
            } else {
                match next_price_from_input_spec(current, liquidity, less_fee, zero_for_one) {
                    Err(e) => Err(e),
                    Ok(next) => Ok((next, amount_in, 0)),
                }
            },
        }
    } else {
        let available = if zero_for_one {
            amount1_delta_spec(target, current, liquidity, false)
        } else {
            amount0_delta_spec(current, target, liquidity, false)
        };
        match available {
            Err(e) => Err(e),
            Ok(amount_out) => if remaining >= amount_out {
                Ok((target, 0, amount_out))
            } else {
                match next_price_from_output_spec(current, liquidity, remaining, zero_for_one) {
                    Err(e) => Err(e),
                    Ok(next) => Ok((next, 0, amount_out)),
                }
            },
        }
    }
}

/// Second phase of a step: both amounts recomputed for the price actually reached (input
/// rounded up, output rounded down), except that an exact-input step which reached its target
/// keeps the input of the first phase, and an exact-output step which reached its target keeps
/// its output. Returns `(amount_in, amount_out)`.
pub open spec fn step_amounts_spec(
    current: nat,
    target: nat,
    liquidity: nat,
    next: nat,
    amount_in: nat,
    amount_out: nat,
    exact_in: bool,
) -> Result<(nat, nat), QuoteError> {
    let zero_for_one = current >= target;
    let reached = target == next;
    let new_in = if !(reached && exact_in) {
        if zero_for_one {
            amount0_delta_spec(next, current, liquidity, true)
        } else {
            amount1_delta_spec(current, next, liquidity, true)
        }
    } else {
        Ok(amount_in)
    };
    match new_in {
        Err(e) => Err(e),
        Ok(new_in) => {
            let new_out = if !reached || exact_in {
                if zero_for_one {
                    amount1_delta_spec(next, current, liquidity, false)
                } else {
                    amount0_delta_spec(current, next, liquidity, false)
                }
            } else {
                Ok(amount_out)
            };
            match new_out {
                Err(e) => Err(e),
                Ok(new_out) => Ok((new_in, new_out)),
            }
        },
    }
}

/// What `compute_swap_step` returns, as `(sqrt_price_next, amount_in, amount_out, fee_amount)`.
///
/// The exact-output amount is capped at `remaining`. The fee is all the input left over when an
/// exact-input step stops short of its target, and `ceil(amount_in * fee / (10^6 - fee))`
/// otherwise.
pub open spec fn swap_step_spec(
    current: nat,
    target: nat,
    liquidity: nat,
    remaining: nat,
    exact_in: bool,
    fee: nat,
) -> Result<(nat, nat, nat, nat), QuoteError> {
    if fee >= 1000000 {
        Err(QuoteError::InvalidFee)
    } else {
        match step_reach_spec(current, target, liquidity, remaining, exact_in, fee) {
            Err(e) => Err(e),
            Ok(reach) => {
                let next = reach.0;
                match step_amounts_spec(
                    current,
                    target,
                    liquidity,
                    next,
                    reach.1,
                    reach.2,
                    exact_in,
                ) {
                    Err(e) => Err(e),
                    Ok(amounts) => {
                        let amount_in = amounts.0;
                        let amount_out = if !exact_in && amounts.1 > remaining {
                            remaining
                        } else {
                            amounts.1
                        };
                        if exact_in && target != next {
                            Ok((next, amount_in, amount_out, (remaining - amount_in) as nat))
                        } else {
                            match mul_div_up_spec(amount_in, fee, (1000000 - fee) as nat) {
                                Err(e) => Err(e),
                                Ok(fee_amount) => Ok((next, amount_in, amount_out, fee_amount)),
                            }
                        }
                    },
                }
            },
        }
    }
}

/// In an exact-input step the input charged (fee excluded) never exceeds the input left after
/// the fee.
proof fn lemma_exact_in_amount_within_less_fee(
    current: nat,
    target: nat,
    liquidity: nat,
    remaining: nat,
    fee: nat,
)
    requires
        fee < 1000000,
        remaining < p256(),
        step_reach_spec(current, target, liquidity, remaining, true, fee) is Ok,
        step_amounts_spec(
            current,
            target,
            liquidity,
            step_reach_spec(current, target, liquidity, remaining, true, fee)->Ok_0.0,
            step_reach_spec(current, target, liquidity, remaining, true, fee)->Ok_0.1,
            step_reach_spec(current, target, liquidity, remaining, true, fee)->Ok_0.2,
            true,
        ) is Ok,
    ensures
        step_amounts_spec(
            current,
            target,
            liquidity,
            step_reach_spec(current, target, liquidity, remaining, true, fee)->Ok_0.0,
            step_reach_spec(current, target, liquidity, remaining, true, fee)->Ok_0.1,
            step_reach_spec(current, target, liquidity, remaining, true, fee)->Ok_0.2,
            true,
        )->Ok_0.0 <= remaining_less_fee(remaining, fee),
        remaining_less_fee(remaining, fee) <= remaining,
{
    let less_fee = remaining_less_fee(remaining, fee);
    lemma_mul_div_le(remaining, (1000000 - fee) as nat, 1000000);
    let zero_for_one = current >= target;
    let reach = step_reach_spec(current, target, liquidity, remaining, true, fee)->Ok_0;
    let needed = if zero_for_one {
        amount0_delta_spec(target, current, liquidity, true)
    } else {
        amount1_delta_spec(current, target, liquidity, true)
    };
    if less_fee < needed->Ok_0 {
        // The price moved by the whole input; what it accounts for is covered by that input.
        lemma_next_price_input_covers_delta(current, liquidity, less_fee, zero_for_one);
    }
}

/// An exact-input step never spends more than the amount remaining: its input plus its fee is at
/// most `remaining`.
pub proof fn lemma_exact_in_never_spends_more_than_remaining(
    current: nat,
    target: nat,
    liquidity: nat,
    remaining: nat,
    fee: nat,
)
    requires
        remaining < p256(),
        swap_step_spec(current, target, liquidity, remaining, true, fee) is Ok,
    ensures
        swap_step_spec(current, target, liquidity, remaining, true, fee)->Ok_0.1 + swap_step_spec(
            current,
            target,
            liquidity,
            remaining,
            true,
            fee,
        )->Ok_0.3 <= remaining,
{
    lemma_exact_in_amount_within_less_fee(current, target, liquidity, remaining, fee);
    let reach = step_reach_spec(current, target, liquidity, remaining, true, fee)->Ok_0;
    let amounts = step_amounts_spec(current, target, liquidity, reach.0, reach.1, reach.2, true)->Ok_0;
    let amount_in = amounts.0;
    if target == reach.0 {
        let c = (1000000 - fee) as nat;
        let less_fee = remaining_less_fee(remaining, fee);
        assert(less_fee * 1000000 <= remaining * c) by (nonlinear_arith)
            requires
                less_fee == remaining * c / 1000000,
        ;
        assert(amount_in * fee <= ((remaining - amount_in) as nat) * c) by (nonlinear_arith)
            requires
                amount_in <= less_fee,
                less_fee * 1000000 <= remaining * c,
                c == 1000000 - fee,
                fee < 1000000,
        ;
        crate::v3::sqrt_price_math::lemma_ceil_div_le(
            amount_in * fee,
            c,
            (remaining - amount_in) as nat,
        );
    }
}

/// An exact-output step never delivers more than the amount remaining.
pub proof fn lemma_exact_out_never_delivers_more_than_remaining(
    current: nat,
    target: nat,
    liquidity: nat,
    remaining: nat,
    fee: nat,
)
    requires
        swap_step_spec(current, target, liquidity, remaining, false, fee) is Ok,
    ensures
        swap_step_spec(current, target, liquidity, remaining, false, fee)->Ok_0.2 <= remaining,
{
}

/// Computes one swap step from `sqrt_current` toward `sqrt_target` within a single liquidity
/// range.
///
/// Direction is inferred from the prices (`sqrt_current >= sqrt_target` means token0 in). In
/// every branch `amount_in` rounds **up**, `amount_out` rounds **down** and `fee_amount` rounds
/// **up**. When an exact-input step does not reach the target, all leftover input becomes fee (not
/// recomputed) so multi-step totals stay exact.
///
/// # Errors
/// [`QuoteError::InvalidFee`] if `fee_pips` is not below [`PIPS_DENOMINATOR`]; arithmetic errors
/// ([`QuoteError::Overflow`], [`QuoteError::SqrtPriceOutOfRange`], …) from the price and delta
/// math.
pub fn compute_swap_step(
    sqrt_current: SqrtPriceX96,
    sqrt_target: SqrtPriceX96,
    liquidity: Liquidity,
    amount_remaining: U256,
    exact_in: bool,
    fee_pips: u32,
) -> (r: Result<SwapStep, QuoteError>)
    ensures
        lift_step(r) == swap_step_spec(
            sqrt_current@,
            sqrt_target@,
            liquidity@,
            amount_remaining@,
            exact_in,
            fee_pips as nat,
        ),
        r matches Ok(s) ==> ({
            let c = sqrt_current@ as int;
            let t = sqrt_target@ as int;
            let n = s.sqrt_price_next@ as int;
            let l = liquidity@ as int;
            let q96 = 79228162514264337593543950336int;
            let fee = fee_pips as int;
            let remaining = amount_remaining@ as int;
            // Token1 out and token0 in when the price falls; token0 out and token1 in when it rises.
            let out_to_next: int = if c >= t {
                l * (c - n) / q96
            } else {
                l * q96 * (n - c) / n / c
            };
            let in_to_next: int = if c >= t {
                ((l * q96 * (c - n) + c - 1) / c + n - 1) / n
            } else {
                (l * (n - c) + q96 - 1) / q96
            };
            &&& fee < 1000000
            &&& if c >= t {
                t <= n <= c
            } else {
                c <= n <= t
            }
            &&& s.amount_out@ == (if !exact_in && out_to_next > remaining {
                remaining
            } else {
                out_to_next
            })
            &&& s.amount_in@ == in_to_next
            &&& exact_in ==> s.amount_in@ + s.fee_amount@ <= remaining
            &&& exact_in ==> s.amount_in@ <= remaining * (1000000 - fee) / 1000000
            &&& exact_in && n != t ==> s.amount_in@ + s.fee_amount@ == remaining
            &&& !exact_in ==> s.amount_out@ <= remaining
            &&& s.fee_amount@ == (if exact_in && n != t {
                remaining - s.amount_in@
            } else {
                (s.amount_in@ * fee + (1000000 - fee) - 1) / (1000000 - fee)
            })
        }),
{
    if fee_pips >= PIPS_DENOMINATOR {
        return Err(QuoteError::InvalidFee);
    }
    let zero_for_one = sqrt_target.get().le_value(&sqrt_current.get());
    let pips = U256::from_u64(PIPS_DENOMINATOR as u64);
    let fee = U256::from_u64(fee_pips as u64);
    let fee_complement = u256_sub(pips, fee);

    let mut amount_in = U256::zero();
    let mut amount_out = U256::zero();
    let sqrt_next: SqrtPriceX96;

    if exact_in {
        proof {
            lemma_mul_div_le(amount_remaining@, fee_complement@, pips@);
        }
        let amount_remaining_less_fee = match mul_div(amount_remaining, fee_complement, pips) {
            Ok(v) => v,
            Err(e) => return Err(e),
        };
        let needed = if zero_for_one {
            get_amount0_delta(sqrt_target, sqrt_current, liquidity, true)
        } else {
            get_amount1_delta(sqrt_current, sqrt_target, liquidity, true)
        };
        amount_in = match needed {
            Ok(v) => v,
            Err(e) => return Err(e),
        };
        sqrt_next = if amount_in.le_value(&amount_remaining_less_fee) {
            sqrt_target
        } else {
            match next_sqrt_price_from_input(
                sqrt_current,
                liquidity,
                amount_remaining_less_fee,
                zero_for_one,
            ) {
                Ok(v) => v,
                Err(e) => return Err(e),
            }
        };
    } else {
        let available = if zero_for_one {
            get_amount1_delta(sqrt_target, sqrt_current, liquidity, false)
        } else {
            get_amount0_delta(sqrt_current, sqrt_target, liquidity, false)
        };
        amount_out = match available {
            Ok(v) => v,
            Err(e) => return Err(e),
        };
        sqrt_next = if amount_out.le_value(&amount_remaining) {
            sqrt_target
        } else {
            match next_sqrt_price_from_output(sqrt_current, liquidity, amount_remaining, zero_for_one) {
                Ok(v) => v,
                Err(e) => return Err(e),
            }
        };
    }
    let ghost reach = (sqrt_next@, amount_in@, amount_out@);
    assert(step_reach_spec(
        sqrt_current@,
        sqrt_target@,
        liquidity@,
        amount_remaining@,
        exact_in,
        fee_pips as nat,
    ) == Ok::<(nat, nat, nat), QuoteError>(reach));

    let reached_target = sqrt_target.get().eq_value(&sqrt_next.get());

    // Recompute both amounts for the price actually reached (input up, output down).
    if zero_for_one {
        if !(reached_target && exact_in) {
            amount_in = match get_amount0_delta(sqrt_next, sqrt_current, liquidity, true) {
                Ok(v) => v,
                Err(e) => return Err(e),
            };
        }
        if !reached_target || exact_in {
            amount_out = match get_amount1_delta(sqrt_next, sqrt_current, liquidity, false) {
                Ok(v) => v,
                Err(e) => return Err(e),
            };
        }
    } else {
        if !(reached_target && exact_in) {
            amount_in = match get_amount1_delta(sqrt_current, sqrt_next, liquidity, true) {
                Ok(v) => v,
                Err(e) => return Err(e),
            };
        }
        if !reached_target || exact_in {
            amount_out = match get_amount0_delta(sqrt_current, sqrt_next, liquidity, false) {
                Ok(v) => v,
                Err(e) => return Err(e),
            };
        }
    }
    assert(step_amounts_spec(
        sqrt_current@,
        sqrt_target@,
        liquidity@,
        reach.0,
        reach.1,
        reach.2,
        exact_in,
    ) == Ok::<(nat, nat), QuoteError>((amount_in@, amount_out@)));

    // Exact output can never deliver more than requested.
    if !exact_in && amount_remaining.lt_value(&amount_out) {
        amount_out = amount_remaining;
    }

    let fee_amount = if exact_in && !reached_target {
        // The step consumed everything without reaching the target: the leftover input is fee.
        proof {
            lemma_exact_in_amount_within_less_fee(
                sqrt_current@,
                sqrt_target@,
                liquidity@,
                amount_remaining@,
                fee_pips as nat,
            );
        }
        u256_sub(amount_remaining, amount_in)
    } else {
        match mul_div_rounding_up(amount_in, fee, fee_complement) {
            Ok(v) => v,
            Err(e) => return Err(e),
        }
    };

    proof {
        if exact_in {
            lemma_exact_in_never_spends_more_than_remaining(
                sqrt_current@,
                sqrt_target@,
                liquidity@,
                amount_remaining@,
                fee_pips as nat,
            );
            lemma_exact_in_amount_within_less_fee(
                sqrt_current@,
                sqrt_target@,
                liquidity@,
                amount_remaining@,
                fee_pips as nat,
            );
        }
        lemma_step_price_between_current_and_target(
            sqrt_current@,
            sqrt_target@,
            liquidity@,
            amount_remaining@,
            exact_in,
            fee_pips as nat,
        );
    }
    Ok(SwapStep { sqrt_price_next: sqrt_next, amount_in, amount_out, fee_amount })
}

/// A swap step never overshoots: the price it reaches lies between the current price and the
/// target (inclusive), on the target's side.
pub proof fn lemma_step_price_between_current_and_target(
    current: nat,
    target: nat,
    liquidity: nat,
    remaining: nat,
    exact_in: bool,
    fee: nat,
)
    requires
        remaining < p256(),
        swap_step_spec(current, target, liquidity, remaining, exact_in, fee) is Ok,
    ensures
        ({
            let next = swap_step_spec(current, target, liquidity, remaining, exact_in, fee)->Ok_0.0;
            if current >= target {
                target <= next <= current
            } else {
                current <= next <= target
            }
        }),
{
    let zero_for_one = current >= target;
    let reach = step_reach_spec(current, target, liquidity, remaining, exact_in, fee)->Ok_0;
    let next = reach.0;
    if next != target {
        if exact_in {
            let less_fee = remaining_less_fee(remaining, fee);
            lemma_mul_div_le(remaining, (1000000 - fee) as nat, 1000000);
            lemma_next_price_input_covers_delta(current, liquidity, less_fee, zero_for_one);
            if zero_for_one {
                if next < target {
                    lemma_amount0_delta_up_antitone(next, target, current, liquidity);
                }
            } else {
                if next > target {
                    lemma_amount1_delta_up_monotone(current, target, next, liquidity);
                }
            }
        } else {
            lemma_next_price_from_output_direction(current, liquidity, remaining, zero_for_one);
            if zero_for_one {
                // available = floor(L * (current - target) / 2^96) > remaining.
                let d = (current - target) as nat;
                let available = liquidity * d / q96_nat();
                assert(remaining * q96_nat() <= d * liquidity) by (nonlinear_arith)
                    requires
                        remaining < available,
                        available == liquidity * d / q96_nat(),
                ;
                crate::v3::sqrt_price_math::lemma_ceil_div_le(
                    remaining * q96_nat(),
                    liquidity,
                    d,
                );
                let q = crate::math::ceil_div(remaining * q96_nat(), liquidity);
                assert(mul_div_up_spec(remaining, q96_nat(), liquidity) == Ok::<nat, QuoteError>(q));
            } else {
                // available = floor(floor(N1 * (target - current) / target) / current) > remaining.
                let n1 = liquidity * q96_nat();
                let d = (target - current) as nat;
                let f1 = n1 * d / target;
                let available = f1 / current;
                assert(remaining * current * target <= n1 * d) by (nonlinear_arith)
                    requires
                        remaining < available,
                        available == f1 / current,
                        f1 == n1 * d / target,
                        current > 0,
                        target > 0,
                ;
                let den = (n1 - remaining * current) as nat;
                assert(n1 * current <= target * den) by (nonlinear_arith)
                    requires
                        remaining * current * target <= n1 * d,
                        d == target - current,
                        den == n1 - remaining * current,
                        n1 > remaining * current,
                ;
                crate::v3::sqrt_price_math::lemma_ceil_div_le(n1 * current, den, target);
            }
        }
    }
}

/// Two exact-input steps over the same range, the second with at least as much remaining: the
/// second gives at least as much output; when the first reaches the target the second is the
/// very same step; when it stops short it spends exactly its whole remaining amount.
pub proof fn lemma_exact_in_step_monotone(
    current: nat,
    target: nat,
    liquidity: nat,
    r1: nat,
    r2: nat,
    fee: nat,
)
    requires
        r1 <= r2 < p256(),
        swap_step_spec(current, target, liquidity, r1, true, fee) is Ok,
        swap_step_spec(current, target, liquidity, r2, true, fee) is Ok,
    ensures
        ({
            let s1 = swap_step_spec(current, target, liquidity, r1, true, fee)->Ok_0;
            let s2 = swap_step_spec(current, target, liquidity, r2, true, fee)->Ok_0;
            &&& s1.2 <= s2.2
            &&& s1.0 == target ==> s2 == s1
            &&& s1.0 != target ==> s1.1 + s1.3 == r1
        }),
{
    let zero_for_one = current >= target;
    let lf1 = remaining_less_fee(r1, fee);
    let lf2 = remaining_less_fee(r2, fee);
    let c = (1000000 - fee) as nat;
    assert(r1 * c <= r2 * c) by (nonlinear_arith)
        requires
            r1 <= r2,
    ;
    crate::math::lemma_div_monotone(r1 * c, r2 * c, 1000000);
    lemma_step_price_between_current_and_target(current, target, liquidity, r1, true, fee);
    lemma_step_price_between_current_and_target(current, target, liquidity, r2, true, fee);
    lemma_exact_in_amount_within_less_fee(current, target, liquidity, r1, fee);
    let reach1 = step_reach_spec(current, target, liquidity, r1, true, fee)->Ok_0;
    let reach2 = step_reach_spec(current, target, liquidity, r2, true, fee)->Ok_0;
    let n1 = reach1.0;
    let n2 = reach2.0;
    let needed = if zero_for_one {
        amount0_delta_spec(target, current, liquidity, true)
    } else {
        amount1_delta_spec(current, target, liquidity, true)
    }->Ok_0;
    if lf2 < needed {
        lemma_next_price_from_input_monotone(current, liquidity, lf1, lf2, zero_for_one);
    }
    // Now the second step's price is at least as far from `current` as the first one's.
    if zero_for_one {
        assert(n2 <= n1);
        crate::v3::sqrt_price_math::lemma_amount1_delta_down_antitone(n1, n2, current, liquidity);
    } else {
        assert(n1 <= n2);
        crate::v3::sqrt_price_math::lemma_amount0_delta_down_monotone(current, n1, n2, liquidity);
    }
}

} // verus!
