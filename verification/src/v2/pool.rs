//! The [`V2Pool`] snapshot and its constant-product quote functions.
use vstd::prelude::*;

use alloy_primitives::Address;

use crate::error::QuoteError;
use crate::math::{lemma_div_monotone, lemma_floor_div_fraction_order, lemma_mul_div_le, lift, mul_div};
use crate::uint::{U256, lemma_u256_bound, p256};
use crate::v2::constants::FEE_DENOMINATOR;

verus! {

broadcast use lemma_u256_bound;

/// The amount with the fee taken off, floored: `amount_in * (10000 - fee) / 10000`.
pub open spec fn v2_amount_in_with_fee(amount_in: nat, fee: nat) -> nat {
    amount_in * ((10000 - fee) as nat) / 10000
}

/// What an exact-input V2 quote returns for the given input, reserves and fee (in basis points).
///
/// The fee is taken off the input first (floored), then the constant-product output
/// `with_fee * reserve_out / (reserve_in + with_fee)` is floored.
pub open spec fn v2_amount_out_spec(amount_in: nat, reserve_in: nat, reserve_out: nat, fee: nat) -> Result<
    nat,
    QuoteError,
> {
    if reserve_in == 0 || reserve_out == 0 {
        Err(QuoteError::InsufficientLiquidity)
    } else if reserve_in + v2_amount_in_with_fee(amount_in, fee) >= p256() {
        Err(QuoteError::Overflow)
    } else {
        Ok(
            v2_amount_in_with_fee(amount_in, fee) * reserve_out / (reserve_in
                + v2_amount_in_with_fee(amount_in, fee)),
        )
    }
}

/// What an exact-output V2 quote returns for the wanted output, reserves and fee: zero for a zero
/// output, else `reserve_in * 10000 * amount_out / ((reserve_out - amount_out) * (10000 - fee))`
/// floored, plus one.
pub open spec fn v2_amount_in_spec(amount_out: nat, reserve_in: nat, reserve_out: nat, fee: nat) -> Result<
    nat,
    QuoteError,
> {
    if reserve_in == 0 || reserve_out == 0 {
        Err(QuoteError::InsufficientLiquidity)
    } else if amount_out == 0 {
        Ok(0)
    } else if amount_out >= reserve_out {
        Err(QuoteError::InsufficientLiquidity)
    } else if reserve_in * 10000 >= p256() {
        Err(QuoteError::Overflow)
    } else if (reserve_out - amount_out) * (10000 - fee) >= p256() {
        Err(QuoteError::Overflow)
    } else if reserve_in * 10000 * amount_out / ((reserve_out - amount_out) as nat * (10000
        - fee) as nat) + 1 >= p256() {
        Err(QuoteError::Overflow)
    } else {
        Ok(
            reserve_in * 10000 * amount_out / ((reserve_out - amount_out) as nat * (10000
                - fee) as nat) + 1,
        )
    }
}

/// A constant-product (`x * y = k`) pool snapshot: two reserves and a fee.
///
/// Quotes are pure and non-mutating. Direction is `zero_for_one`: `true` swaps `token0` in for
/// `token1` out (input reserve is `reserve0`); `false` is the reverse.
#[derive(Debug, Clone, Copy)]
pub struct V2Pool {
    token0: Address,
    token1: Address,
    reserve0: U256,
    reserve1: U256,
    fee: u32,
}

impl V2Pool {
    #[verifier::type_invariant]
    spec fn fee_below_denominator(self) -> bool {
        self.fee < FEE_DENOMINATOR
    }

    /// The pool's `token0` address.
    pub closed spec fn token0_view(self) -> Address {
        self.token0
    }

    /// The pool's `token1` address.
    pub closed spec fn token1_view(self) -> Address {
        self.token1
    }

    /// The `token0` reserve.
    pub closed spec fn reserve0_view(self) -> nat {
        self.reserve0@
    }

    /// The `token1` reserve.
    pub closed spec fn reserve1_view(self) -> nat {
        self.reserve1@
    }

    /// The fee in basis points.
    pub closed spec fn fee_view(self) -> nat {
        self.fee as nat
    }

    /// The `(input, output)` reserves for a direction.
    pub open spec fn reserves_for(self, zero_for_one: bool) -> (nat, nat) {
        if zero_for_one {
            (self.reserve0_view(), self.reserve1_view())
        } else {
            (self.reserve1_view(), self.reserve0_view())
        }
    }

    /// Creates a pool from a reserve snapshot. `fee` is in basis points (`30` = 0.30%).
    ///
    /// # Errors
    /// [`QuoteError::InvalidFee`] if `fee` is not below [`FEE_DENOMINATOR`].
    pub fn new(token0: Address, token1: Address, reserve0: U256, reserve1: U256, fee: u32) -> (r:
        Result<Self, QuoteError>)
        ensures
            fee >= FEE_DENOMINATOR ==> r == Err::<Self, QuoteError>(QuoteError::InvalidFee),
            fee < FEE_DENOMINATOR ==> (r matches Ok(p) && p.token0_view() == token0
                && p.token1_view() == token1 && p.reserve0_view() == reserve0@
                && p.reserve1_view() == reserve1@ && p.fee_view() == fee),
    {
        if fee >= FEE_DENOMINATOR {
            return Err(QuoteError::InvalidFee);
        }
        Ok(Self { token0, token1, reserve0, reserve1, fee })
    }

    /// The pool's `token0` address.
    pub fn token0(&self) -> (r: Address)
        ensures
            r == self.token0_view(),
    {
        self.token0
    }

    /// The pool's `token1` address.
    pub fn token1(&self) -> (r: Address)
        ensures
            r == self.token1_view(),
    {
        self.token1
    }

    /// The current reserves as `(reserve0, reserve1)`.
    pub fn reserves(&self) -> (r: (U256, U256))
        ensures
            r.0@ == self.reserve0_view(),
            r.1@ == self.reserve1_view(),
    {
        (self.reserve0, self.reserve1)
    }

    /// The fee in basis points.
    pub fn fee(&self) -> (r: u32)
        ensures
            r == self.fee_view(),
            r < FEE_DENOMINATOR,
    {
        proof {
            use_type_invariant(self);
        }
        self.fee
    }

    fn in_out(&self, zero_for_one: bool) -> (r: (U256, U256))
        ensures
            (r.0@, r.1@) == self.reserves_for(zero_for_one),
    {
        if zero_for_one {
            (self.reserve0, self.reserve1)
        } else {
            (self.reserve1, self.reserve0)
        }
    }

    /// Returns the output amount for an exact `amount_in` in the given direction.
    ///
    /// # Errors
    /// [`QuoteError::InsufficientLiquidity`] if either reserve is zero; [`QuoteError::Overflow`]
    /// if the input reserve plus the fee-adjusted input does not fit in 256 bits.
    pub fn get_amount_out(&self, zero_for_one: bool, amount_in: U256) -> (r: Result<U256, QuoteError>)
        ensures
            lift(r) == v2_amount_out_spec(
                amount_in@,
                self.reserves_for(zero_for_one).0,
                self.reserves_for(zero_for_one).1,
                self.fee_view(),
            ),
            ({
                let reserve_in = if zero_for_one {
                    self.reserve0_view()
                } else {
                    self.reserve1_view()
                };
                let reserve_out = if zero_for_one {
                    self.reserve1_view()
                } else {
                    self.reserve0_view()
                };
                let with_fee = amount_in@ * ((10000 - self.fee_view()) as nat) / 10000;
                &&& (reserve_in == 0 || reserve_out == 0) ==> r == Err::<U256, QuoteError>(
                    QuoteError::InsufficientLiquidity,
                )
                &&& (reserve_in > 0 && reserve_out > 0 && reserve_in + with_fee
                    < 115792089237316195423570985008687907853269984665640564039457584007913129639936nat)
                    ==> (r matches Ok(v) && v@ == with_fee * reserve_out / (reserve_in + with_fee))
                &&& (reserve_in > 0 && reserve_out > 0 && reserve_in + with_fee
                    >= 115792089237316195423570985008687907853269984665640564039457584007913129639936nat)
                    ==> r == Err::<U256, QuoteError>(QuoteError::Overflow)
            }),
    {
        let (reserve_in, reserve_out) = self.in_out(zero_for_one);
        let fee = self.fee();
        let r = amount_out(amount_in, reserve_in, reserve_out, fee);
        proof {
            assert(p256() == 115792089237316195423570985008687907853269984665640564039457584007913129639936nat)
                by {
                crate::uint::lemma_pow2_values();
            }
            match r {
                Ok(v) => {},
                Err(e) => {},
            }
        }
        r
    }

    /// Returns the input amount required for an exact `amount_out` in the given direction.
    ///
    /// # Errors
    /// [`QuoteError::InsufficientLiquidity`] if a reserve is zero or `amount_out` is not below
    /// the output reserve; [`QuoteError::Overflow`] if an intermediate value does not fit in
    /// 256 bits.
    pub fn get_amount_in(&self, zero_for_one: bool, amount_out: U256) -> (r: Result<U256, QuoteError>)
        ensures
            lift(r) == v2_amount_in_spec(
                amount_out@,
                self.reserves_for(zero_for_one).0,
                self.reserves_for(zero_for_one).1,
                self.fee_view(),
            ),
            ({
                let reserve_in = if zero_for_one {
                    self.reserve0_view()
                } else {
                    self.reserve1_view()
                };
                let reserve_out = if zero_for_one {
                    self.reserve1_view()
                } else {
                    self.reserve0_view()
                };
                let x = amount_out@;
                let numerator = reserve_in * 10000 * x;
                let denominator = (reserve_out - x) as nat * (10000 - self.fee_view()) as nat;
                &&& (reserve_in == 0 || reserve_out == 0) ==> r == Err::<U256, QuoteError>(
                    QuoteError::InsufficientLiquidity,
                )
                &&& (reserve_in > 0 && reserve_out > 0 && x == 0) ==> (r matches Ok(v) && v@ == 0)
                &&& (reserve_in > 0 && reserve_out > 0 && x > 0) ==> (r == Err::<U256, QuoteError>(
                    QuoteError::InsufficientLiquidity,
                ) <==> x >= reserve_out)
                &&& (x > 0 && r is Ok) ==> (x < reserve_out && r->Ok_0@ == numerator / denominator
                    + 1)
                &&& (reserve_in > 0 && 0 < x < reserve_out && reserve_in * 10000
                    < 115792089237316195423570985008687907853269984665640564039457584007913129639936nat
                    && denominator
                    < 115792089237316195423570985008687907853269984665640564039457584007913129639936nat
                    && numerator / denominator + 1
                    < 115792089237316195423570985008687907853269984665640564039457584007913129639936nat)
                    ==> r is Ok
            }),
    {
        let (reserve_in, reserve_out) = self.in_out(zero_for_one);
        let fee = self.fee();
        let r = amount_in(amount_out, reserve_in, reserve_out, fee);
        proof {
            assert(p256() == 115792089237316195423570985008687907853269984665640564039457584007913129639936nat)
                by {
                crate::uint::lemma_pow2_values();
            }
            match r {
                Ok(v) => {},
                Err(e) => {},
            }
        }
        r
    }
}

fn amount_out(amount_in: U256, reserve_in: U256, reserve_out: U256, fee: u32) -> (r: Result<
    U256,
    QuoteError,
>)
    requires
        fee < FEE_DENOMINATOR,
    ensures
        lift(r) == v2_amount_out_spec(amount_in@, reserve_in@, reserve_out@, fee as nat),
{
    if reserve_in.is_zero() || reserve_out.is_zero() {
        return Err(QuoteError::InsufficientLiquidity);
    }
    proof {
        lemma_mul_div_le(amount_in@, (10000 - fee) as nat, 10000);
    }
    // The fee is pre-divided (floor), then the constant product is applied. This integer order
    // loses a little precision against the textbook form, but matches the on-chain quotes to
    // the wei.
    let amount_in_with_fee = match mul_div(
        amount_in,
        U256::from_u64((FEE_DENOMINATOR - fee) as u64),
        U256::from_u64(FEE_DENOMINATOR as u64),
    ) {
        Ok(v) => v,
        Err(e) => return Err(e),
    };
    let denominator = match reserve_in.checked_add(amount_in_with_fee) {
        Some(v) => v,
        None => return Err(QuoteError::Overflow),
    };
    proof {
        let w = amount_in_with_fee@;
        let d = denominator@;
        assert(w * reserve_out@ / d <= reserve_out@) by (nonlinear_arith)
            requires
                w <= d,
                d > 0,
        ;
    }
    mul_div(amount_in_with_fee, reserve_out, denominator)
}

fn amount_in(amount_out: U256, reserve_in: U256, reserve_out: U256, fee: u32) -> (r: Result<
    U256,
    QuoteError,
>)
    requires
        fee < FEE_DENOMINATOR,
    ensures
        lift(r) == v2_amount_in_spec(amount_out@, reserve_in@, reserve_out@, fee as nat),
{
    if reserve_in.is_zero() || reserve_out.is_zero() {
        return Err(QuoteError::InsufficientLiquidity);
    }
    if amount_out.is_zero() {
        return Ok(U256::zero());
    }
    if reserve_out.le_value(&amount_out) {
        return Err(QuoteError::InsufficientLiquidity);
    }
    let numerator_scaled = match reserve_in.checked_mul(U256::from_u64(FEE_DENOMINATOR as u64)) {
        Some(v) => v,
        None => return Err(QuoteError::Overflow),
    };
    let remaining_out = match reserve_out.checked_sub(amount_out) {
        Some(v) => v,
        None => return Err(QuoteError::Overflow),
    };
    let denominator = match remaining_out.checked_mul(U256::from_u64((FEE_DENOMINATOR - fee) as u64)) {
        Some(v) => v,
        None => return Err(QuoteError::Overflow),
    };
    proof {
        assert(denominator@ > 0) by (nonlinear_arith)
            requires
                denominator@ == remaining_out@ * (10000 - fee) as nat,
                remaining_out@ > 0,
                fee < 10000,
        ;
    }
    let base = match mul_div(numerator_scaled, amount_out, denominator) {
        Ok(v) => v,
        Err(e) => return Err(e),
    };
    match base.checked_add(U256::one()) {
        Some(v) => Ok(v),
        None => Err(QuoteError::Overflow),
    }
}

/// More input never gives less output: for the same reserves and fee, if the larger input
/// quotes successfully then so does the smaller one, and its output is no larger.
pub proof fn lemma_v2_more_input_never_less_output(
    smaller: nat,
    larger: nat,
    reserve_in: nat,
    reserve_out: nat,
    fee: nat,
)
    requires
        fee < 10000,
        smaller <= larger,
        v2_amount_out_spec(larger, reserve_in, reserve_out, fee) is Ok,
    ensures
        v2_amount_out_spec(smaller, reserve_in, reserve_out, fee) is Ok,
        v2_amount_out_spec(smaller, reserve_in, reserve_out, fee)->Ok_0 <= v2_amount_out_spec(
            larger,
            reserve_in,
            reserve_out,
            fee,
        )->Ok_0,
{
    let m = (10000 - fee) as nat;
    assert(smaller * m <= larger * m) by (nonlinear_arith)
        requires
            smaller <= larger,
    ;
    lemma_div_monotone(smaller * m, larger * m, 10000);
    let wa = v2_amount_in_with_fee(smaller, fee);
    let wb = v2_amount_in_with_fee(larger, fee);
    let s = reserve_in;
    let r = reserve_out;
    assert((wa * r) * (s + wb) <= (wb * r) * (s + wa)) by (nonlinear_arith)
        requires
            wa <= wb,
    ;
    lemma_floor_div_fraction_order(wa * r, s + wa, wb * r, s + wb);
}

/// An exact-input quote never pays out the whole output reserve: the output is strictly below
/// `reserve_out`.
pub proof fn lemma_v2_output_below_reserve(
    amount_in: nat,
    reserve_in: nat,
    reserve_out: nat,
    fee: nat,
)
    requires
        v2_amount_out_spec(amount_in, reserve_in, reserve_out, fee) is Ok,
    ensures
        v2_amount_out_spec(amount_in, reserve_in, reserve_out, fee)->Ok_0 < reserve_out,
{
    let w = v2_amount_in_with_fee(amount_in, fee);
    let s = reserve_in;
    let r = reserve_out;
    assert(w * r / (s + w) < r) by (nonlinear_arith)
        requires
            s > 0,
            r > 0,
    ;
}

/// An exact-output quote for a positive amount always asks for a positive input.
pub proof fn lemma_v2_positive_output_needs_input(
    amount_out: nat,
    reserve_in: nat,
    reserve_out: nat,
    fee: nat,
)
    requires
        fee < 10000,
        amount_out > 0,
        v2_amount_in_spec(amount_out, reserve_in, reserve_out, fee) is Ok,
    ensures
        v2_amount_in_spec(amount_out, reserve_in, reserve_out, fee)->Ok_0 > 0,
{
    let n = reserve_in * 10000 * amount_out;
    let d = (reserve_out - amount_out) as nat * (10000 - fee) as nat;
    assert(n / d + 1 > 0) by (nonlinear_arith)
        requires
            reserve_out > amount_out,
            fee < 10000,
            d == (reserve_out - amount_out) as nat * (10000 - fee) as nat,
    ;
}

} // verus!
