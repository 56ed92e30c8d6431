//! Domain newtypes for V3 quantities.
//!
//! Ticks, sqrt prices and liquidity each have their own type, so that wrong-unit arithmetic is
//! a type error. Amounts and reserves stay plain [`U256`], since they are interchangeable token
//! quantities.
use vstd::prelude::*;

use crate::error::QuoteError;
use crate::uint::U256;
use crate::v3::constants::{MAX_TICK, MIN_TICK};

verus! {

/// A price tick, validated to `[MIN_TICK, MAX_TICK]` at construction.
#[derive(Debug, Clone, Copy, PartialEq, Eq, PartialOrd, Ord, Hash, Structural)]
pub struct Tick(i32);

impl View for Tick {
    type V = int;

    closed spec fn view(&self) -> int {
        self.0 as int
    }
}

impl Tick {
    #[verifier::type_invariant]
    spec fn in_range(self) -> bool {
        MIN_TICK <= self.0 <= MAX_TICK
    }

    /// Creates a tick, rejecting values outside `[MIN_TICK, MAX_TICK]`.
    ///
    /// # Errors
    /// [`QuoteError::TickOutOfRange`] if `tick` is out of range.
    pub fn new(tick: i32) -> (r: Result<Self, QuoteError>)
        ensures
            MIN_TICK <= tick <= MAX_TICK ==> (r matches Ok(t) && t@ == tick),
            !(MIN_TICK <= tick <= MAX_TICK) ==> r == Err::<Self, QuoteError>(
                QuoteError::TickOutOfRange(tick),
            ),
    {
        if tick < MIN_TICK || tick > MAX_TICK {
            return Err(QuoteError::TickOutOfRange(tick));
        }
        Ok(Self(tick))
    }

    /// The wrapped tick value.
    pub fn get(self) -> (r: i32)
        ensures
            r == self@,
            MIN_TICK <= r <= MAX_TICK,
    {
        proof {
            use_type_invariant(&self);
        }
        self.0
    }
}

/// A Q64.96 sqrt price (`sqrt(price) * 2^96`). Not range-validated on its own; the tick and swap
/// math enforce bounds where required.
#[derive(Debug, Clone, Copy, PartialEq, Eq, PartialOrd, Ord, Hash, Structural)]
pub struct SqrtPriceX96(U256);

impl View for SqrtPriceX96 {
    type V = nat;

    closed spec fn view(&self) -> nat {
        self.0@
    }
}

impl SqrtPriceX96 {
    /// Wraps a raw Q64.96 value.
    pub fn new(value: U256) -> (r: Self)
        ensures
            r@ == value@,
    {
        Self(value)
    }

    /// The wrapped Q64.96 value.
    pub fn get(self) -> (r: U256)
        ensures
            r@ == self@,
    {
        self.0
    }
}

/// Active in-range liquidity `L`. Net changes across ticks are signed (`i128`).
#[derive(Debug, Clone, Copy, PartialEq, Eq, PartialOrd, Ord, Hash, Structural)]
pub struct Liquidity(u128);

impl View for Liquidity {
    type V = nat;

    closed spec fn view(&self) -> nat {
        self.0 as nat
    }
}

impl Liquidity {
    /// Wraps a raw liquidity value.
    pub fn new(value: u128) -> (r: Self)
        ensures
            r@ == value,
    {
        Self(value)
    }

    /// The wrapped liquidity value.
    pub fn get(self) -> (r: u128)
        ensures
            r == self@,
    {
        self.0
    }

    /// A liquidity value fits in 128 bits.
    pub proof fn lemma_fits_u128(self)
        ensures
            self@ <= u128::MAX,
    {
    }

    /// Whether the liquidity is zero (a gap in the price range).
    pub fn is_zero(self) -> (r: bool)
        ensures
            r == (self@ == 0),
    {
        self.0 == 0
    }
}

impl Default for Liquidity {
    fn default() -> (r: Self)
        ensures
            r@ == 0,
    {
        Self(0)
    }
}

} // verus!
