//! Error type for quote computations.
use vstd::prelude::*;

verus! {

/// An error returned by a swap-quote calculation.
#[derive(Debug, Clone, Copy, PartialEq, Eq, Structural)]
pub enum QuoteError {
    /// A division had a zero denominator.
    DivisionByZero,
    /// An intermediate value exceeded the 256-bit range.
    Overflow,
    /// A reserve or output amount left no usable liquidity.
    InsufficientLiquidity,
    /// The fee was not below the fee denominator.
    InvalidFee,
    /// A tick was outside the valid `[MIN_TICK, MAX_TICK]` range.
    TickOutOfRange(i32),
    /// The tick spacing was not a positive value.
    InvalidTickSpacing(i32),
    /// A sqrt price was outside its valid range (`[MIN_SQRT_RATIO, MAX_SQRT_RATIO)`, or `0`).
    SqrtPriceOutOfRange,
    /// A swap price limit was on the wrong side of the current price.
    PriceLimitWrongSide,
}

} // verus!
