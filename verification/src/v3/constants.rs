//! V3 numeric constants (tick bounds, sqrt-ratio bounds, fixed-point scale, fee denominator).
use vstd::prelude::*;

use crate::uint::U256;

verus! {

/// Minimum usable tick. `1.0001^MIN_TICK` is the lowest representable price.
pub const MIN_TICK: i32 = -887_272;

/// Maximum usable tick (`-MIN_TICK`).
pub const MAX_TICK: i32 = 887_272;

/// Fee denominator for V3. Fees are in pips (hundredths of a bip): `3000` = 0.30%.
pub const PIPS_DENOMINATOR: u32 = 1_000_000;

/// `get_sqrt_ratio_at_tick(MIN_TICK)`: the lowest valid sqrt price (Q64.96).
pub open spec fn min_sqrt_ratio_nat() -> nat {
    4295128739
}

/// `get_sqrt_ratio_at_tick(MAX_TICK)`: the exclusive upper bound for a valid sqrt price (Q64.96).
pub open spec fn max_sqrt_ratio_nat() -> nat {
    1461446703485210103287273052203988822378723970342nat
}

/// The Q64.96 fixed-point scale, `2^96`.
pub open spec fn q96_nat() -> nat {
    79228162514264337593543950336nat
}

/// The lowest valid sqrt price, [`min_sqrt_ratio_nat`].
pub fn min_sqrt_ratio() -> (r: U256)
    ensures
        r@ == min_sqrt_ratio_nat(),
{
    U256::from_u64(4295128739)
}

/// The exclusive upper bound for a valid sqrt price, [`max_sqrt_ratio_nat`].
pub fn max_sqrt_ratio() -> (r: U256)
    ensures
        r@ == max_sqrt_ratio_nat(),
{
    U256::from_limbs([6743328256752651558, 17280870778742802505, 4294805859, 0])
}

/// The Q64.96 fixed-point scale, [`q96_nat`].
pub fn q96() -> (r: U256)
    ensures
        r@ == q96_nat(),
{
    U256::from_limbs([0, 4294967296, 0, 0])
}

} // verus!
