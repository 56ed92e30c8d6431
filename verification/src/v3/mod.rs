//! Uniswap V3 concentrated-liquidity (tick) swap math.
pub mod constants;
pub mod pool;
pub mod sqrt_price_math;
pub mod swap_math;
pub mod tick_math;
pub mod types;

pub use pool::{PoolStateV3Params, TickData, V3Pool};
pub use types::{Liquidity, SqrtPriceX96, Tick};
