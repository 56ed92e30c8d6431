//! Uniswap V2 constant-product (`x * y = k`) quoting.
pub mod constants;
pub mod pool;

pub use pool::V2Pool;
