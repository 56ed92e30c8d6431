//! Exact-integer Uniswap V2 and V3 swap-quote math.
//!
//! All arithmetic is fixed-width integer / fixed-point (256-bit and 512-bit) and follows the
//! on-chain rounding rules exactly. Every quote function is a pure computation on a pool snapshot.
pub mod error;
pub mod uint;
pub mod math;
pub mod v2;
pub mod v3;

pub use error::QuoteError;
pub use uint::U256;
pub use alloy_primitives::Address;

use vstd::prelude::*;

verus! {

/// A 20-byte account address, carried through pool snapshots unchanged.
#[verifier::external_type_specification]
#[verifier::external_body]
pub struct ExAddress(alloy_primitives::Address);

/// `Clone` for `alloy_primitives::Address`, a `Copy` byte array: the clone is the same address.
pub assume_specification[<alloy_primitives::Address as core::clone::Clone>::clone](
    a: &alloy_primitives::Address,
) -> (r: alloy_primitives::Address)
    ensures
        r == *a,
;

} // verus!
