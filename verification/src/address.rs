//! Addresses of accounts and validators.

use vstd::prelude::*;

verus! {

/// An account or validator, by the number that the host chain knows it by.
/// Addresses are ordered and compared as these numbers.
pub type Address = u64;

} // verus!
