use vstd::prelude::*;

verus! {

/// The lowest manifest version this module can read.
pub const MINIMUM_RSI_VERSION: u64 = 1;

/// The highest manifest version this module can read.
pub const MAXIMUM_RSI_VERSION: u64 = 1;

} // verus!
