//! The integer type shared by ticks and unit counts.

use vstd::prelude::*;

verus! {

/// Unsigned integer used for capacities, unit counts and ticks.
pub type Uint = u64;

} // verus!
