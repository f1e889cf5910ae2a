//! The operations that every limiter offers.

use vstd::prelude::*;
use crate::error::{
    SimpleRateLimitError, SimpleRateLimitResult, VerboseRateLimitError, VerboseRateLimitResult,
};
use crate::types::Uint;

verus! {

/// The units that `outcome` reports, with every failure counted as 0.
pub open spec fn or_zero(outcome: Result<Uint, SimpleRateLimitError>) -> Uint {
    match outcome {
        Ok(left) => left,
        Err(_) => 0,
    }
}

/// A limiter that can be shared between threads and asked, at a tick supplied
/// by the caller, for a number of units.
///
/// No operation waits. A request for zero units always succeeds, and a request
/// above the capacity never does.
pub trait RateLimitCore: Send + Sync {
    /// The capacity: the most units that one request can be granted.
    spec fn limit(&self) -> Uint;

    /// Tries to take `tokens` units at `tick`.
    ///
    /// Zero units are always granted and more than the capacity never. A
    /// request above the capacity is not told apart from one that does not
    /// fit: `BeyondCapacity` is never returned here.
    fn try_acquire_at(&self, tick: Uint, tokens: Uint) -> (r: SimpleRateLimitResult)
        ensures
            tokens == 0 ==> r is Ok,
            tokens > self.limit() ==> r is Err,
            r != Err::<(), SimpleRateLimitError>(SimpleRateLimitError::BeyondCapacity),
    ;

    /// Tries to take `tokens` units at `tick`, and reports the figures behind
    /// a refusal.
    ///
    /// Zero units are always granted and more than the capacity never. A
    /// refusal names the units that were asked for; `BeyondCapacity` names the
    /// capacity, and `InsufficientCapacity` names fewer available units than
    /// were asked for.
    fn try_acquire_verbose_at(&self, tick: Uint, tokens: Uint) -> (r: VerboseRateLimitResult)
        ensures
            tokens == 0 ==> r is Ok,
            tokens > self.limit() ==> r is Err,
            r matches Err(VerboseRateLimitError::BeyondCapacity { acquiring, capacity }) ==> acquiring
                == tokens && capacity == self.limit() && tokens > capacity,
            r matches Err(VerboseRateLimitError::InsufficientCapacity { acquiring, available, .. })
                ==> acquiring == tokens && available < tokens <= self.limit(),
    ;

    /// What the limiter reports as remaining at `tick`: never more than the
    /// capacity. It fails only on an expired tick or on contention.
    fn capacity_remaining(&self, tick: Uint) -> (r: Result<Uint, SimpleRateLimitError>)
        ensures
            r matches Ok(left) ==> left <= self.limit(),
            r matches Err(e) ==> e == SimpleRateLimitError::ExpiredTick || e
                == SimpleRateLimitError::ContentionFailure,
    ;

    /// What `capacity_remaining` reports at `tick`, with every failure
    /// counted as 0.
    fn capacity_remaining_or_0(&self, tick: Uint) -> (r: Uint)
        ensures
            r <= self.limit(),
            exists|outcome: Result<Uint, SimpleRateLimitError>| #[trigger]
                call_ensures(Self::capacity_remaining, (self, tick), outcome) && r == or_zero(outcome),
    {
        let outcome = self.capacity_remaining(tick);
        match outcome {
            Ok(left) => left,
            Err(_) => 0,
        }
    }
}

} // verus!
