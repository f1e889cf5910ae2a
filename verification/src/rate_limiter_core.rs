//! The two operations of the plain limiter interface.

use vstd::prelude::*;
use crate::error::{SimpleAcquireResult, SimpleRateLimitError};
use crate::types::Uint;

verus! {

/// A limiter reduced to acquiring and to a remaining figure that never fails.
pub trait RateLimiterCore: Send + Sync {
    /// The capacity: the most units that one request can be granted.
    spec fn limit(&self) -> Uint;

    /// Tries to take `tokens` units at `tick`.
    ///
    /// Zero units are always granted and more than the capacity never. A
    /// request above the capacity is not told apart from one that does not
    /// fit: `BeyondCapacity` is never returned here.
    fn try_acquire_at(&self, tick: Uint, tokens: Uint) -> (r: SimpleAcquireResult)
        ensures
            tokens == 0 ==> r is Ok,
            tokens > self.limit() ==> r is Err,
            r != Err::<(), SimpleRateLimitError>(SimpleRateLimitError::BeyondCapacity),
    ;

    /// Whether `left` is a figure that the limiter may report as remaining at
    /// `tick`.
    spec fn may_report(&self, tick: Uint, left: Uint) -> bool;

    /// What the limiter reports as remaining at `tick`, or 0 when it cannot
    /// tell: never more than the capacity.
    fn capacity_remaining(&self, tick: Uint) -> (r: Uint)
        ensures
            r <= self.limit(),
            r == 0 || self.may_report(tick, r),
    ;
}

} // verus!
