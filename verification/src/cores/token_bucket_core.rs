//! Token bucket: one reserve that refills at a constant rate.
//!
//! Requests take units out of the reserve; every `refill_interval` ticks
//! `refill_amount` units come back, up to the capacity. A request is admitted
//! while the reserve covers it. The bucket starts full, so a burst of the
//! whole capacity is possible at once.

use vstd::prelude::*;
use vstd::arithmetic::div_mod::{lemma_div_pos_is_pos, lemma_fundamental_div_mod, lemma_mod_multiples_vanish};
use std::sync::Mutex;
use crate::arith::{ceil_div, sat, saturating_mul, steps_to_cover};
use crate::error::{
    SimpleAcquireResult, SimpleRateLimitError, SimpleRateLimitResult, VerboseAcquireResult,
    VerboseRateLimitError, VerboseRateLimitResult,
};
use crate::lock::{lock_new, lock_state, lock_try};
use crate::rate_limit::RateLimitCore;
use crate::rate_limiter_core::RateLimiterCore;
use crate::types::Uint;

verus! {

/// What a token bucket is, as plain numbers.
pub struct TokenBucketModel {
    /// Largest reserve the bucket can hold.
    pub capacity: nat,
    /// Ticks between two refills.
    pub refill_interval: nat,
    /// Units that come back at each refill.
    pub refill_amount: nat,
    /// Units in the reserve.
    pub available: nat,
    /// Tick of the last refill that was applied.
    pub last_refill_tick: nat,
}

impl TokenBucketModel {
    /// A bucket as it is made: full, with refills counted from tick 0.
    pub open spec fn initial(capacity: nat, refill_interval: nat, refill_amount: nat) -> Self {
        TokenBucketModel {
            capacity,
            refill_interval,
            refill_amount,
            available: capacity,
            last_refill_tick: 0,
        }
    }

    /// The parameters are positive, the reserve is within capacity, and the
    /// last refill fell on a whole number of intervals from tick 0.
    pub open spec fn wf(self) -> bool {
        &&& 0 < self.capacity <= Uint::MAX
        &&& 0 < self.refill_interval <= Uint::MAX
        &&& 0 < self.refill_amount <= Uint::MAX
        &&& self.available <= self.capacity
        &&& self.last_refill_tick <= Uint::MAX
        &&& self.last_refill_tick % self.refill_interval == 0
    }

    /// A bucket as it is made is well formed.
    pub proof fn lemma_initial(capacity: nat, refill_interval: nat, refill_amount: nat)
        requires
            0 < capacity <= Uint::MAX,
            0 < refill_interval <= Uint::MAX,
            0 < refill_amount <= Uint::MAX,
        ensures
            Self::initial(capacity, refill_interval, refill_amount).wf(),
    {
        vstd::arithmetic::div_mod::lemma_small_mod(0, refill_interval);
    }

    /// Same capacity and refill rate.
    pub open spec fn same_config(self, other: Self) -> bool {
        &&& self.capacity == other.capacity
        &&& self.refill_interval == other.refill_interval
        &&& self.refill_amount == other.refill_amount
    }

    /// The smallest tick that is still accepted.
    pub open spec fn min_tick(self) -> nat {
        self.last_refill_tick
    }

    /// Whether `tick` lies before the last refill.
    pub open spec fn expired(self, tick: nat) -> bool {
        tick < self.min_tick()
    }

    /// Whole refill intervals between the last refill and `tick`.
    pub open spec fn refills_due(self, tick: nat) -> nat {
        ((tick - self.last_refill_tick) / (self.refill_interval as int)) as nat
    }

    /// The reserve as it stands, whatever the tick.
    pub open spec fn current_capacity(self) -> nat {
        self.available
    }

    /// The bucket as seen at `tick`: every whole interval since the last
    /// refill has brought its amount back, up to the capacity at most, and the
    /// last refill has moved on by exactly those intervals.
    pub open spec fn at_tick(self, tick: nat) -> Self {
        let refills = self.refills_due(tick);
        TokenBucketModel {
            available: if self.available + refills * self.refill_amount >= self.capacity {
                self.capacity
            } else {
                self.available + refills * self.refill_amount
            },
            last_refill_tick: self.last_refill_tick + refills * self.refill_interval,
            ..self
        }
    }

    /// The bucket after `tokens` units were taken out.
    pub open spec fn with_taken(self, tokens: nat) -> Self {
        TokenBucketModel { available: (self.available - tokens) as nat, ..self }
    }

    /// Estimated ticks until `tokens` units are there: one interval for each
    /// refill needed to bring in what is missing, clamped to the range of
    /// `Uint`.
    pub open spec fn retry_after(self, tokens: nat) -> nat {
        sat(
            (self.refill_interval * ceil_div((tokens - self.available) as nat, self.refill_amount)) as int,
        )
    }

    /// Outcome and next state of the short acquisition path.
    pub open spec fn acquire(self, tick: nat, tokens: nat) -> (Self, SimpleAcquireResult) {
        if tokens == 0 {
            (self, Ok(()))
        } else if self.expired(tick) {
            (self, Err(SimpleRateLimitError::ExpiredTick))
        } else if tokens <= self.at_tick(tick).available {
            (self.at_tick(tick).with_taken(tokens), Ok(()))
        } else {
            (self.at_tick(tick), Err(SimpleRateLimitError::InsufficientCapacity))
        }
    }

    /// Outcome and next state of the diagnostic acquisition path.
    pub open spec fn acquire_verbose(self, tick: nat, tokens: nat) -> (Self, VerboseAcquireResult) {
        if tokens == 0 {
            (self, Ok(()))
        } else if self.expired(tick) {
            (self, Err(VerboseRateLimitError::ExpiredTick { min_acceptable_tick: self.min_tick() as Uint }))
        } else if tokens > self.capacity {
            (
                self,
                Err(
                    VerboseRateLimitError::BeyondCapacity {
                        acquiring: tokens as Uint,
                        capacity: self.capacity as Uint,
                    },
                ),
            )
        } else if tokens <= self.at_tick(tick).available {
            (self.at_tick(tick).with_taken(tokens), Ok(()))
        } else {
            (
                self.at_tick(tick),
                Err(
                    VerboseRateLimitError::InsufficientCapacity {
                        acquiring: tokens as Uint,
                        available: self.at_tick(tick).available as Uint,
                        retry_after_ticks: self.at_tick(tick).retry_after(tokens) as Uint,
                    },
                ),
            )
        }
    }

    /// Outcome and next state of asking for the reserve at `tick`.
    pub open spec fn remaining(self, tick: nat) -> (Self, Result<Uint, SimpleRateLimitError>) {
        if self.expired(tick) {
            (self, Err(SimpleRateLimitError::ExpiredTick))
        } else {
            (self.at_tick(tick), Ok(self.at_tick(tick).available as Uint))
        }
    }

    /// Refilling keeps a bucket well formed, never lowers the reserve, and
    /// never moves the last refill past the tick.
    pub proof fn lemma_at_tick(self, tick: nat)
        requires
            self.wf(),
            !self.expired(tick),
            tick <= Uint::MAX,
        ensures
            self.at_tick(tick).wf(),
            self.at_tick(tick).same_config(self),
            self.available <= self.at_tick(tick).available <= self.capacity,
            self.last_refill_tick <= self.at_tick(tick).last_refill_tick <= tick,
            tick - self.at_tick(tick).last_refill_tick < self.refill_interval,
    {
        let i = self.refill_interval as int;
        let e = tick - self.last_refill_tick;
        let n = self.refills_due(tick) as int;
        let last = self.last_refill_tick as int;
        lemma_fundamental_div_mod(e, i);
        lemma_div_pos_is_pos(e, i);
        assert(n == e / i);
        assert(i * n == n * i) by (nonlinear_arith);
        assert(0 <= n * i <= e);
        lemma_mod_multiples_vanish(n, last, i);
        assert((last + n * i) % i == 0);
        assert(self.at_tick(tick).last_refill_tick == last + n * i);
        assert(n * self.refill_amount >= 0) by (nonlinear_arith)
            requires
                n >= 0,
                self.refill_amount >= 0,
        ;
    }
}

/// What holds of every bucket, and of every run of requests.
impl TokenBucketModel {
    /// The bucket after the requests, each a tick and a number of units, went
    /// through the short path in order.
    pub open spec fn after(self, requests: Seq<(nat, nat)>) -> Self
        decreases requests.len(),
    {
        if requests.len() == 0 {
            self
        } else {
            self.after(requests.drop_last()).acquire(requests.last().0, requests.last().1).0
        }
    }

    /// The ticks of the requests never go back, and all ticks and units are
    /// within the range of `Uint`.
    pub open spec fn in_order(requests: Seq<(nat, nat)>) -> bool {
        &&& forall|i: int| 0 <= i < requests.len() ==> (#[trigger] requests[i]).0 <= Uint::MAX
        &&& forall|i: int| 0 <= i < requests.len() ==> (#[trigger] requests[i]).1 <= Uint::MAX
        &&& forall|i: int, j: int|
            0 <= i <= j < requests.len() ==> (#[trigger] requests[i]).0 <= (#[trigger] requests[j]).0
    }

    /// Every operation keeps the bucket well formed and its configuration
    /// as it was; one that is given a tick that has not expired leaves no
    /// later minimum than that tick behind.
    pub proof fn lemma_step(self, tick: nat, tokens: nat)
        requires
            self.wf(),
            tick <= Uint::MAX,
            tokens <= Uint::MAX,
        ensures
            self.acquire(tick, tokens).0.wf(),
            self.acquire(tick, tokens).0.same_config(self),
            self.acquire_verbose(tick, tokens).0.wf(),
            self.acquire_verbose(tick, tokens).0.same_config(self),
            self.remaining(tick).0.wf(),
            self.remaining(tick).0.same_config(self),
            !self.expired(tick) ==> self.acquire(tick, tokens).0.min_tick() <= tick,
            !self.expired(tick) ==> self.acquire_verbose(tick, tokens).0.min_tick() <= tick,
            !self.expired(tick) ==> self.remaining(tick).0.min_tick() <= tick,
    {
        if !self.expired(tick) {
            self.lemma_at_tick(tick);
        }
    }

    /// Zero units always succeed and change nothing, whatever the tick and
    /// whatever the bucket holds.
    pub proof fn law_zero_units(self, tick: nat)
        ensures
            self.acquire(tick, 0) == (self, Ok::<(), SimpleRateLimitError>(())),
            self.acquire_verbose(tick, 0) == (self, Ok::<(), VerboseRateLimitError>(())),
    {
    }

    /// A tick below the retained minimum is refused as expired, for any
    /// request of at least one unit and for any question about what is left,
    /// and the bucket stays as it was.
    pub proof fn law_expired_tick(self, tick: nat, tokens: nat)
        requires
            tick < self.min_tick(),
            tokens > 0,
        ensures
            self.acquire(tick, tokens) == (
                self,
                Err::<(), SimpleRateLimitError>(SimpleRateLimitError::ExpiredTick),
            ),
            self.acquire_verbose(tick, tokens) == (
                self,
                Err::<(), VerboseRateLimitError>(
                    VerboseRateLimitError::ExpiredTick { min_acceptable_tick: self.min_tick() as Uint },
                ),
            ),
            self.remaining(tick) == (
                self,
                Err::<Uint, SimpleRateLimitError>(SimpleRateLimitError::ExpiredTick),
            ),
    {
    }

    /// After an operation at a tick that has not expired, no tick at or after
    /// it is expired.
    pub proof fn law_later_ticks_accepted(self, tick: nat, tokens: nat, later: nat)
        requires
            self.wf(),
            tick <= Uint::MAX,
            tokens <= Uint::MAX,
            !self.expired(tick),
            tick <= later,
        ensures
            !self.acquire(tick, tokens).0.expired(later),
            !self.acquire_verbose(tick, tokens).0.expired(later),
            !self.remaining(tick).0.expired(later),
    {
        self.lemma_step(tick, tokens);
    }

    /// A run of requests whose ticks never go back, starting at or after the
    /// retained minimum, keeps the bucket well formed and leaves the
    /// minimum at or below the last tick.
    pub proof fn lemma_run(self, requests: Seq<(nat, nat)>)
        requires
            self.wf(),
            Self::in_order(requests),
            requests.len() > 0 ==> !self.expired(requests[0].0),
        ensures
            self.after(requests).wf(),
            self.after(requests).same_config(self),
            requests.len() > 0 ==> self.after(requests).min_tick() <= requests.last().0,
        decreases requests.len(),
    {
        if requests.len() > 0 {
            let before = requests.drop_last();
            let (tick, tokens) = requests.last();
            assert(forall|i: int| 0 <= i < before.len() ==> before[i] == requests[i]);
            self.lemma_run(before);
            let s = self.after(before);
            if before.len() > 0 {
                assert(before.last() == requests[before.len() - 1]);
            }
            s.lemma_step(tick, tokens);
            if tokens == 0 {
                assert(s.acquire(tick, tokens).0 == s);
            }
        }
    }

    /// On ticks that never go back, no request is refused as expired.
    pub proof fn law_no_expiry_in_order(self, requests: Seq<(nat, nat)>, i: int)
        requires
            self.wf(),
            Self::in_order(requests),
            requests.len() > 0 ==> !self.expired(requests[0].0),
            0 <= i < requests.len(),
        ensures
            self.after(requests.take(i)).acquire(requests[i].0, requests[i].1).1 != Err::<
                (),
                SimpleRateLimitError,
            >(SimpleRateLimitError::ExpiredTick),
    {
        let before = requests.take(i);
        assert(forall|j: int| 0 <= j < before.len() ==> before[j] == requests[j]);
        self.lemma_run(before);
        if i > 0 {
            assert(before.last() == requests[i - 1]);
        }
    }

    /// Units that the requests were granted, taken through the short path in
    /// order.
    pub open spec fn granted(self, requests: Seq<(nat, nat)>) -> nat
        decreases requests.len(),
    {
        if requests.len() == 0 {
            0
        } else {
            self.granted(requests.drop_last()) + if self.after(requests.drop_last()).acquire(
                requests.last().0,
                requests.last().1,
            ).1 is Ok {
                requests.last().1
            } else {
                0
            }
        }
    }

    /// Units that are out of the reserve as seen at `tick`.
    pub open spec fn usage(self, tick: nat) -> nat {
        (self.capacity - self.at_tick(tick).available) as nat
    }

    /// A request at a tick raises the usage seen at that tick by what it was
    /// granted, and a grant leaves that usage within the capacity.
    pub proof fn lemma_usage_step(self, tick: nat, tokens: nat)
        requires
            self.wf(),
            tick <= Uint::MAX,
            tokens <= Uint::MAX,
            !self.expired(tick),
        ensures
            self.acquire(tick, tokens).0.wf(),
            self.acquire(tick, tokens).0.same_config(self),
            !self.acquire(tick, tokens).0.expired(tick),
            self.acquire(tick, tokens).0.usage(tick) == self.usage(tick) + if self.acquire(
                tick,
                tokens,
            ).1 is Ok {
                tokens
            } else {
                0
            },
            tokens > 0 && self.acquire(tick, tokens).1 is Ok ==> self.acquire(tick, tokens).0.usage(
                tick,
            ) <= self.capacity,
    {
        self.lemma_step(tick, tokens);
        self.lemma_at_tick(tick);
        let seen = self.at_tick(tick);
        vstd::arithmetic::div_mod::lemma_basic_div((tick - seen.last_refill_tick) as int, self.refill_interval as int);
        assert(0 * self.refill_amount == 0 && 0 * self.refill_interval == 0);
        assert(seen.at_tick(tick) == seen);
        assert(seen.with_taken(tokens).refills_due(tick) == 0);
        if tokens <= seen.available {
            assert(seen.with_taken(tokens).at_tick(tick) == seen.with_taken(tokens));
        }
    }

    /// What is granted at one tick adds up to no more than the capacity,
    /// however many requests there are and whatever the bucket held before:
    /// every grant shows in the usage seen at that tick.
    pub proof fn law_grants_at_one_tick(self, requests: Seq<(nat, nat)>, tick: nat)
        requires
            self.wf(),
            Self::in_order(requests),
            forall|i: int| 0 <= i < requests.len() ==> (#[trigger] requests[i]).0 == tick,
            tick <= Uint::MAX,
            !self.expired(tick),
        ensures
            self.after(requests).wf(),
            self.after(requests).same_config(self),
            !self.after(requests).expired(tick),
            self.granted(requests) + self.usage(tick) == self.after(requests).usage(tick),
            self.granted(requests) > 0 ==> self.after(requests).usage(tick) <= self.capacity,
            self.granted(requests) <= self.capacity,
        decreases requests.len(),
    {
        if requests.len() > 0 {
            let before = requests.drop_last();
            let tokens = requests.last().1;
            assert(forall|i: int| 0 <= i < before.len() ==> before[i] == requests[i]);
            assert(requests.last() == requests[requests.len() - 1]);
            self.law_grants_at_one_tick(before, tick);
            self.after(before).lemma_usage_step(tick, tokens);
        }
    }

    /// The short path and the diagnostic path decide alike: they grant the
    /// same requests and leave the same bucket behind a grant, and they
    /// refuse for the same reason, except that the short path reports a
    /// request above the capacity as one that does not fit.
    pub proof fn law_paths_agree(self, tick: nat, tokens: nat)
        requires
            self.wf(),
            tick <= Uint::MAX,
            tokens <= Uint::MAX,
        ensures
            self.acquire(tick, tokens).1 is Ok <==> self.acquire_verbose(tick, tokens).1 is Ok,
            self.acquire(tick, tokens).1 is Ok ==> self.acquire(tick, tokens).0 == self.acquire_verbose(
                tick,
                tokens,
            ).0,
            self.acquire_verbose(tick, tokens).1 matches Err(e) ==> self.acquire(tick, tokens).1 == Err::<
                (),
                SimpleRateLimitError,
            >(
                if e is BeyondCapacity {
                    SimpleRateLimitError::InsufficientCapacity
                } else {
                    e.simplified()
                },
            ),
    {
        self.lemma_step(tick, tokens);

    }

    /// What is reported as the reserve at a tick can be taken at that tick.
    pub proof fn law_reported_is_grantable(self, tick: nat)
        requires
            self.wf(),
            tick <= Uint::MAX,
            !self.expired(tick),
        ensures
            self.remaining(tick).1 matches Ok(left) && (left == 0 || self.remaining(tick).0.acquire(
                tick,
                left as nat,
            ).1 is Ok),
    {
        self.lemma_step(tick, 0);
        self.lemma_at_tick(tick);
        let seen = self.at_tick(tick);
        vstd::arithmetic::div_mod::lemma_basic_div((tick - seen.last_refill_tick) as int, self.refill_interval as int);
        assert(0 * self.refill_amount == 0 && 0 * self.refill_interval == 0);
        assert(seen.at_tick(tick) == seen);
    }

    /// The reserve never exceeds the capacity, and a grant takes exactly what
    /// was asked out of the reserve that the refills have left.
    pub proof fn law_capacity(self, tick: nat, tokens: nat)
        requires
            self.wf(),
            tick <= Uint::MAX,
            tokens <= Uint::MAX,
        ensures
            self.acquire(tick, tokens).0.available <= self.capacity,
            self.acquire_verbose(tick, tokens).0.available <= self.capacity,
            self.acquire(tick, tokens).1 is Ok && tokens > 0 ==> tokens <= self.capacity
                && self.acquire(tick, tokens).0.available + tokens == self.at_tick(tick).available,
            self.acquire(tick, tokens).1 is Ok <==> self.acquire_verbose(tick, tokens).1 is Ok,
    {
        self.lemma_step(tick, tokens);
    }

    /// A request within the capacity that was told to wait is granted when
    /// the wait is over, if nothing else was taken meanwhile and the estimate
    /// was not clamped: by then the refills have brought in what was missing.
    pub proof fn law_retry_suffices(self, tick: nat, tokens: nat)
        requires
            self.wf(),
            !self.expired(tick),
            0 < tokens <= self.capacity,
            tokens > self.at_tick(tick).available,
            tick + self.refill_interval * ceil_div(
                (tokens - self.at_tick(tick).available) as nat,
                self.refill_amount,
            ) <= Uint::MAX,
        ensures
            self.acquire_verbose(tick, tokens).1 matches Err(
                VerboseRateLimitError::InsufficientCapacity { retry_after_ticks, .. },
            ) && self.acquire_verbose(tick, tokens).0.acquire(
                tick + retry_after_ticks as nat,
                tokens,
            ).1 is Ok,
    {
        self.lemma_at_tick(tick);
        let seen = self.at_tick(tick);
        let i = self.refill_interval as int;
        let a = self.refill_amount as int;
        let d = (tokens - seen.available) as nat;
        let k = ceil_div(d, self.refill_amount) as int;
        crate::arith::lemma_ceil_div(d, self.refill_amount);
        assert(i * k >= 0) by (nonlinear_arith)
            requires
                i >= 0,
                k >= 0,
        ;
        let later = (tick + i * k) as nat;
        let due = seen.refills_due(later) as int;
        assert(due >= k) by {
            vstd::arithmetic::div_mod::lemma_div_multiples_vanish(k, i);
            assert(i * k == k * i) by (nonlinear_arith);
            vstd::arithmetic::div_mod::lemma_div_is_ordered(i * k, later - seen.last_refill_tick, i);
        }
        assert(due * a >= k * a) by (nonlinear_arith)
            requires
                due >= k,
                a >= 0,
        ;
        seen.lemma_at_tick(later);
    }

    /// Refills stop at the capacity: once the refills that are due cover what
    /// is missing, the reserve is the capacity exactly, and it is never more.
    pub proof fn law_refill_cap(self, tick: nat)
        requires
            self.wf(),
            !self.expired(tick),
            tick <= Uint::MAX,
        ensures
            self.at_tick(tick).available <= self.capacity,
            self.available + self.refills_due(tick) * self.refill_amount >= self.capacity
                ==> self.at_tick(tick).available == self.capacity,
    {
        self.lemma_at_tick(tick);
    }

    /// A bucket that was drained at tick 0 is full again, and no more than
    /// full, at any tick by which the refills add up to the capacity.
    pub proof fn law_drained_bucket_refills(
        capacity: nat,
        refill_interval: nat,
        refill_amount: nat,
        tick: nat,
    )
        requires
            0 < capacity <= Uint::MAX,
            0 < refill_interval <= Uint::MAX,
            0 < refill_amount <= Uint::MAX,
            (tick / refill_interval) * refill_amount >= capacity,
        ensures
            Self::initial(capacity, refill_interval, refill_amount).acquire(0, capacity).1 is Ok,
            Self::initial(capacity, refill_interval, refill_amount).acquire(0, capacity).0.available
                == 0,
            Self::initial(capacity, refill_interval, refill_amount).acquire(0, capacity).0.at_tick(
                tick,
            ).available == capacity,
    {
        let fresh = Self::initial(capacity, refill_interval, refill_amount);
        assert(fresh.refills_due(0) == 0);
        assert(0 * refill_amount == 0 && 0 * refill_interval == 0);
        assert(fresh.at_tick(0) == fresh);
        let drained = fresh.acquire(0, capacity).0;
        assert(drained.available == 0 && drained.last_refill_tick == 0);
        assert(drained.refills_due(tick) == tick / refill_interval);
    }
}

/// A token bucket: its configuration and its reserve, as one value that a
/// lock can guard.
pub struct TokenBucketCoreState {
    capacity: Uint,
    refill_interval: Uint,
    refill_amount: Uint,
    available: Uint,
    last_refill_tick: Uint,
}

impl View for TokenBucketCoreState {
    type V = TokenBucketModel;

    closed spec fn view(&self) -> TokenBucketModel {
        TokenBucketModel {
            capacity: self.capacity as nat,
            refill_interval: self.refill_interval as nat,
            refill_amount: self.refill_amount as nat,
            available: self.available as nat,
            last_refill_tick: self.last_refill_tick as nat,
        }
    }
}

impl TokenBucketCoreState {
    #[verifier::type_invariant]
    spec fn inv(self) -> bool {
        self@.wf()
    }

    /// A full bucket.
    pub fn new(capacity: Uint, refill_interval: Uint, refill_amount: Uint) -> (s: Self)
        requires
            capacity > 0,
            refill_interval > 0,
            refill_amount > 0,
        ensures
            s@ == TokenBucketModel::initial(capacity as nat, refill_interval as nat, refill_amount as nat),
            s@.wf(),
    {
        proof {
            vstd::arithmetic::div_mod::lemma_small_mod(0, refill_interval as nat);
        }
        TokenBucketCoreState {
            capacity,
            refill_interval,
            refill_amount,
            available: capacity,
            last_refill_tick: 0,
        }
    }

    /// Binds the bucket to the given parameters: a bucket that has them
    /// already stays as it is, any other starts afresh under them.
    pub fn bind(&mut self, capacity: Uint, refill_interval: Uint, refill_amount: Uint)
        requires
            capacity > 0,
            refill_interval > 0,
            refill_amount > 0,
        ensures
            final(self)@.wf(),
            final(self)@.same_config(Self::fresh(capacity, refill_interval, refill_amount)),
            final(self)@ == if old(self)@.same_config(Self::fresh(capacity, refill_interval, refill_amount)) {
                old(self)@
            } else {
                Self::fresh(capacity, refill_interval, refill_amount)
            },
    {
        proof {
            use_type_invariant(&*self);
        }
        if self.capacity != capacity
            || self.refill_interval != refill_interval
            || self.refill_amount != refill_amount
        {
            *self = Self::new(capacity, refill_interval, refill_amount);
        }
    }

    /// The model of a bucket as it is made with the given parameters.
    pub open spec fn fresh(
        capacity: Uint,
        refill_interval: Uint,
        refill_amount: Uint,
    ) -> TokenBucketModel {
        TokenBucketModel::initial(
                capacity as nat,
                refill_interval as nat,
                refill_amount as nat,
        )
    }

    /// Largest reserve the bucket can hold.
    pub fn capacity(&self) -> (r: Uint)
        ensures
            r == self@.capacity,
    {
        self.capacity
    }

    /// Applies every refill that is due at `tick`.
    fn refill_to(&mut self, tick: Uint)
        requires
            !old(self)@.expired(tick as nat),
        ensures
            final(self)@ == old(self)@.at_tick(tick as nat),
            final(self)@.wf(),
    {
        proof {
            use_type_invariant(&*self);
            self@.lemma_at_tick(tick as nat);
        }
        let ghost before = self@;
        let elapsed = tick - self.last_refill_tick;
        let refills = elapsed / self.refill_interval;
        let refilled = saturating_mul(refills, self.refill_amount);
        assert(refills == before.refills_due(tick as nat));
        assert(refills * self.refill_interval == before.at_tick(tick as nat).last_refill_tick
            - before.last_refill_tick);
        assert(refills == 0 ==> refills * self.refill_interval == 0) by (nonlinear_arith);
        let topped = self.available.saturating_add(refilled);
        self.available = if topped < self.capacity {
            topped
        } else {
            self.capacity
        };
        if refills > 0 {
            self.last_refill_tick = self.last_refill_tick + refills * self.refill_interval;
        }
        assert(self@.available == before.at_tick(tick as nat).available);
        assert(self@.last_refill_tick == before.at_tick(tick as nat).last_refill_tick);
    }

    /// Estimated ticks until `tokens` units are there, for a request that the
    /// reserve does not cover now.
    fn retry_after(&self, tokens: Uint) -> (r: Uint)
        requires
            tokens > self@.available,
        ensures
            r == self@.retry_after(tokens as nat),
    {
        let needed = tokens - self.available;
        proof {
            use_type_invariant(self);
        }
        let refills = steps_to_cover(needed, self.refill_amount);
        saturating_mul(self.refill_interval, refills)
    }

    /// Takes `tokens` units out at `tick`, on the short path.
    pub fn try_acquire_at(&mut self, tick: Uint, tokens: Uint) -> (r: SimpleAcquireResult)
        ensures
            (final(self)@, r) == old(self)@.acquire(tick as nat, tokens as nat),
            final(self)@.wf(),
            tokens == 0 ==> r is Ok && final(self)@ == old(self)@,
    {
        proof {
            use_type_invariant(&*self);
        }
        if tokens == 0 {
            return Ok(());
        }
        if tick < self.last_refill_tick {
            return Err(SimpleRateLimitError::ExpiredTick);
        }
        self.refill_to(tick);
        if tokens <= self.available {
            self.available = self.available - tokens;
            Ok(())
        } else {
            Err(SimpleRateLimitError::InsufficientCapacity)
        }
    }

    /// Takes `tokens` units out at `tick`, and says why not when it cannot.
    pub fn try_acquire_verbose_at(&mut self, tick: Uint, tokens: Uint) -> (r: VerboseAcquireResult)
        ensures
            (final(self)@, r) == old(self)@.acquire_verbose(tick as nat, tokens as nat),
            final(self)@.wf(),
            tokens == 0 ==> r is Ok && final(self)@ == old(self)@,
    {
        proof {
            use_type_invariant(&*self);
        }
        if tokens == 0 {
            return Ok(());
        }
        if tick < self.last_refill_tick {
            return Err(VerboseRateLimitError::ExpiredTick { min_acceptable_tick: self.last_refill_tick });
        }
        if tokens > self.capacity {
            return Err(
                VerboseRateLimitError::BeyondCapacity { acquiring: tokens, capacity: self.capacity },
            );
        }
        self.refill_to(tick);
        if tokens <= self.available {
            self.available = self.available - tokens;
            Ok(())
        } else {
            let retry_after_ticks = self.retry_after(tokens);
            Err(
                VerboseRateLimitError::InsufficientCapacity {
                    acquiring: tokens,
                    available: self.available,
                    retry_after_ticks,
                },
            )
        }
    }

    /// The reserve at `tick`, after the refills that are due.
    pub fn capacity_remaining(&mut self, tick: Uint) -> (r: Result<Uint, SimpleRateLimitError>)
        ensures
            (final(self)@, r) == old(self)@.remaining(tick as nat),
            final(self)@.wf(),
    {
        proof {
            use_type_invariant(&*self);
        }
        if tick < self.last_refill_tick {
            return Err(SimpleRateLimitError::ExpiredTick);
        }
        self.refill_to(tick);
        Ok(self.available)
    }

    /// The reserve as it stands, without applying any refill.
    pub fn current_capacity(&self) -> (r: Uint)
        ensures
            r == self@.current_capacity(),
    {
        self.available
    }
}

/// A token bucket shared between threads.
///
/// The bucket sits behind a lock that is tried once per call and never
/// awaited: a call that finds the lock taken fails with `ContentionFailure`.
/// A call that gets the lock performs its whole read-decide-update step on
/// the bucket before it lets go.
///
/// The parameters stand beside the lock, where they can be read at any time;
/// the bucket behind the lock is bound to them before every step.
pub struct TokenBucketCore {
    capacity: Uint,
    refill_interval: Uint,
    refill_amount: Uint,
    state: Mutex<TokenBucketCoreState>,
}

impl TokenBucketCore {
    #[verifier::type_invariant]
    spec fn inv(self) -> bool {
        self.capacity > 0 && self.refill_interval > 0 && self.refill_amount > 0
    }

    /// Largest reserve the bucket can hold.
    pub closed spec fn spec_capacity(&self) -> Uint {
        self.capacity
    }

    /// Ticks between two refills.
    pub closed spec fn spec_refill_interval(&self) -> Uint {
        self.refill_interval
    }

    /// Units that come back at each refill.
    pub closed spec fn spec_refill_amount(&self) -> Uint {
        self.refill_amount
    }

    /// Largest reserve the bucket can hold.
    #[verifier::when_used_as_spec(spec_capacity)]
    pub fn capacity(&self) -> (r: Uint)
        ensures
            r == self.spec_capacity(),
            r > 0,
    {
        proof {
            use_type_invariant(self);
        }
        self.capacity
    }

    /// Ticks between two refills.
    #[verifier::when_used_as_spec(spec_refill_interval)]
    pub fn refill_interval(&self) -> (r: Uint)
        ensures
            r == self.spec_refill_interval(),
            r > 0,
    {
        proof {
            use_type_invariant(self);
        }
        self.refill_interval
    }

    /// Units that come back at each refill.
    #[verifier::when_used_as_spec(spec_refill_amount)]
    pub fn refill_amount(&self) -> (r: Uint)
        ensures
            r == self.spec_refill_amount(),
            r > 0,
    {
        proof {
            use_type_invariant(self);
        }
        self.refill_amount
    }

    /// `s` is a well formed bucket with the parameters of this limiter.
    pub open spec fn governs(&self, s: TokenBucketModel) -> bool {
        &&& s.wf()
        &&& s.capacity == self.spec_capacity()
        &&& s.refill_interval == self.spec_refill_interval()
        &&& s.refill_amount == self.spec_refill_amount()
    }

    /// The limiter governs a bucket as it is made with its parameters: there
    /// is always a bucket that it governs.
    proof fn lemma_governs_fresh(&self)
        requires
            self.inv(),
        ensures
            self.governs(
                TokenBucketModel::initial(
                    self.capacity as nat,
                    self.refill_interval as nat,
                    self.refill_amount as nat,
                ),
            ),
    {
        TokenBucketModel::lemma_initial(
            self.capacity as nat,
            self.refill_interval as nat,
            self.refill_amount as nat,
        );
    }

    /// `r` is a contention failure, or what the short path answers on some
    /// bucket that this limiter governs.
    pub open spec fn may_acquire(&self, tick: Uint, tokens: Uint, r: SimpleAcquireResult) -> bool {
        ||| tokens != 0 && r == Err::<(), SimpleRateLimitError>(
            SimpleRateLimitError::ContentionFailure,
        )
        ||| exists|s: TokenBucketModel| #[trigger]
            self.governs(s) && s.acquire(tick as nat, tokens as nat).1 == r
    }

    /// `r` is a contention failure, or what the diagnostic path answers on
    /// some bucket that this limiter governs.
    pub open spec fn may_acquire_verbose(
        &self,
        tick: Uint,
        tokens: Uint,
        r: VerboseAcquireResult,
    ) -> bool {
        ||| tokens != 0 && r == Err::<(), VerboseRateLimitError>(
            VerboseRateLimitError::ContentionFailure,
        )
        ||| exists|s: TokenBucketModel| #[trigger]
            self.governs(s) && s.acquire_verbose(tick as nat, tokens as nat).1 == r
    }

    /// `r` is a contention failure, or what `capacity_remaining` answers at
    /// `tick` on some bucket that this limiter governs.
    pub open spec fn may_remain(&self, tick: Uint, r: Result<Uint, SimpleRateLimitError>) -> bool {
        ||| r == Err::<Uint, SimpleRateLimitError>(SimpleRateLimitError::ContentionFailure)
        ||| exists|s: TokenBucketModel| #[trigger] self.governs(s) && s.remaining(tick as nat).1 == r
    }

    /// `r` is a contention failure, or what `current_capacity` reads from some
    /// bucket that this limiter governs.
    pub open spec fn may_hold(&self, r: Result<Uint, SimpleRateLimitError>) -> bool {
        ||| r == Err::<Uint, SimpleRateLimitError>(SimpleRateLimitError::ContentionFailure)
        ||| exists|s: TokenBucketModel| #[trigger]
            self.governs(s) && r == Ok::<Uint, SimpleRateLimitError>(s.current_capacity() as Uint)
    }

    /// A full bucket of `capacity` units that regains `refill_amount` units
    /// every `refill_interval` ticks.
    pub fn new(capacity: Uint, refill_interval: Uint, refill_amount: Uint) -> (core: Self)
        requires
            capacity > 0,
            refill_interval > 0,
            refill_amount > 0,
        ensures
            core.spec_capacity() == capacity,
            core.spec_refill_interval() == refill_interval,
            core.spec_refill_amount() == refill_amount,
    {
        let state = TokenBucketCoreState::new(capacity, refill_interval, refill_amount);
        TokenBucketCore { capacity, refill_interval, refill_amount, state: lock_new(state) }
    }

    /// Tries to take `tokens` units out at `tick`.
    ///
    /// Zero units always succeed and touch nothing. A request above the
    /// capacity is refused as `InsufficientCapacity`, like any other that the
    /// reserve does not cover.
    pub fn try_acquire_at(&self, tick: Uint, tokens: Uint) -> (r: SimpleAcquireResult)
        ensures
            tokens == 0 ==> r is Ok,
            tokens > self.spec_capacity() ==> r is Err,
            r != Err::<(), SimpleRateLimitError>(SimpleRateLimitError::BeyondCapacity),
            self.may_acquire(tick, tokens, r),
    {
        if tokens == 0 {
            proof {
                use_type_invariant(self);
                self.lemma_governs_fresh();
            }
            return Ok(());
        }
        let mut guard = match lock_try(&self.state) {
            Some(guard) => guard,
            None => {
                return Err(SimpleRateLimitError::ContentionFailure);
            },
        };
        proof {
            use_type_invariant(self);
        }
        let state = lock_state(&mut guard);
        state.bind(self.capacity, self.refill_interval, self.refill_amount);
        assert(self.governs(state@));
        state.try_acquire_at(tick, tokens)
    }

    /// Like `try_acquire_at`, and reports the figures behind a refusal: what
    /// was asked, what was available, and an estimate of the ticks to wait. A
    /// request above the capacity is refused as `BeyondCapacity`.
    pub fn try_acquire_verbose_at(&self, tick: Uint, tokens: Uint) -> (r: VerboseAcquireResult)
        ensures
            tokens == 0 ==> r is Ok,
            tokens > self.spec_capacity() ==> r is Err,
            r matches Err(VerboseRateLimitError::BeyondCapacity { acquiring, capacity }) ==> acquiring
                == tokens && capacity == self.spec_capacity() && tokens > capacity,
            r matches Err(VerboseRateLimitError::InsufficientCapacity { acquiring, available, .. })
                ==> acquiring == tokens && available < tokens <= self.spec_capacity(),
            self.may_acquire_verbose(tick, tokens, r),
    {
        if tokens == 0 {
            proof {
                use_type_invariant(self);
                self.lemma_governs_fresh();
            }
            return Ok(());
        }
        let mut guard = match lock_try(&self.state) {
            Some(guard) => guard,
            None => {
                return Err(VerboseRateLimitError::ContentionFailure);
            },
        };
        proof {
            use_type_invariant(self);
        }
        let state = lock_state(&mut guard);
        state.bind(self.capacity, self.refill_interval, self.refill_amount);
        assert(self.governs(state@));
        state.try_acquire_verbose_at(tick, tokens)
    }

    /// The reserve at `tick`, after the refills that are due have been applied.
    pub fn capacity_remaining(&self, tick: Uint) -> (r: Result<Uint, SimpleRateLimitError>)
        ensures
            r matches Err(e) ==> e == SimpleRateLimitError::ExpiredTick || e
                == SimpleRateLimitError::ContentionFailure,
            r matches Ok(left) ==> left <= self.spec_capacity(),
            self.may_remain(tick, r),
    {
        let mut guard = match lock_try(&self.state) {
            Some(guard) => guard,
            None => {
                return Err(SimpleRateLimitError::ContentionFailure);
            },
        };
        proof {
            use_type_invariant(self);
        }
        let state = lock_state(&mut guard);
        state.bind(self.capacity, self.refill_interval, self.refill_amount);
        assert(self.governs(state@));
        state.capacity_remaining(tick)
    }

    /// The reserve at `tick`, or 0 when that cannot be told.
    pub fn capacity_remaining_or_0(&self, tick: Uint) -> (r: Uint)
        ensures
            r <= self.spec_capacity(),
            r == 0 || self.may_remain(tick, Ok(r)),
    {
        match self.capacity_remaining(tick) {
            Ok(left) => left,
            Err(_) => 0,
        }
    }

    /// The reserve as it stands, without applying any refill.
    pub fn current_capacity(&self) -> (r: Result<Uint, SimpleRateLimitError>)
        ensures
            r matches Err(e) ==> e == SimpleRateLimitError::ContentionFailure,
            r matches Ok(left) ==> left <= self.spec_capacity(),
            self.may_hold(r),
    {
        let mut guard = match lock_try(&self.state) {
            Some(guard) => guard,
            None => {
                return Err(SimpleRateLimitError::ContentionFailure);
            },
        };
        proof {
            use_type_invariant(self);
        }
        let state = lock_state(&mut guard);
        state.bind(self.capacity, self.refill_interval, self.refill_amount);
        assert(self.governs(state@));
        Ok(state.current_capacity())
    }

    /// What `current_capacity` reads, or 0 when the bucket is busy.
    pub fn current_capacity_or_0(&self) -> (r: Uint)
        ensures
            r <= self.spec_capacity(),
            r == 0 || self.may_hold(Ok(r)),
    {
        match self.current_capacity() {
            Ok(left) => left,
            Err(_) => 0,
        }
    }

    /// Units in the bucket at `tick`: another name for `capacity_remaining`.
    pub fn tokens_in_bucket(&self, tick: Uint) -> (r: Result<Uint, SimpleRateLimitError>)
        ensures
            r matches Err(e) ==> e == SimpleRateLimitError::ExpiredTick || e
                == SimpleRateLimitError::ContentionFailure,
            r matches Ok(left) ==> left <= self.spec_capacity(),
            self.may_remain(tick, r),
    {
        self.capacity_remaining(tick)
    }
}

impl RateLimitCore for TokenBucketCore {
    open spec fn limit(&self) -> Uint {
        self.spec_capacity()
    }

    /// Takes the short path of [`TokenBucketCore::try_acquire_at`]: the answer is a
    /// contention failure, or what that path gives on some bucket that this
    /// limiter governs.
    fn try_acquire_at(&self, tick: Uint, tokens: Uint) -> (r: SimpleRateLimitResult)
        ensures
            self.may_acquire(tick, tokens, r),
    {
        self.try_acquire_at(tick, tokens)
    }

    /// Takes the diagnostic path of [`TokenBucketCore::try_acquire_verbose_at`]: the
    /// answer is a contention failure, or what that path gives on some bucket
    /// that this limiter governs.
    fn try_acquire_verbose_at(&self, tick: Uint, tokens: Uint) -> (r: VerboseRateLimitResult)
        ensures
            self.may_acquire_verbose(tick, tokens, r),
    {
        self.try_acquire_verbose_at(tick, tokens)
    }

    /// What [`TokenBucketCore::capacity_remaining`] reports at
    /// `tick`.
    fn capacity_remaining(&self, tick: Uint) -> (r: Result<Uint, SimpleRateLimitError>)
        ensures
            self.may_remain(tick, r),
    {
        self.capacity_remaining(tick)
    }

    /// What [`TokenBucketCore::capacity_remaining`] reports at
    /// `tick`, with every failure counted as 0.
    fn capacity_remaining_or_0(&self, tick: Uint) -> (r: Uint)
        ensures
            r == 0 || self.may_remain(tick, Ok(r)),
    {
        let outcome = <Self as RateLimitCore>::capacity_remaining(self, tick);
        match outcome {
            Ok(left) => left,
            Err(_) => 0,
        }
    }
}

impl RateLimiterCore for TokenBucketCore {
    open spec fn limit(&self) -> Uint {
        self.spec_capacity()
    }

    open spec fn may_report(&self, tick: Uint, left: Uint) -> bool {
        self.may_remain(tick, Ok(left))
    }

    /// Takes the short path of [`TokenBucketCore::try_acquire_at`]: the answer is a
    /// contention failure, or what that path gives on some bucket that this
    /// limiter governs.
    fn try_acquire_at(&self, tick: Uint, tokens: Uint) -> (r: SimpleAcquireResult)
        ensures
            self.may_acquire(tick, tokens, r),
    {
        self.try_acquire_at(tick, tokens)
    }

    /// What [`TokenBucketCore::capacity_remaining`] reports at
    /// `tick`, or 0 when that cannot be told.
    fn capacity_remaining(&self, tick: Uint) -> (r: Uint) {
        self.capacity_remaining_or_0(tick)
    }
}

/// Parameters of a [`TokenBucketCore`]. They are checked when the value is made, so
/// that turning it into a limiter cannot fail.
#[derive(Debug, Clone, Copy)]
pub struct TokenBucketCoreConfig {
    capacity: Uint,
    refill_interval: Uint,
    refill_amount: Uint,
}

impl TokenBucketCoreConfig {
    #[verifier::type_invariant]
    spec fn inv(self) -> bool {
        self.capacity > 0 && self.refill_interval > 0 && self.refill_amount > 0
    }

    /// Largest reserve the bucket can hold.
    pub closed spec fn spec_capacity(&self) -> Uint {
        self.capacity
    }

    /// Ticks between two refills.
    pub closed spec fn spec_refill_interval(&self) -> Uint {
        self.refill_interval
    }

    /// Units that come back at each refill.
    pub closed spec fn spec_refill_amount(&self) -> Uint {
        self.refill_amount
    }

    /// The parameters that `TokenBucketCore::new` takes, under the same conditions.
    pub fn new(capacity: Uint, refill_interval: Uint, refill_amount: Uint) -> (config: Self)
        requires
            capacity > 0,
            refill_interval > 0,
            refill_amount > 0,
        ensures
            config.spec_capacity() == capacity,
            config.spec_refill_interval() == refill_interval,
            config.spec_refill_amount() == refill_amount,
    {
        TokenBucketCoreConfig { capacity, refill_interval, refill_amount }
    }

    /// Largest reserve the bucket can hold.
    #[verifier::when_used_as_spec(spec_capacity)]
    pub fn capacity(&self) -> (r: Uint)
        ensures
            r == self.spec_capacity(),
            r > 0,
    {
        proof {
            use_type_invariant(self);
        }
        self.capacity
    }

    /// Ticks between two refills.
    #[verifier::when_used_as_spec(spec_refill_interval)]
    pub fn refill_interval(&self) -> (r: Uint)
        ensures
            r == self.spec_refill_interval(),
            r > 0,
    {
        proof {
            use_type_invariant(self);
        }
        self.refill_interval
    }

    /// Units that come back at each refill.
    #[verifier::when_used_as_spec(spec_refill_amount)]
    pub fn refill_amount(&self) -> (r: Uint)
        ensures
            r == self.spec_refill_amount(),
            r > 0,
    {
        proof {
            use_type_invariant(self);
        }
        self.refill_amount
    }
}

impl From<TokenBucketCoreConfig> for TokenBucketCore {
    /// The limiter that `new` makes from the same parameters.
    fn from(config: TokenBucketCoreConfig) -> (core: Self)
        ensures
            core.spec_capacity() == config.spec_capacity(),
            core.spec_refill_interval() == config.spec_refill_interval(),
            core.spec_refill_amount() == config.spec_refill_amount(),
    {
        TokenBucketCore::new(config.capacity(), config.refill_interval(), config.refill_amount())
    }
}

impl vstd::std_specs::convert::FromSpecImpl<TokenBucketCoreConfig> for TokenBucketCore {
    open spec fn obeys_from_spec() -> bool {
        false
    }

    open spec fn from_spec(config: TokenBucketCoreConfig) -> Self {
        arbitrary()
    }
}

} // verus!
