//! Leaky bucket: one level that drains at a constant rate.
//!
//! Requests pour units into the bucket; every `leak_interval` ticks
//! `leak_amount` units drain away. A request is admitted while the level stays
//! within the capacity. The bucket starts empty.

use vstd::prelude::*;
use vstd::arithmetic::div_mod::{lemma_fundamental_div_mod, lemma_mod_multiples_vanish};
use std::sync::Mutex;
use crate::arith::{ceil_div, sat, saturating_mul, steps_to_cover};
use crate::error::{
    SimpleAcquireResult, SimpleRateLimitError, SimpleRateLimitResult, VerboseAcquireResult,
    VerboseRateLimitError, VerboseRateLimitResult,
};
use crate::lock::{lock_new, lock_state, lock_try};
use crate::rate_limit::RateLimitCore;
use crate::rate_limiter_core::RateLimiterCore;
use crate::types::Uint;

verus! {

/// What a leaky bucket is, as plain numbers.
pub struct LeakyBucketModel {
    /// Largest level the bucket can hold.
    pub capacity: nat,
    /// Ticks between two leaks.
    pub leak_interval: nat,
    /// Units that drain at each leak.
    pub leak_amount: nat,
    /// Units in the bucket.
    pub level: nat,
    /// Tick of the last leak that was applied.
    pub last_leak_tick: nat,
}

impl LeakyBucketModel {
    /// A bucket as it is made: empty, with leaks counted from tick 0.
    pub open spec fn initial(capacity: nat, leak_interval: nat, leak_amount: nat) -> Self {
        LeakyBucketModel { capacity, leak_interval, leak_amount, level: 0, last_leak_tick: 0 }
    }

    /// The parameters are positive, the level is within capacity, and the last
    /// leak fell on a whole number of intervals from tick 0.
    pub open spec fn wf(self) -> bool {
        &&& 0 < self.capacity <= Uint::MAX
        &&& 0 < self.leak_interval <= Uint::MAX
        &&& 0 < self.leak_amount <= Uint::MAX
        &&& self.level <= self.capacity
        &&& self.last_leak_tick <= Uint::MAX
        &&& self.last_leak_tick % self.leak_interval == 0
    }

    /// A bucket as it is made is well formed.
    pub proof fn lemma_initial(capacity: nat, leak_interval: nat, leak_amount: nat)
        requires
            0 < capacity <= Uint::MAX,
            0 < leak_interval <= Uint::MAX,
            0 < leak_amount <= Uint::MAX,
        ensures
            Self::initial(capacity, leak_interval, leak_amount).wf(),
    {
        vstd::arithmetic::div_mod::lemma_small_mod(0, leak_interval);
    }

    /// Same capacity and leak rate.
    pub open spec fn same_config(self, other: Self) -> bool {
        &&& self.capacity == other.capacity
        &&& self.leak_interval == other.leak_interval
        &&& self.leak_amount == other.leak_amount
    }

    /// The smallest tick that is still accepted.
    pub open spec fn min_tick(self) -> nat {
        self.last_leak_tick
    }

    /// Whether `tick` lies before the last leak.
    pub open spec fn expired(self, tick: nat) -> bool {
        tick < self.min_tick()
    }

    /// Whole leak intervals between the last leak and `tick`.
    pub open spec fn leaks_due(self, tick: nat) -> nat {
        ((tick - self.last_leak_tick) / (self.leak_interval as int)) as nat
    }

    /// Room left in the bucket.
    pub open spec fn headroom(self) -> nat {
        (self.capacity - self.level) as nat
    }

    /// The level as it stands, whatever the tick.
    pub open spec fn current_capacity(self) -> nat {
        self.level
    }

    /// The bucket as seen at `tick`: every whole interval since the last leak
    /// has drained its amount, down to empty at most, and the last leak has
    /// moved on by exactly those intervals.
    pub open spec fn at_tick(self, tick: nat) -> Self {
        let leaks = self.leaks_due(tick);
        LeakyBucketModel {
            level: if self.level <= leaks * self.leak_amount {
                0
            } else {
                (self.level - leaks * self.leak_amount) as nat
            },
            last_leak_tick: self.last_leak_tick + leaks * self.leak_interval,
            ..self
        }
    }

    /// The bucket after `tokens` more units were poured in.
    pub open spec fn with_added(self, tokens: nat) -> Self {
        LeakyBucketModel { level: self.level + tokens, ..self }
    }

    /// Estimated ticks until `tokens` units fit: one interval for each leak
    /// needed to drain what is in the way, clamped to the range of `Uint`.
    pub open spec fn retry_after(self, tokens: nat) -> nat {
        sat((self.leak_interval * ceil_div((tokens - self.headroom()) as nat, self.leak_amount)) as int)
    }

    /// Outcome and next state of the short acquisition path.
    pub open spec fn acquire(self, tick: nat, tokens: nat) -> (Self, SimpleAcquireResult) {
        if tokens == 0 {
            (self, Ok(()))
        } else if self.expired(tick) {
            (self, Err(SimpleRateLimitError::ExpiredTick))
        } else if tokens <= self.at_tick(tick).headroom() {
            (self.at_tick(tick).with_added(tokens), Ok(()))
        } else {
            (self.at_tick(tick), Err(SimpleRateLimitError::InsufficientCapacity))
        }
    }

    /// Outcome and next state of the diagnostic acquisition path.
    pub open spec fn acquire_verbose(self, tick: nat, tokens: nat) -> (Self, VerboseAcquireResult) {
        if tokens == 0 {
            (self, Ok(()))
        } else if self.expired(tick) {
            (self, Err(VerboseRateLimitError::ExpiredTick { min_acceptable_tick: self.min_tick() as Uint }))
        } else if tokens > self.capacity {
            (
                self,
                Err(
                    VerboseRateLimitError::BeyondCapacity {
                        acquiring: tokens as Uint,
                        capacity: self.capacity as Uint,
                    },
                ),
            )
        } else if tokens <= self.at_tick(tick).headroom() {
            (self.at_tick(tick).with_added(tokens), Ok(()))
        } else {
            (
                self.at_tick(tick),
                Err(
                    VerboseRateLimitError::InsufficientCapacity {
                        acquiring: tokens as Uint,
                        available: self.at_tick(tick).headroom() as Uint,
                        retry_after_ticks: self.at_tick(tick).retry_after(tokens) as Uint,
                    },
                ),
            )
        }
    }

    /// Outcome and next state of asking for the level at `tick`.
    pub open spec fn remaining(self, tick: nat) -> (Self, Result<Uint, SimpleRateLimitError>) {
        if self.expired(tick) {
            (self, Err(SimpleRateLimitError::ExpiredTick))
        } else {
            (self.at_tick(tick), Ok(self.at_tick(tick).level as Uint))
        }
    }

    /// Outcome and next state of asking for the room left at `tick`.
    pub open spec fn room(self, tick: nat) -> (Self, Result<Uint, SimpleRateLimitError>) {
        if self.expired(tick) {
            (self, Err(SimpleRateLimitError::ExpiredTick))
        } else {
            (self.at_tick(tick), Ok(self.at_tick(tick).headroom() as Uint))
        }
    }

    /// Leaking keeps a bucket well formed, never raises the level, and never
    /// moves the last leak past the tick.
    pub proof fn lemma_at_tick(self, tick: nat)
        requires
            self.wf(),
            !self.expired(tick),
            tick <= Uint::MAX,
        ensures
            self.at_tick(tick).wf(),
            self.at_tick(tick).same_config(self),
            self.at_tick(tick).level <= self.level,
            self.last_leak_tick <= self.at_tick(tick).last_leak_tick <= tick,
            tick - self.at_tick(tick).last_leak_tick < self.leak_interval,
    {
        let i = self.leak_interval as int;
        let e = tick - self.last_leak_tick;
        let n = self.leaks_due(tick) as int;
        let last = self.last_leak_tick as int;
        lemma_fundamental_div_mod(e, i);
        vstd::arithmetic::div_mod::lemma_div_pos_is_pos(e, i);
        assert(n == e / i);
        assert(i * n == n * i) by (nonlinear_arith);
        assert(0 <= n * i <= e);
        lemma_mod_multiples_vanish(n, last, i);
        assert((last + n * i) % i == 0);
        assert(self.at_tick(tick).last_leak_tick == last + n * i);
        assert(n * self.leak_amount >= 0) by (nonlinear_arith)
            requires
                n >= 0,
                self.leak_amount >= 0,
        ;
    }
}

/// What holds of every bucket, and of every run of requests.
impl LeakyBucketModel {
    /// The bucket after the requests, each a tick and a number of units, went
    /// through the short path in order.
    pub open spec fn after(self, requests: Seq<(nat, nat)>) -> Self
        decreases requests.len(),
    {
        if requests.len() == 0 {
            self
        } else {
            self.after(requests.drop_last()).acquire(requests.last().0, requests.last().1).0
        }
    }

    /// The ticks of the requests never go back, and all ticks and units are
    /// within the range of `Uint`.
    pub open spec fn in_order(requests: Seq<(nat, nat)>) -> bool {
        &&& forall|i: int| 0 <= i < requests.len() ==> (#[trigger] requests[i]).0 <= Uint::MAX
        &&& forall|i: int| 0 <= i < requests.len() ==> (#[trigger] requests[i]).1 <= Uint::MAX
        &&& forall|i: int, j: int|
            0 <= i <= j < requests.len() ==> (#[trigger] requests[i]).0 <= (#[trigger] requests[j]).0
    }

    /// Every operation keeps the bucket well formed and its configuration
    /// as it was; one that is given a tick that has not expired leaves no
    /// later minimum than that tick behind.
    pub proof fn lemma_step(self, tick: nat, tokens: nat)
        requires
            self.wf(),
            tick <= Uint::MAX,
            tokens <= Uint::MAX,
        ensures
            self.acquire(tick, tokens).0.wf(),
            self.acquire(tick, tokens).0.same_config(self),
            self.acquire_verbose(tick, tokens).0.wf(),
            self.acquire_verbose(tick, tokens).0.same_config(self),
            self.remaining(tick).0.wf(),
            self.remaining(tick).0.same_config(self),
            !self.expired(tick) ==> self.acquire(tick, tokens).0.min_tick() <= tick,
            !self.expired(tick) ==> self.acquire_verbose(tick, tokens).0.min_tick() <= tick,
            !self.expired(tick) ==> self.remaining(tick).0.min_tick() <= tick,
    {
        if !self.expired(tick) {
            self.lemma_at_tick(tick);
        }
    }

    /// Zero units always succeed and change nothing, whatever the tick and
    /// whatever the bucket holds.
    pub proof fn law_zero_units(self, tick: nat)
        ensures
            self.acquire(tick, 0) == (self, Ok::<(), SimpleRateLimitError>(())),
            self.acquire_verbose(tick, 0) == (self, Ok::<(), VerboseRateLimitError>(())),
    {
    }

    /// A tick below the retained minimum is refused as expired, for any
    /// request of at least one unit and for any question about what is left,
    /// and the bucket stays as it was.
    pub proof fn law_expired_tick(self, tick: nat, tokens: nat)
        requires
            tick < self.min_tick(),
            tokens > 0,
        ensures
            self.acquire(tick, tokens) == (
                self,
                Err::<(), SimpleRateLimitError>(SimpleRateLimitError::ExpiredTick),
            ),
            self.acquire_verbose(tick, tokens) == (
                self,
                Err::<(), VerboseRateLimitError>(
                    VerboseRateLimitError::ExpiredTick { min_acceptable_tick: self.min_tick() as Uint },
                ),
            ),
            self.remaining(tick) == (
                self,
                Err::<Uint, SimpleRateLimitError>(SimpleRateLimitError::ExpiredTick),
            ),
    {
    }

    /// After an operation at a tick that has not expired, no tick at or after
    /// it is expired.
    pub proof fn law_later_ticks_accepted(self, tick: nat, tokens: nat, later: nat)
        requires
            self.wf(),
            tick <= Uint::MAX,
            tokens <= Uint::MAX,
            !self.expired(tick),
            tick <= later,
        ensures
            !self.acquire(tick, tokens).0.expired(later),
            !self.acquire_verbose(tick, tokens).0.expired(later),
            !self.remaining(tick).0.expired(later),
    {
        self.lemma_step(tick, tokens);
    }

    /// A run of requests whose ticks never go back, starting at or after the
    /// retained minimum, keeps the bucket well formed and leaves the
    /// minimum at or below the last tick.
    pub proof fn lemma_run(self, requests: Seq<(nat, nat)>)
        requires
            self.wf(),
            Self::in_order(requests),
            requests.len() > 0 ==> !self.expired(requests[0].0),
        ensures
            self.after(requests).wf(),
            self.after(requests).same_config(self),
            requests.len() > 0 ==> self.after(requests).min_tick() <= requests.last().0,
        decreases requests.len(),
    {
        if requests.len() > 0 {
            let before = requests.drop_last();
            let (tick, tokens) = requests.last();
            assert(forall|i: int| 0 <= i < before.len() ==> before[i] == requests[i]);
            self.lemma_run(before);
            let s = self.after(before);
            if before.len() > 0 {
                assert(before.last() == requests[before.len() - 1]);
            }
            s.lemma_step(tick, tokens);
            if tokens == 0 {
                assert(s.acquire(tick, tokens).0 == s);
            }
        }
    }

    /// On ticks that never go back, no request is refused as expired.
    pub proof fn law_no_expiry_in_order(self, requests: Seq<(nat, nat)>, i: int)
        requires
            self.wf(),
            Self::in_order(requests),
            requests.len() > 0 ==> !self.expired(requests[0].0),
            0 <= i < requests.len(),
        ensures
            self.after(requests.take(i)).acquire(requests[i].0, requests[i].1).1 != Err::<
                (),
                SimpleRateLimitError,
            >(SimpleRateLimitError::ExpiredTick),
    {
        let before = requests.take(i);
        assert(forall|j: int| 0 <= j < before.len() ==> before[j] == requests[j]);
        self.lemma_run(before);
        if i > 0 {
            assert(before.last() == requests[i - 1]);
        }
    }

    /// Units that the requests were granted, taken through the short path in
    /// order.
    pub open spec fn granted(self, requests: Seq<(nat, nat)>) -> nat
        decreases requests.len(),
    {
        if requests.len() == 0 {
            0
        } else {
            self.granted(requests.drop_last()) + if self.after(requests.drop_last()).acquire(
                requests.last().0,
                requests.last().1,
            ).1 is Ok {
                requests.last().1
            } else {
                0
            }
        }
    }

    /// The level as seen at `tick`.
    pub open spec fn usage(self, tick: nat) -> nat {
        self.at_tick(tick).level
    }

    /// A request at a tick raises the usage seen at that tick by what it was
    /// granted, and a grant leaves that usage within the capacity.
    pub proof fn lemma_usage_step(self, tick: nat, tokens: nat)
        requires
            self.wf(),
            tick <= Uint::MAX,
            tokens <= Uint::MAX,
            !self.expired(tick),
        ensures
            self.acquire(tick, tokens).0.wf(),
            self.acquire(tick, tokens).0.same_config(self),
            !self.acquire(tick, tokens).0.expired(tick),
            self.acquire(tick, tokens).0.usage(tick) == self.usage(tick) + if self.acquire(
                tick,
                tokens,
            ).1 is Ok {
                tokens
            } else {
                0
            },
            tokens > 0 && self.acquire(tick, tokens).1 is Ok ==> self.acquire(tick, tokens).0.usage(
                tick,
            ) <= self.capacity,
    {
        self.lemma_step(tick, tokens);
        self.lemma_at_tick(tick);
        let seen = self.at_tick(tick);
        vstd::arithmetic::div_mod::lemma_basic_div((tick - seen.last_leak_tick) as int, self.leak_interval as int);
        assert(0 * self.leak_amount == 0 && 0 * self.leak_interval == 0);
        assert(seen.at_tick(tick) == seen);
        assert(seen.with_added(tokens).leaks_due(tick) == 0);
        if tokens <= seen.headroom() {
            assert(seen.with_added(tokens).at_tick(tick) == seen.with_added(tokens));
        }
    }

    /// What is granted at one tick adds up to no more than the capacity,
    /// however many requests there are and whatever the bucket held before:
    /// every grant shows in the usage seen at that tick.
    pub proof fn law_grants_at_one_tick(self, requests: Seq<(nat, nat)>, tick: nat)
        requires
            self.wf(),
            Self::in_order(requests),
            forall|i: int| 0 <= i < requests.len() ==> (#[trigger] requests[i]).0 == tick,
            tick <= Uint::MAX,
            !self.expired(tick),
        ensures
            self.after(requests).wf(),
            self.after(requests).same_config(self),
            !self.after(requests).expired(tick),
            self.granted(requests) + self.usage(tick) == self.after(requests).usage(tick),
            self.granted(requests) > 0 ==> self.after(requests).usage(tick) <= self.capacity,
            self.granted(requests) <= self.capacity,
        decreases requests.len(),
    {
        if requests.len() > 0 {
            let before = requests.drop_last();
            let tokens = requests.last().1;
            assert(forall|i: int| 0 <= i < before.len() ==> before[i] == requests[i]);
            assert(requests.last() == requests[requests.len() - 1]);
            self.law_grants_at_one_tick(before, tick);
            self.after(before).lemma_usage_step(tick, tokens);
        }
    }

    /// The short path and the diagnostic path decide alike: they grant the
    /// same requests and leave the same bucket behind a grant, and they
    /// refuse for the same reason, except that the short path reports a
    /// request above the capacity as one that does not fit.
    pub proof fn law_paths_agree(self, tick: nat, tokens: nat)
        requires
            self.wf(),
            tick <= Uint::MAX,
            tokens <= Uint::MAX,
        ensures
            self.acquire(tick, tokens).1 is Ok <==> self.acquire_verbose(tick, tokens).1 is Ok,
            self.acquire(tick, tokens).1 is Ok ==> self.acquire(tick, tokens).0 == self.acquire_verbose(
                tick,
                tokens,
            ).0,
            self.acquire_verbose(tick, tokens).1 matches Err(e) ==> self.acquire(tick, tokens).1 == Err::<
                (),
                SimpleRateLimitError,
            >(
                if e is BeyondCapacity {
                    SimpleRateLimitError::InsufficientCapacity
                } else {
                    e.simplified()
                },
            ),
    {
        self.lemma_step(tick, tokens);

    }

    /// What is reported as room at a tick can be taken at that tick.
    pub proof fn law_reported_is_grantable(self, tick: nat)
        requires
            self.wf(),
            tick <= Uint::MAX,
            !self.expired(tick),
        ensures
            self.room(tick).1 matches Ok(left) && (left == 0 || self.room(tick).0.acquire(
                tick,
                left as nat,
            ).1 is Ok),
    {
        self.lemma_step(tick, 0);
        self.lemma_at_tick(tick);
        let seen = self.at_tick(tick);
        vstd::arithmetic::div_mod::lemma_basic_div((tick - seen.last_leak_tick) as int, self.leak_interval as int);
        assert(0 * self.leak_amount == 0 && 0 * self.leak_interval == 0);
        assert(seen.at_tick(tick) == seen);
    }

    /// The level never exceeds the capacity, and a grant adds exactly what
    /// was asked to the level that the leaks have left.
    pub proof fn law_capacity(self, tick: nat, tokens: nat)
        requires
            self.wf(),
            tick <= Uint::MAX,
            tokens <= Uint::MAX,
        ensures
            self.acquire(tick, tokens).0.level <= self.capacity,
            self.acquire_verbose(tick, tokens).0.level <= self.capacity,
            self.acquire(tick, tokens).1 is Ok && tokens > 0 ==> tokens <= self.capacity
                && self.acquire(tick, tokens).0.level == self.at_tick(tick).level + tokens,
            self.acquire(tick, tokens).1 is Ok <==> self.acquire_verbose(tick, tokens).1 is Ok,
    {
        self.lemma_step(tick, tokens);
    }

    /// A bucket that was filled to its capacity at tick 0 holds, after `k`
    /// whole leak intervals, the capacity less `k` times the leak amount, and
    /// nothing once that is below zero.
    pub proof fn law_leak_round_trip(capacity: nat, leak_interval: nat, leak_amount: nat, k: nat)
        requires
            0 < capacity <= Uint::MAX,
            0 < leak_interval <= Uint::MAX,
            0 < leak_amount <= Uint::MAX,
        ensures
            Self::initial(capacity, leak_interval, leak_amount).acquire(0, capacity).1 is Ok,
            Self::initial(capacity, leak_interval, leak_amount).acquire(0, capacity).0.level == capacity,
            Self::initial(capacity, leak_interval, leak_amount).acquire(0, capacity).0.at_tick(
                leak_interval * k,
            ).level == sat(capacity - leak_amount * k),
    {
        let fresh = Self::initial(capacity, leak_interval, leak_amount);
        assert(fresh.leaks_due(0) == 0);
        assert(0 * leak_amount == 0 && 0 * leak_interval == 0);
        assert(fresh.at_tick(0) == fresh);
        let filled = fresh.acquire(0, capacity).0;
        assert(filled.level == capacity && filled.last_leak_tick == 0);
        vstd::arithmetic::div_mod::lemma_div_multiples_vanish(k as int, leak_interval as int);
        assert(leak_interval * k == k * leak_interval) by (nonlinear_arith);
        assert(filled.leaks_due(leak_interval * k) == k);
        assert(k * leak_amount == leak_amount * k) by (nonlinear_arith);
        assert(leak_amount * k >= 0) by (nonlinear_arith)
            requires
                leak_amount >= 0,
                k >= 0,
        ;
    }

    /// The room left and the level add up to the capacity, and asking for
    /// either leaves the same bucket behind.
    pub proof fn law_room_beside_level(self, tick: nat)
        requires
            self.wf(),
            tick <= Uint::MAX,
        ensures
            self.room(tick).0 == self.remaining(tick).0,
            self.room(tick).1 is Ok <==> self.remaining(tick).1 is Ok,
            self.room(tick).1 matches Ok(room) ==> self.remaining(tick).1 matches Ok(level) && room
                + level == self.capacity,
    {
        if !self.expired(tick) {
            self.lemma_at_tick(tick);
        }
    }

    /// A request within the capacity that was told to wait is granted when
    /// the wait is over, if nothing else was poured in meanwhile and the
    /// estimate was not clamped: by then the leaks have drained what was in
    /// the way.
    pub proof fn law_retry_suffices(self, tick: nat, tokens: nat)
        requires
            self.wf(),
            !self.expired(tick),
            0 < tokens <= self.capacity,
            tokens > self.at_tick(tick).headroom(),
            tick + self.leak_interval * ceil_div(
                (tokens - self.at_tick(tick).headroom()) as nat,
                self.leak_amount,
            ) <= Uint::MAX,
        ensures
            self.acquire_verbose(tick, tokens).1 matches Err(
                VerboseRateLimitError::InsufficientCapacity { retry_after_ticks, .. },
            ) && self.acquire_verbose(tick, tokens).0.acquire(
                tick + retry_after_ticks as nat,
                tokens,
            ).1 is Ok,
    {
        self.lemma_at_tick(tick);
        let seen = self.at_tick(tick);
        let i = self.leak_interval as int;
        let a = self.leak_amount as int;
        let d = (tokens - seen.headroom()) as nat;
        let k = ceil_div(d, self.leak_amount) as int;
        crate::arith::lemma_ceil_div(d, self.leak_amount);
        assert(i * k >= 0) by (nonlinear_arith)
            requires
                i >= 0,
                k >= 0,
        ;
        let later = (tick + i * k) as nat;
        let due = seen.leaks_due(later) as int;
        assert(due >= k) by {
            vstd::arithmetic::div_mod::lemma_div_multiples_vanish(k, i);
            assert(i * k == k * i) by (nonlinear_arith);
            vstd::arithmetic::div_mod::lemma_div_is_ordered(i * k, later - seen.last_leak_tick, i);
        }
        assert(due * a >= k * a) by (nonlinear_arith)
            requires
                due >= k,
                a >= 0,
        ;
        seen.lemma_at_tick(later);
    }

    /// Leaking in two steps is leaking in one: what is seen at a tick does not
    /// depend on the ticks at which the bucket was looked at before.
    pub proof fn law_leak_in_steps(self, earlier: nat, tick: nat)
        requires
            self.wf(),
            !self.expired(earlier),
            earlier <= tick <= Uint::MAX,
        ensures
            self.at_tick(earlier).at_tick(tick) == self.at_tick(tick),
    {
        self.lemma_at_tick(earlier);
        let i = self.leak_interval as int;
        let a = self.leak_amount as int;
        let n1 = self.leaks_due(earlier) as int;
        let mid = self.at_tick(earlier);
        let n2 = mid.leaks_due(tick) as int;
        let n = self.leaks_due(tick) as int;
        let e = tick - self.last_leak_tick;
        // (tick - last - n1 * i) / i == (tick - last) / i - n1
        vstd::arithmetic::div_mod::lemma_div_pos_is_pos(earlier - self.last_leak_tick, i);
        assert(mid.last_leak_tick == self.last_leak_tick + n1 * i);
        assert(i * (-n1) == -(n1 * i)) by (nonlinear_arith);
        vstd::arithmetic::div_mod::lemma_div_multiples_vanish_fancy(n1, 0, i);
        vstd::arithmetic::div_mod::lemma_hoist_over_denominator(e, -n1, i as nat);
        assert(e + (-n1) * i == tick - mid.last_leak_tick) by (nonlinear_arith)
            requires
                mid.last_leak_tick == self.last_leak_tick + n1 * i,
                e == tick - self.last_leak_tick,
        ;
        assert(n2 == n - n1);
        assert(n * i == n1 * i + n2 * i) by (nonlinear_arith)
            requires
                n == n1 + n2,
        ;
        assert(n * a == n1 * a + n2 * a) by (nonlinear_arith)
            requires
                n == n1 + n2,
        ;
        assert(n1 * a >= 0 && n2 * a >= 0) by (nonlinear_arith)
            requires
                n1 >= 0,
                n2 >= 0,
                a >= 0,
        ;
    }
}

/// A leaky bucket: its configuration and its level, as one value that a lock
/// can guard.
pub struct LeakyBucketCoreState {
    capacity: Uint,
    leak_interval: Uint,
    leak_amount: Uint,
    remaining: Uint,
    last_leak_tick: Uint,
}

impl View for LeakyBucketCoreState {
    type V = LeakyBucketModel;

    closed spec fn view(&self) -> LeakyBucketModel {
        LeakyBucketModel {
            capacity: self.capacity as nat,
            leak_interval: self.leak_interval as nat,
            leak_amount: self.leak_amount as nat,
            level: self.remaining as nat,
            last_leak_tick: self.last_leak_tick as nat,
        }
    }
}

impl LeakyBucketCoreState {
    #[verifier::type_invariant]
    spec fn inv(self) -> bool {
        self@.wf()
    }

    /// An empty bucket.
    pub fn new(capacity: Uint, leak_interval: Uint, leak_amount: Uint) -> (s: Self)
        requires
            capacity > 0,
            leak_interval > 0,
            leak_amount > 0,
        ensures
            s@ == LeakyBucketModel::initial(capacity as nat, leak_interval as nat, leak_amount as nat),
            s@.wf(),
    {
        proof {
            vstd::arithmetic::div_mod::lemma_small_mod(0, leak_interval as nat);
        }
        LeakyBucketCoreState { capacity, leak_interval, leak_amount, remaining: 0, last_leak_tick: 0 }
    }

    /// Binds the bucket to the given parameters: a bucket that has them
    /// already stays as it is, any other starts afresh under them.
    pub fn bind(&mut self, capacity: Uint, leak_interval: Uint, leak_amount: Uint)
        requires
            capacity > 0,
            leak_interval > 0,
            leak_amount > 0,
        ensures
            final(self)@.wf(),
            final(self)@.same_config(Self::fresh(capacity, leak_interval, leak_amount)),
            final(self)@ == if old(self)@.same_config(Self::fresh(capacity, leak_interval, leak_amount)) {
                old(self)@
            } else {
                Self::fresh(capacity, leak_interval, leak_amount)
            },
    {
        proof {
            use_type_invariant(&*self);
        }
        if self.capacity != capacity
            || self.leak_interval != leak_interval
            || self.leak_amount != leak_amount
        {
            *self = Self::new(capacity, leak_interval, leak_amount);
        }
    }

    /// The model of a bucket as it is made with the given parameters.
    pub open spec fn fresh(
        capacity: Uint,
        leak_interval: Uint,
        leak_amount: Uint,
    ) -> LeakyBucketModel {
        LeakyBucketModel::initial(
                capacity as nat,
                leak_interval as nat,
                leak_amount as nat,
        )
    }

    /// Largest level the bucket can hold.
    pub fn capacity(&self) -> (r: Uint)
        ensures
            r == self@.capacity,
    {
        self.capacity
    }

    /// Applies every leak that is due at `tick`.
    fn leak_to(&mut self, tick: Uint)
        requires
            !old(self)@.expired(tick as nat),
        ensures
            final(self)@ == old(self)@.at_tick(tick as nat),
            final(self)@.wf(),
    {
        proof {
            use_type_invariant(&*self);
            self@.lemma_at_tick(tick as nat);
        }
        let ghost before = self@;
        let elapsed = tick - self.last_leak_tick;
        let leaks = elapsed / self.leak_interval;
        let leaked = saturating_mul(leaks, self.leak_amount);
        assert(leaks == before.leaks_due(tick as nat));
        assert(leaks * self.leak_interval == before.at_tick(tick as nat).last_leak_tick
            - before.last_leak_tick);
        assert(leaks == 0 ==> leaks * self.leak_interval == 0) by (nonlinear_arith);
        self.remaining = self.remaining.saturating_sub(leaked);
        if leaks > 0 {
            self.last_leak_tick = self.last_leak_tick + leaks * self.leak_interval;
        }
        assert(self@.level == before.at_tick(tick as nat).level);
        assert(self@.last_leak_tick == before.at_tick(tick as nat).last_leak_tick);
    }

    /// Estimated ticks until `tokens` units fit, for a request that does not
    /// fit now.
    fn retry_after(&self, tokens: Uint) -> (r: Uint)
        requires
            tokens <= self@.capacity,
            tokens > self@.headroom(),
        ensures
            r == self@.retry_after(tokens as nat),
    {
        proof {
            use_type_invariant(self);
        }
        let deficit = tokens - (self.capacity - self.remaining);
        let leaks = steps_to_cover(deficit, self.leak_amount);
        saturating_mul(self.leak_interval, leaks)
    }

    /// Pours `tokens` units in at `tick`, on the short path.
    pub fn try_acquire_at(&mut self, tick: Uint, tokens: Uint) -> (r: SimpleAcquireResult)
        ensures
            (final(self)@, r) == old(self)@.acquire(tick as nat, tokens as nat),
            final(self)@.wf(),
            tokens == 0 ==> r is Ok && final(self)@ == old(self)@,
    {
        proof {
            use_type_invariant(&*self);
        }
        if tokens == 0 {
            return Ok(());
        }
        if tick < self.last_leak_tick {
            return Err(SimpleRateLimitError::ExpiredTick);
        }
        self.leak_to(tick);
        proof {
            use_type_invariant(&*self);
        }
        if tokens <= self.capacity - self.remaining {
            self.remaining = self.remaining + tokens;
            Ok(())
        } else {
            Err(SimpleRateLimitError::InsufficientCapacity)
        }
    }

    /// Pours `tokens` units in at `tick`, and says why not when it cannot.
    pub fn try_acquire_verbose_at(&mut self, tick: Uint, tokens: Uint) -> (r: VerboseAcquireResult)
        ensures
            (final(self)@, r) == old(self)@.acquire_verbose(tick as nat, tokens as nat),
            final(self)@.wf(),
            tokens == 0 ==> r is Ok && final(self)@ == old(self)@,
    {
        proof {
            use_type_invariant(&*self);
        }
        if tokens == 0 {
            return Ok(());
        }
        if tick < self.last_leak_tick {
            return Err(VerboseRateLimitError::ExpiredTick { min_acceptable_tick: self.last_leak_tick });
        }
        if tokens > self.capacity {
            return Err(
                VerboseRateLimitError::BeyondCapacity { acquiring: tokens, capacity: self.capacity },
            );
        }
        self.leak_to(tick);
        proof {
            use_type_invariant(&*self);
        }
        let available = self.capacity - self.remaining;
        if tokens <= available {
            self.remaining = self.remaining + tokens;
            Ok(())
        } else {
            let retry_after_ticks = self.retry_after(tokens);
            Err(
                VerboseRateLimitError::InsufficientCapacity {
                    acquiring: tokens,
                    available,
                    retry_after_ticks,
                },
            )
        }
    }

    /// The level at `tick`, after the leaks that are due.
    pub fn capacity_remaining(&mut self, tick: Uint) -> (r: Result<Uint, SimpleRateLimitError>)
        ensures
            (final(self)@, r) == old(self)@.remaining(tick as nat),
            final(self)@.wf(),
    {
        proof {
            use_type_invariant(&*self);
        }
        if tick < self.last_leak_tick {
            return Err(SimpleRateLimitError::ExpiredTick);
        }
        self.leak_to(tick);
        Ok(self.remaining)
    }

    /// The room left at `tick`, after the leaks that are due: what a request
    /// at `tick` could pour in.
    pub fn headroom_at(&mut self, tick: Uint) -> (r: Result<Uint, SimpleRateLimitError>)
        ensures
            (final(self)@, r) == old(self)@.room(tick as nat),
            final(self)@.wf(),
    {
        proof {
            use_type_invariant(&*self);
        }
        if tick < self.last_leak_tick {
            return Err(SimpleRateLimitError::ExpiredTick);
        }
        self.leak_to(tick);
        proof {
            use_type_invariant(&*self);
        }
        Ok(self.capacity - self.remaining)
    }

    /// The level as it stands, without applying any leak.
    pub fn current_capacity(&self) -> (r: Uint)
        ensures
            r == self@.current_capacity(),
    {
        self.remaining
    }
}

/// A leaky bucket shared between threads.
///
/// The bucket sits behind a lock that is tried once per call and never
/// awaited: a call that finds the lock taken fails with `ContentionFailure`.
/// A call that gets the lock performs its whole read-decide-update step on
/// the bucket before it lets go.
///
/// The parameters stand beside the lock, where they can be read at any time;
/// the bucket behind the lock is bound to them before every step.
pub struct LeakyBucketCore {
    capacity: Uint,
    leak_interval: Uint,
    leak_amount: Uint,
    state: Mutex<LeakyBucketCoreState>,
}

impl LeakyBucketCore {
    #[verifier::type_invariant]
    spec fn inv(self) -> bool {
        self.capacity > 0 && self.leak_interval > 0 && self.leak_amount > 0
    }

    /// Largest level the bucket can hold.
    pub closed spec fn spec_capacity(&self) -> Uint {
        self.capacity
    }

    /// Ticks between two leaks.
    pub closed spec fn spec_leak_interval(&self) -> Uint {
        self.leak_interval
    }

    /// Units that drain at each leak.
    pub closed spec fn spec_leak_amount(&self) -> Uint {
        self.leak_amount
    }

    /// Largest level the bucket can hold.
    #[verifier::when_used_as_spec(spec_capacity)]
    pub fn capacity(&self) -> (r: Uint)
        ensures
            r == self.spec_capacity(),
            r > 0,
    {
        proof {
            use_type_invariant(self);
        }
        self.capacity
    }

    /// Ticks between two leaks.
    #[verifier::when_used_as_spec(spec_leak_interval)]
    pub fn leak_interval(&self) -> (r: Uint)
        ensures
            r == self.spec_leak_interval(),
            r > 0,
    {
        proof {
            use_type_invariant(self);
        }
        self.leak_interval
    }

    /// Units that drain at each leak.
    #[verifier::when_used_as_spec(spec_leak_amount)]
    pub fn leak_amount(&self) -> (r: Uint)
        ensures
            r == self.spec_leak_amount(),
            r > 0,
    {
        proof {
            use_type_invariant(self);
        }
        self.leak_amount
    }

    /// `s` is a well formed bucket with the parameters of this limiter.
    pub open spec fn governs(&self, s: LeakyBucketModel) -> bool {
        &&& s.wf()
        &&& s.capacity == self.spec_capacity()
        &&& s.leak_interval == self.spec_leak_interval()
        &&& s.leak_amount == self.spec_leak_amount()
    }

    /// The limiter governs a bucket as it is made with its parameters: there
    /// is always a bucket that it governs.
    proof fn lemma_governs_fresh(&self)
        requires
            self.inv(),
        ensures
            self.governs(
                LeakyBucketModel::initial(
                    self.capacity as nat,
                    self.leak_interval as nat,
                    self.leak_amount as nat,
                ),
            ),
    {
        LeakyBucketModel::lemma_initial(
            self.capacity as nat,
            self.leak_interval as nat,
            self.leak_amount as nat,
        );
    }

    /// `r` is a contention failure, or what the short path answers on some
    /// bucket that this limiter governs.
    pub open spec fn may_acquire(&self, tick: Uint, tokens: Uint, r: SimpleAcquireResult) -> bool {
        ||| tokens != 0 && r == Err::<(), SimpleRateLimitError>(
            SimpleRateLimitError::ContentionFailure,
        )
        ||| exists|s: LeakyBucketModel| #[trigger]
            self.governs(s) && s.acquire(tick as nat, tokens as nat).1 == r
    }

    /// `r` is a contention failure, or what the diagnostic path answers on
    /// some bucket that this limiter governs.
    pub open spec fn may_acquire_verbose(
        &self,
        tick: Uint,
        tokens: Uint,
        r: VerboseAcquireResult,
    ) -> bool {
        ||| tokens != 0 && r == Err::<(), VerboseRateLimitError>(
            VerboseRateLimitError::ContentionFailure,
        )
        ||| exists|s: LeakyBucketModel| #[trigger]
            self.governs(s) && s.acquire_verbose(tick as nat, tokens as nat).1 == r
    }

    /// `r` is a contention failure, or what `capacity_remaining` answers at
    /// `tick` on some bucket that this limiter governs.
    pub open spec fn may_remain(&self, tick: Uint, r: Result<Uint, SimpleRateLimitError>) -> bool {
        ||| r == Err::<Uint, SimpleRateLimitError>(SimpleRateLimitError::ContentionFailure)
        ||| exists|s: LeakyBucketModel| #[trigger] self.governs(s) && s.remaining(tick as nat).1 == r
    }

    /// `r` is a contention failure, or what `current_capacity` reads from some
    /// bucket that this limiter governs.
    pub open spec fn may_hold(&self, r: Result<Uint, SimpleRateLimitError>) -> bool {
        ||| r == Err::<Uint, SimpleRateLimitError>(SimpleRateLimitError::ContentionFailure)
        ||| exists|s: LeakyBucketModel| #[trigger]
            self.governs(s) && r == Ok::<Uint, SimpleRateLimitError>(s.current_capacity() as Uint)
    }

    /// An empty bucket of `capacity` units that loses `leak_amount` units every
    /// `leak_interval` ticks.
    pub fn new(capacity: Uint, leak_interval: Uint, leak_amount: Uint) -> (core: Self)
        requires
            capacity > 0,
            leak_interval > 0,
            leak_amount > 0,
        ensures
            core.spec_capacity() == capacity,
            core.spec_leak_interval() == leak_interval,
            core.spec_leak_amount() == leak_amount,
    {
        let state = LeakyBucketCoreState::new(capacity, leak_interval, leak_amount);
        LeakyBucketCore { capacity, leak_interval, leak_amount, state: lock_new(state) }
    }

    /// Tries to pour `tokens` units in at `tick`.
    ///
    /// Zero units always succeed and touch nothing. A request above the
    /// capacity is refused as `InsufficientCapacity`, like any other that does
    /// not fit.
    pub fn try_acquire_at(&self, tick: Uint, tokens: Uint) -> (r: SimpleAcquireResult)
        ensures
            tokens == 0 ==> r is Ok,
            tokens > self.spec_capacity() ==> r is Err,
            r != Err::<(), SimpleRateLimitError>(SimpleRateLimitError::BeyondCapacity),
            self.may_acquire(tick, tokens, r),
    {
        if tokens == 0 {
            proof {
                use_type_invariant(self);
                self.lemma_governs_fresh();
            }
            return Ok(());
        }
        let mut guard = match lock_try(&self.state) {
            Some(guard) => guard,
            None => {
                return Err(SimpleRateLimitError::ContentionFailure);
            },
        };
        proof {
            use_type_invariant(self);
        }
        let state = lock_state(&mut guard);
        state.bind(self.capacity, self.leak_interval, self.leak_amount);
        assert(self.governs(state@));
        state.try_acquire_at(tick, tokens)
    }

    /// Like `try_acquire_at`, and reports the figures behind a refusal: what
    /// was asked, what was available, and an estimate of the ticks to wait. A
    /// request above the capacity is refused as `BeyondCapacity`.
    pub fn try_acquire_verbose_at(&self, tick: Uint, tokens: Uint) -> (r: VerboseAcquireResult)
        ensures
            tokens == 0 ==> r is Ok,
            tokens > self.spec_capacity() ==> r is Err,
            r matches Err(VerboseRateLimitError::BeyondCapacity { acquiring, capacity }) ==> acquiring
                == tokens && capacity == self.spec_capacity() && tokens > capacity,
            r matches Err(VerboseRateLimitError::InsufficientCapacity { acquiring, available, .. })
                ==> acquiring == tokens && available < tokens <= self.spec_capacity(),
            self.may_acquire_verbose(tick, tokens, r),
    {
        if tokens == 0 {
            proof {
                use_type_invariant(self);
                self.lemma_governs_fresh();
            }
            return Ok(());
        }
        let mut guard = match lock_try(&self.state) {
            Some(guard) => guard,
            None => {
                return Err(VerboseRateLimitError::ContentionFailure);
            },
        };
        proof {
            use_type_invariant(self);
        }
        let state = lock_state(&mut guard);
        state.bind(self.capacity, self.leak_interval, self.leak_amount);
        assert(self.governs(state@));
        state.try_acquire_verbose_at(tick, tokens)
    }

    /// The level at `tick`, after the leaks that are due have been applied.
    pub fn capacity_remaining(&self, tick: Uint) -> (r: Result<Uint, SimpleRateLimitError>)
        ensures
            r matches Err(e) ==> e == SimpleRateLimitError::ExpiredTick || e
                == SimpleRateLimitError::ContentionFailure,
            r matches Ok(left) ==> left <= self.spec_capacity(),
            self.may_remain(tick, r),
    {
        let mut guard = match lock_try(&self.state) {
            Some(guard) => guard,
            None => {
                return Err(SimpleRateLimitError::ContentionFailure);
            },
        };
        proof {
            use_type_invariant(self);
        }
        let state = lock_state(&mut guard);
        state.bind(self.capacity, self.leak_interval, self.leak_amount);
        assert(self.governs(state@));
        state.capacity_remaining(tick)
    }

    /// The level at `tick`, or 0 when that cannot be told.
    pub fn capacity_remaining_or_0(&self, tick: Uint) -> (r: Uint)
        ensures
            r <= self.spec_capacity(),
            r == 0 || self.may_remain(tick, Ok(r)),
    {
        match self.capacity_remaining(tick) {
            Ok(left) => left,
            Err(_) => 0,
        }
    }

    /// The level as it stands, without applying any leak.
    pub fn current_capacity(&self) -> (r: Result<Uint, SimpleRateLimitError>)
        ensures
            r matches Err(e) ==> e == SimpleRateLimitError::ContentionFailure,
            r matches Ok(left) ==> left <= self.spec_capacity(),
            self.may_hold(r),
    {
        let mut guard = match lock_try(&self.state) {
            Some(guard) => guard,
            None => {
                return Err(SimpleRateLimitError::ContentionFailure);
            },
        };
        proof {
            use_type_invariant(self);
        }
        let state = lock_state(&mut guard);
        state.bind(self.capacity, self.leak_interval, self.leak_amount);
        assert(self.governs(state@));
        Ok(state.current_capacity())
    }

    /// What `current_capacity` reads, or 0 when the bucket is busy.
    pub fn current_capacity_or_0(&self) -> (r: Uint)
        ensures
            r <= self.spec_capacity(),
            r == 0 || self.may_hold(Ok(r)),
    {
        match self.current_capacity() {
            Ok(left) => left,
            Err(_) => 0,
        }
    }

    /// `r` is a contention failure, or what `headroom_at` answers at `tick` on
    /// some bucket that this limiter governs.
    pub open spec fn may_leave_room(&self, tick: Uint, r: Result<Uint, SimpleRateLimitError>) -> bool {
        ||| r == Err::<Uint, SimpleRateLimitError>(SimpleRateLimitError::ContentionFailure)
        ||| exists|s: LeakyBucketModel| #[trigger] self.governs(s) && s.room(tick as nat).1 == r
    }

    /// The room left at `tick`, after the leaks that are due have been
    /// applied: what a request at `tick` could pour in.
    pub fn headroom_at(&self, tick: Uint) -> (r: Result<Uint, SimpleRateLimitError>)
        ensures
            r matches Err(e) ==> e == SimpleRateLimitError::ExpiredTick || e
                == SimpleRateLimitError::ContentionFailure,
            r matches Ok(left) ==> left <= self.spec_capacity(),
            self.may_leave_room(tick, r),
    {
        let mut guard = match lock_try(&self.state) {
            Some(guard) => guard,
            None => {
                return Err(SimpleRateLimitError::ContentionFailure);
            },
        };
        proof {
            use_type_invariant(self);
        }
        let state = lock_state(&mut guard);
        state.bind(self.capacity, self.leak_interval, self.leak_amount);
        assert(self.governs(state@));
        state.headroom_at(tick)
    }
}

impl RateLimitCore for LeakyBucketCore {
    open spec fn limit(&self) -> Uint {
        self.spec_capacity()
    }

    /// Takes the short path of [`LeakyBucketCore::try_acquire_at`]: the answer is a
    /// contention failure, or what that path gives on some bucket that this
    /// limiter governs.
    fn try_acquire_at(&self, tick: Uint, tokens: Uint) -> (r: SimpleRateLimitResult)
        ensures
            self.may_acquire(tick, tokens, r),
    {
        self.try_acquire_at(tick, tokens)
    }

    /// Takes the diagnostic path of [`LeakyBucketCore::try_acquire_verbose_at`]: the
    /// answer is a contention failure, or what that path gives on some bucket
    /// that this limiter governs.
    fn try_acquire_verbose_at(&self, tick: Uint, tokens: Uint) -> (r: VerboseRateLimitResult)
        ensures
            self.may_acquire_verbose(tick, tokens, r),
    {
        self.try_acquire_verbose_at(tick, tokens)
    }

    /// The room left at `tick`: for a leaky bucket, the capacity less the level
    /// that `LeakyBucketCore::capacity_remaining` reports.
    fn capacity_remaining(&self, tick: Uint) -> (r: Result<Uint, SimpleRateLimitError>)
        ensures
            self.may_leave_room(tick, r),
    {
        self.headroom_at(tick)
    }

    /// The room left at `tick`, with every failure counted as 0.
    fn capacity_remaining_or_0(&self, tick: Uint) -> (r: Uint)
        ensures
            r == 0 || self.may_leave_room(tick, Ok(r)),
    {
        let outcome = <Self as RateLimitCore>::capacity_remaining(self, tick);
        match outcome {
            Ok(left) => left,
            Err(_) => 0,
        }
    }
}

impl RateLimiterCore for LeakyBucketCore {
    open spec fn limit(&self) -> Uint {
        self.spec_capacity()
    }

    open spec fn may_report(&self, tick: Uint, left: Uint) -> bool {
        self.may_remain(tick, Ok(left))
    }

    /// Takes the short path of [`LeakyBucketCore::try_acquire_at`]: the answer is a
    /// contention failure, or what that path gives on some bucket that this
    /// limiter governs.
    fn try_acquire_at(&self, tick: Uint, tokens: Uint) -> (r: SimpleAcquireResult)
        ensures
            self.may_acquire(tick, tokens, r),
    {
        self.try_acquire_at(tick, tokens)
    }

    /// The level at `tick`, as `LeakyBucketCore::capacity_remaining` reports it,
    /// or 0 when that cannot be told.
    fn capacity_remaining(&self, tick: Uint) -> (r: Uint) {
        self.capacity_remaining_or_0(tick)
    }
}

/// Parameters of a [`LeakyBucketCore`]. They are checked when the value is made, so
/// that turning it into a limiter cannot fail.
#[derive(Debug, Clone, Copy)]
pub struct LeakyBucketCoreConfig {
    capacity: Uint,
    leak_interval: Uint,
    leak_amount: Uint,
}

impl LeakyBucketCoreConfig {
    #[verifier::type_invariant]
    spec fn inv(self) -> bool {
        self.capacity > 0 && self.leak_interval > 0 && self.leak_amount > 0
    }

    /// Largest level the bucket can hold.
    pub closed spec fn spec_capacity(&self) -> Uint {
        self.capacity
    }

    /// Ticks between two leaks.
    pub closed spec fn spec_leak_interval(&self) -> Uint {
        self.leak_interval
    }

    /// Units that drain at each leak.
    pub closed spec fn spec_leak_amount(&self) -> Uint {
        self.leak_amount
    }

    /// The parameters that `LeakyBucketCore::new` takes, under the same conditions.
    pub fn new(capacity: Uint, leak_interval: Uint, leak_amount: Uint) -> (config: Self)
        requires
            capacity > 0,
            leak_interval > 0,
            leak_amount > 0,
        ensures
            config.spec_capacity() == capacity,
            config.spec_leak_interval() == leak_interval,
            config.spec_leak_amount() == leak_amount,
    {
        LeakyBucketCoreConfig { capacity, leak_interval, leak_amount }
    }

    /// Largest level the bucket can hold.
    #[verifier::when_used_as_spec(spec_capacity)]
    pub fn capacity(&self) -> (r: Uint)
        ensures
            r == self.spec_capacity(),
            r > 0,
    {
        proof {
            use_type_invariant(self);
        }
        self.capacity
    }

    /// Ticks between two leaks.
    #[verifier::when_used_as_spec(spec_leak_interval)]
    pub fn leak_interval(&self) -> (r: Uint)
        ensures
            r == self.spec_leak_interval(),
            r > 0,
    {
        proof {
            use_type_invariant(self);
        }
        self.leak_interval
    }

    /// Units that drain at each leak.
    #[verifier::when_used_as_spec(spec_leak_amount)]
    pub fn leak_amount(&self) -> (r: Uint)
        ensures
            r == self.spec_leak_amount(),
            r > 0,
    {
        proof {
            use_type_invariant(self);
        }
        self.leak_amount
    }
}

impl From<LeakyBucketCoreConfig> for LeakyBucketCore {
    /// The limiter that `new` makes from the same parameters.
    fn from(config: LeakyBucketCoreConfig) -> (core: Self)
        ensures
            core.spec_capacity() == config.spec_capacity(),
            core.spec_leak_interval() == config.spec_leak_interval(),
            core.spec_leak_amount() == config.spec_leak_amount(),
    {
        LeakyBucketCore::new(config.capacity(), config.leak_interval(), config.leak_amount())
    }
}

impl vstd::std_specs::convert::FromSpecImpl<LeakyBucketCoreConfig> for LeakyBucketCore {
    open spec fn obeys_from_spec() -> bool {
        false
    }

    open spec fn from_spec(config: LeakyBucketCoreConfig) -> Self {
        arbitrary()
    }
}

} // verus!
