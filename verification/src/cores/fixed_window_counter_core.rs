//! Fixed window counter: one counter, reset at aligned window boundaries.
//!
//! Time is cut into windows of `window_ticks` ticks that start at multiples of
//! `window_ticks`. Each window has the full capacity to itself, so a burst at
//! the end of one window may be followed by another at the start of the next.

use vstd::prelude::*;
use std::sync::Mutex;
use crate::arith::{align_down, align_tick, lemma_align_down, sat, saturating_mul};
use crate::error::{
    SimpleAcquireResult, SimpleRateLimitError, SimpleRateLimitResult, VerboseAcquireResult,
    VerboseRateLimitError, VerboseRateLimitResult,
};
use crate::lock::{lock_new, lock_state, lock_try};
use crate::rate_limit::RateLimitCore;
use crate::rate_limiter_core::RateLimiterCore;
use crate::types::Uint;

verus! {

/// What a fixed window counter is, as plain numbers.
pub struct FixedWindowModel {
    /// Units allowed per window.
    pub capacity: nat,
    /// Length of a window in ticks.
    pub window_ticks: nat,
    /// Units used in the current window.
    pub count: nat,
    /// First tick of the current window.
    pub window_start: nat,
}

impl FixedWindowModel {
    /// A counter as it is made: nothing used, first window at tick 0.
    pub open spec fn initial(capacity: nat, window_ticks: nat) -> Self {
        FixedWindowModel { capacity, window_ticks, count: 0, window_start: 0 }
    }

    /// The parameters are positive, usage is within capacity, and the window
    /// starts on a boundary.
    pub open spec fn wf(self) -> bool {
        &&& 0 < self.capacity <= Uint::MAX
        &&& 0 < self.window_ticks <= Uint::MAX
        &&& self.count <= self.capacity
        &&& self.window_start <= Uint::MAX
        &&& self.window_start % self.window_ticks == 0
    }

    /// A counter as it is made is well formed.
    pub proof fn lemma_initial(capacity: nat, window_ticks: nat)
        requires
            0 < capacity <= Uint::MAX,
            0 < window_ticks <= Uint::MAX,
        ensures
            Self::initial(capacity, window_ticks).wf(),
    {
        vstd::arithmetic::div_mod::lemma_small_mod(0, window_ticks);
    }

    /// Same capacity and window length.
    pub open spec fn same_config(self, other: Self) -> bool {
        self.capacity == other.capacity && self.window_ticks == other.window_ticks
    }

    /// The smallest tick that is still accepted.
    pub open spec fn min_tick(self) -> nat {
        self.window_start
    }

    /// Whether `tick` lies before the current window.
    pub open spec fn expired(self, tick: nat) -> bool {
        tick < self.min_tick()
    }

    /// Units that can still be taken in the current window.
    pub open spec fn available(self) -> nat {
        (self.capacity - self.count) as nat
    }

    /// What is left in the current window, whatever the tick.
    pub open spec fn current_capacity(self) -> nat {
        self.available()
    }

    /// The counter as seen at `tick`: unchanged inside the current window, and
    /// empty in the window of `tick` once that is another one.
    pub open spec fn at_tick(self, tick: nat) -> Self {
        let start = align_down(tick, self.window_ticks);
        if start != self.window_start {
            FixedWindowModel { count: 0, window_start: start, ..self }
        } else {
            self
        }
    }

    /// The counter after `tokens` more units were taken.
    pub open spec fn with_used(self, tokens: nat) -> Self {
        FixedWindowModel { count: self.count + tokens, ..self }
    }

    /// Ticks from `tick` to the next window boundary, the boundary clamped to
    /// the range of `Uint`.
    pub open spec fn ticks_to_next_window(self, tick: nat) -> nat {
        (sat(((tick / self.window_ticks + 1) * self.window_ticks) as int) - tick) as nat
    }

    /// Outcome and next state of the short acquisition path.
    pub open spec fn acquire(self, tick: nat, tokens: nat) -> (Self, SimpleAcquireResult) {
        if tokens == 0 {
            (self, Ok(()))
        } else if self.expired(tick) {
            (self, Err(SimpleRateLimitError::ExpiredTick))
        } else if tokens <= self.at_tick(tick).available() {
            (self.at_tick(tick).with_used(tokens), Ok(()))
        } else {
            (self.at_tick(tick), Err(SimpleRateLimitError::InsufficientCapacity))
        }
    }

    /// Outcome and next state of the diagnostic acquisition path.
    pub open spec fn acquire_verbose(self, tick: nat, tokens: nat) -> (Self, VerboseAcquireResult) {
        if tokens == 0 {
            (self, Ok(()))
        } else if self.expired(tick) {
            (self, Err(VerboseRateLimitError::ExpiredTick { min_acceptable_tick: self.min_tick() as Uint }))
        } else if tokens > self.capacity {
            (
                self,
                Err(
                    VerboseRateLimitError::BeyondCapacity {
                        acquiring: tokens as Uint,
                        capacity: self.capacity as Uint,
                    },
                ),
            )
        } else if tokens <= self.at_tick(tick).available() {
            (self.at_tick(tick).with_used(tokens), Ok(()))
        } else {
            (
                self.at_tick(tick),
                Err(
                    VerboseRateLimitError::InsufficientCapacity {
                        acquiring: tokens as Uint,
                        available: self.at_tick(tick).available() as Uint,
                        retry_after_ticks: self.ticks_to_next_window(tick) as Uint,
                    },
                ),
            )
        }
    }

    /// Outcome and next state of asking what is left at `tick`.
    pub open spec fn remaining(self, tick: nat) -> (Self, Result<Uint, SimpleRateLimitError>) {
        if self.expired(tick) {
            (self, Err(SimpleRateLimitError::ExpiredTick))
        } else {
            (self.at_tick(tick), Ok(self.at_tick(tick).available() as Uint))
        }
    }
}

/// What holds of every counter, and of every run of requests.
impl FixedWindowModel {
    /// The counter after the requests, each a tick and a number of units, went
    /// through the short path in order.
    pub open spec fn after(self, requests: Seq<(nat, nat)>) -> Self
        decreases requests.len(),
    {
        if requests.len() == 0 {
            self
        } else {
            self.after(requests.drop_last()).acquire(requests.last().0, requests.last().1).0
        }
    }

    /// The ticks of the requests never go back, and all ticks and units are
    /// within the range of `Uint`.
    pub open spec fn in_order(requests: Seq<(nat, nat)>) -> bool {
        &&& forall|i: int| 0 <= i < requests.len() ==> (#[trigger] requests[i]).0 <= Uint::MAX
        &&& forall|i: int| 0 <= i < requests.len() ==> (#[trigger] requests[i]).1 <= Uint::MAX
        &&& forall|i: int, j: int|
            0 <= i <= j < requests.len() ==> (#[trigger] requests[i]).0 <= (#[trigger] requests[j]).0
    }

    /// Every operation keeps the counter well formed and its configuration
    /// as it was; one that is given a tick that has not expired leaves no
    /// later minimum than that tick behind.
    pub proof fn lemma_step(self, tick: nat, tokens: nat)
        requires
            self.wf(),
            tick <= Uint::MAX,
            tokens <= Uint::MAX,
        ensures
            self.acquire(tick, tokens).0.wf(),
            self.acquire(tick, tokens).0.same_config(self),
            self.acquire_verbose(tick, tokens).0.wf(),
            self.acquire_verbose(tick, tokens).0.same_config(self),
            self.remaining(tick).0.wf(),
            self.remaining(tick).0.same_config(self),
            !self.expired(tick) ==> self.acquire(tick, tokens).0.min_tick() <= tick,
            !self.expired(tick) ==> self.acquire_verbose(tick, tokens).0.min_tick() <= tick,
            !self.expired(tick) ==> self.remaining(tick).0.min_tick() <= tick,
    {
        lemma_align_down(tick, self.window_ticks);
    }

    /// Zero units always succeed and change nothing, whatever the tick and
    /// whatever the counter holds.
    pub proof fn law_zero_units(self, tick: nat)
        ensures
            self.acquire(tick, 0) == (self, Ok::<(), SimpleRateLimitError>(())),
            self.acquire_verbose(tick, 0) == (self, Ok::<(), VerboseRateLimitError>(())),
    {
    }

    /// A tick below the retained minimum is refused as expired, for any
    /// request of at least one unit and for any question about what is left,
    /// and the counter stays as it was.
    pub proof fn law_expired_tick(self, tick: nat, tokens: nat)
        requires
            tick < self.min_tick(),
            tokens > 0,
        ensures
            self.acquire(tick, tokens) == (
                self,
                Err::<(), SimpleRateLimitError>(SimpleRateLimitError::ExpiredTick),
            ),
            self.acquire_verbose(tick, tokens) == (
                self,
                Err::<(), VerboseRateLimitError>(
                    VerboseRateLimitError::ExpiredTick { min_acceptable_tick: self.min_tick() as Uint },
                ),
            ),
            self.remaining(tick) == (
                self,
                Err::<Uint, SimpleRateLimitError>(SimpleRateLimitError::ExpiredTick),
            ),
    {
    }

    /// After an operation at a tick that has not expired, no tick at or after
    /// it is expired.
    pub proof fn law_later_ticks_accepted(self, tick: nat, tokens: nat, later: nat)
        requires
            self.wf(),
            tick <= Uint::MAX,
            tokens <= Uint::MAX,
            !self.expired(tick),
            tick <= later,
        ensures
            !self.acquire(tick, tokens).0.expired(later),
            !self.acquire_verbose(tick, tokens).0.expired(later),
            !self.remaining(tick).0.expired(later),
    {
        self.lemma_step(tick, tokens);
    }

    /// A run of requests whose ticks never go back, starting at or after the
    /// retained minimum, keeps the counter well formed and leaves the
    /// minimum at or below the last tick.
    pub proof fn lemma_run(self, requests: Seq<(nat, nat)>)
        requires
            self.wf(),
            Self::in_order(requests),
            requests.len() > 0 ==> !self.expired(requests[0].0),
        ensures
            self.after(requests).wf(),
            self.after(requests).same_config(self),
            requests.len() > 0 ==> self.after(requests).min_tick() <= requests.last().0,
        decreases requests.len(),
    {
        if requests.len() > 0 {
            let before = requests.drop_last();
            let (tick, tokens) = requests.last();
            assert(forall|i: int| 0 <= i < before.len() ==> before[i] == requests[i]);
            self.lemma_run(before);
            let s = self.after(before);
            if before.len() > 0 {
                assert(before.last() == requests[before.len() - 1]);
            }
            s.lemma_step(tick, tokens);
            if tokens == 0 {
                assert(s.acquire(tick, tokens).0 == s);
            }
        }
    }

    /// On ticks that never go back, no request is refused as expired.
    pub proof fn law_no_expiry_in_order(self, requests: Seq<(nat, nat)>, i: int)
        requires
            self.wf(),
            Self::in_order(requests),
            requests.len() > 0 ==> !self.expired(requests[0].0),
            0 <= i < requests.len(),
        ensures
            self.after(requests.take(i)).acquire(requests[i].0, requests[i].1).1 != Err::<
                (),
                SimpleRateLimitError,
            >(SimpleRateLimitError::ExpiredTick),
    {
        let before = requests.take(i);
        assert(forall|j: int| 0 <= j < before.len() ==> before[j] == requests[j]);
        self.lemma_run(before);
        if i > 0 {
            assert(before.last() == requests[i - 1]);
        }
    }

    /// Units that the requests were granted, taken through the short path in
    /// order.
    pub open spec fn granted(self, requests: Seq<(nat, nat)>) -> nat
        decreases requests.len(),
    {
        if requests.len() == 0 {
            0
        } else {
            self.granted(requests.drop_last()) + if self.after(requests.drop_last()).acquire(
                requests.last().0,
                requests.last().1,
            ).1 is Ok {
                requests.last().1
            } else {
                0
            }
        }
    }

    /// Units in use in the window of `tick`.
    pub open spec fn usage(self, tick: nat) -> nat {
        self.at_tick(tick).count
    }

    /// A request at a tick raises the usage seen at that tick by what it was
    /// granted, and a grant leaves that usage within the capacity.
    pub proof fn lemma_usage_step(self, tick: nat, tokens: nat)
        requires
            self.wf(),
            tick <= Uint::MAX,
            tokens <= Uint::MAX,
            !self.expired(tick),
        ensures
            self.acquire(tick, tokens).0.wf(),
            self.acquire(tick, tokens).0.same_config(self),
            !self.acquire(tick, tokens).0.expired(tick),
            self.acquire(tick, tokens).0.usage(tick) == self.usage(tick) + if self.acquire(
                tick,
                tokens,
            ).1 is Ok {
                tokens
            } else {
                0
            },
            tokens > 0 && self.acquire(tick, tokens).1 is Ok ==> self.acquire(tick, tokens).0.usage(
                tick,
            ) <= self.capacity,
    {
        self.lemma_step(tick, tokens);
        lemma_align_down(tick, self.window_ticks);
    }

    /// What is granted at one tick adds up to no more than the capacity,
    /// however many requests there are and whatever the counter held before:
    /// every grant shows in the usage seen at that tick.
    pub proof fn law_grants_at_one_tick(self, requests: Seq<(nat, nat)>, tick: nat)
        requires
            self.wf(),
            Self::in_order(requests),
            forall|i: int| 0 <= i < requests.len() ==> (#[trigger] requests[i]).0 == tick,
            tick <= Uint::MAX,
            !self.expired(tick),
        ensures
            self.after(requests).wf(),
            self.after(requests).same_config(self),
            !self.after(requests).expired(tick),
            self.granted(requests) + self.usage(tick) == self.after(requests).usage(tick),
            self.granted(requests) > 0 ==> self.after(requests).usage(tick) <= self.capacity,
            self.granted(requests) <= self.capacity,
        decreases requests.len(),
    {
        if requests.len() > 0 {
            let before = requests.drop_last();
            let tokens = requests.last().1;
            assert(forall|i: int| 0 <= i < before.len() ==> before[i] == requests[i]);
            assert(requests.last() == requests[requests.len() - 1]);
            self.law_grants_at_one_tick(before, tick);
            self.after(before).lemma_usage_step(tick, tokens);
        }
    }

    /// The short path and the diagnostic path decide alike: they grant the
    /// same requests and leave the same counter behind a grant, and they
    /// refuse for the same reason, except that the short path reports a
    /// request above the capacity as one that does not fit.
    pub proof fn law_paths_agree(self, tick: nat, tokens: nat)
        requires
            self.wf(),
            tick <= Uint::MAX,
            tokens <= Uint::MAX,
        ensures
            self.acquire(tick, tokens).1 is Ok <==> self.acquire_verbose(tick, tokens).1 is Ok,
            self.acquire(tick, tokens).1 is Ok ==> self.acquire(tick, tokens).0 == self.acquire_verbose(
                tick,
                tokens,
            ).0,
            self.acquire_verbose(tick, tokens).1 matches Err(e) ==> self.acquire(tick, tokens).1 == Err::<
                (),
                SimpleRateLimitError,
            >(
                if e is BeyondCapacity {
                    SimpleRateLimitError::InsufficientCapacity
                } else {
                    e.simplified()
                },
            ),
    {
        self.lemma_step(tick, tokens);

    }

    /// What is reported as left at a tick can be taken at that tick.
    pub proof fn law_reported_is_grantable(self, tick: nat)
        requires
            self.wf(),
            tick <= Uint::MAX,
            !self.expired(tick),
        ensures
            self.remaining(tick).1 matches Ok(left) && (left == 0 || self.remaining(tick).0.acquire(
                tick,
                left as nat,
            ).1 is Ok),
    {
        self.lemma_step(tick, 0);
        lemma_align_down(tick, self.window_ticks);
    }

    /// Whatever was granted, the units used in the current window are within
    /// the capacity: a grant is given only for what the window has left.
    pub proof fn law_capacity(self, tick: nat, tokens: nat)
        requires
            self.wf(),
            tick <= Uint::MAX,
            tokens <= Uint::MAX,
        ensures
            self.acquire(tick, tokens).0.count <= self.capacity,
            self.acquire_verbose(tick, tokens).0.count <= self.capacity,
            self.acquire(tick, tokens).1 is Ok && tokens > 0 ==> tokens <= self.capacity
                && self.acquire(tick, tokens).0.count == self.at_tick(tick).count + tokens,
            self.acquire(tick, tokens).1 is Ok <==> self.acquire_verbose(tick, tokens).1 is Ok,
    {
        self.lemma_step(tick, tokens);
    }

    /// A request within the capacity that was told to wait is granted when
    /// the wait is over, if nothing else was taken meanwhile: the estimate
    /// reaches the start of the next window.
    pub proof fn law_retry_suffices(self, tick: nat, tokens: nat)
        requires
            self.wf(),
            !self.expired(tick),
            0 < tokens <= self.capacity,
            (tick / self.window_ticks + 1) * self.window_ticks <= Uint::MAX,
        ensures
            self.acquire_verbose(tick, tokens).1 matches Err(
                VerboseRateLimitError::InsufficientCapacity { retry_after_ticks, .. },
            ) ==> self.acquire_verbose(tick, tokens).0.acquire(
                tick + retry_after_ticks as nat,
                tokens,
            ).1 is Ok,
    {
        let w = self.window_ticks as int;
        let q = (tick / self.window_ticks) as int;
        lemma_align_down(tick, self.window_ticks);
        vstd::arithmetic::div_mod::lemma_div_multiples_vanish(q + 1, w);
        assert((q + 1) * w == w * (q + 1)) by (nonlinear_arith);
        assert((q + 1) * w == q * w + w) by (nonlinear_arith);
        let later = ((q + 1) * w) as nat;
        assert(align_down(later, self.window_ticks) == later);
    }

    /// A tick in a later window finds the whole capacity free, whatever was
    /// used before: the burst at the end of one window and the burst at the
    /// start of the next are both granted.
    pub proof fn law_new_window_is_empty(self, tick: nat)
        requires
            self.wf(),
            !self.expired(tick),
            align_down(tick, self.window_ticks) != self.window_start,
        ensures
            self.at_tick(tick).available() == self.capacity,
            self.acquire(tick, self.capacity).1 is Ok,
    {
    }
}

/// A fixed window counter: its configuration and its counters, as one value
/// that a lock can guard.
pub struct FixedWindowCounterCoreState {
    capacity: Uint,
    window_ticks: Uint,
    count: Uint,
    start_tick: Uint,
}

impl View for FixedWindowCounterCoreState {
    type V = FixedWindowModel;

    closed spec fn view(&self) -> FixedWindowModel {
        FixedWindowModel {
            capacity: self.capacity as nat,
            window_ticks: self.window_ticks as nat,
            count: self.count as nat,
            window_start: self.start_tick as nat,
        }
    }
}

impl FixedWindowCounterCoreState {
    #[verifier::type_invariant]
    spec fn inv(self) -> bool {
        self@.wf()
    }

    /// A fresh counter: nothing used, first window at tick 0.
    pub fn new(capacity: Uint, window_ticks: Uint) -> (s: Self)
        requires
            capacity > 0,
            window_ticks > 0,
        ensures
            s@ == FixedWindowModel::initial(capacity as nat, window_ticks as nat),
            s@.wf(),
    {
        proof {
            vstd::arithmetic::div_mod::lemma_small_mod(0, window_ticks as nat);
        }
        FixedWindowCounterCoreState { capacity, window_ticks, count: 0, start_tick: 0 }
    }

    /// Binds the counter to the given parameters: a counter that has them
    /// already stays as it is, any other starts afresh under them.
    pub fn bind(&mut self, capacity: Uint, window_ticks: Uint)
        requires
            capacity > 0,
            window_ticks > 0,
        ensures
            final(self)@.wf(),
            final(self)@.same_config(Self::fresh(capacity, window_ticks)),
            final(self)@ == if old(self)@.same_config(Self::fresh(capacity, window_ticks)) {
                old(self)@
            } else {
                Self::fresh(capacity, window_ticks)
            },
    {
        proof {
            use_type_invariant(&*self);
        }
        if self.capacity != capacity
            || self.window_ticks != window_ticks
        {
            *self = Self::new(capacity, window_ticks);
        }
    }

    /// The model of a counter as it is made with the given parameters.
    pub open spec fn fresh(capacity: Uint, window_ticks: Uint) -> FixedWindowModel {
        FixedWindowModel::initial(
                capacity as nat,
                window_ticks as nat,
        )
    }

    /// Units allowed per window.
    pub fn capacity(&self) -> (r: Uint)
        ensures
            r == self@.capacity,
    {
        self.capacity
    }

    /// Length of a window in ticks.
    pub fn window_ticks(&self) -> (r: Uint)
        ensures
            r == self@.window_ticks,
    {
        self.window_ticks
    }

    /// Moves to the window of `tick`, emptying the counter when that is a new
    /// window.
    fn enter_window(&mut self, tick: Uint)
        requires
            !old(self)@.expired(tick as nat),
        ensures
            final(self)@ == old(self)@.at_tick(tick as nat),
            final(self)@.wf(),
    {
        proof {
            use_type_invariant(&*self);
            lemma_align_down(tick as nat, self.window_ticks as nat);
        }
        let start = align_tick(tick, self.window_ticks);
        if start != self.start_tick {
            self.count = 0;
            self.start_tick = start;
        }
    }

    /// Ticks until the window after that of `tick` begins.
    fn ticks_to_next_window(&self, tick: Uint) -> (r: Uint)
        ensures
            r == self@.ticks_to_next_window(tick as nat),
    {
        proof {
            use_type_invariant(self);
            lemma_align_down(tick as nat, self.window_ticks as nat);
        }
        let index = tick / self.window_ticks;
        let next_index = index.saturating_add(1);
        let next_start = saturating_mul(next_index, self.window_ticks);
        proof {
            let w = self.window_ticks as int;
            let q = (tick as int) / w;
            assert(index == q);
            assert(q * w <= tick);
            assert((q + 1) * w == q * w + w) by (nonlinear_arith);
            if q + 1 > Uint::MAX {
                // only a window of one tick reaches the last index
                assert(w == 1) by (nonlinear_arith)
                    requires
                        q * w <= Uint::MAX,
                        q >= Uint::MAX,
                        w >= 1,
                ;
                assert(next_index * w == Uint::MAX as int) by (nonlinear_arith)
                    requires
                        next_index == Uint::MAX,
                        w == 1,
                ;
            }
            assert(next_start == sat((q + 1) * w));
            assert(sat((q + 1) * w) >= tick) by {
                vstd::arithmetic::div_mod::lemma_fundamental_div_mod(tick as int, w);
                assert(w * q == q * w) by (nonlinear_arith);
            }
        }
        next_start - tick
    }

    /// Takes `tokens` units at `tick`, on the short path.
    pub fn try_acquire_at(&mut self, tick: Uint, tokens: Uint) -> (r: SimpleAcquireResult)
        ensures
            (final(self)@, r) == old(self)@.acquire(tick as nat, tokens as nat),
            final(self)@.wf(),
            tokens == 0 ==> r is Ok && final(self)@ == old(self)@,
    {
        proof {
            use_type_invariant(&*self);
        }
        if tokens == 0 {
            return Ok(());
        }
        if tick < self.start_tick {
            return Err(SimpleRateLimitError::ExpiredTick);
        }
        self.enter_window(tick);
        proof {
            use_type_invariant(&*self);
        }
        if tokens <= self.capacity - self.count {
            self.count = self.count + tokens;
            Ok(())
        } else {
            Err(SimpleRateLimitError::InsufficientCapacity)
        }
    }

    /// Takes `tokens` units at `tick`, and says why not when it cannot.
    pub fn try_acquire_verbose_at(&mut self, tick: Uint, tokens: Uint) -> (r: VerboseAcquireResult)
        ensures
            (final(self)@, r) == old(self)@.acquire_verbose(tick as nat, tokens as nat),
            final(self)@.wf(),
            tokens == 0 ==> r is Ok && final(self)@ == old(self)@,
    {
        proof {
            use_type_invariant(&*self);
        }
        if tokens == 0 {
            return Ok(());
        }
        if tick < self.start_tick {
            return Err(VerboseRateLimitError::ExpiredTick { min_acceptable_tick: self.start_tick });
        }
        if tokens > self.capacity {
            return Err(
                VerboseRateLimitError::BeyondCapacity { acquiring: tokens, capacity: self.capacity },
            );
        }
        self.enter_window(tick);
        proof {
            use_type_invariant(&*self);
        }
        let available = self.capacity - self.count;
        if tokens <= available {
            self.count = self.count + tokens;
            Ok(())
        } else {
            let retry_after_ticks = self.ticks_to_next_window(tick);
            Err(
                VerboseRateLimitError::InsufficientCapacity {
                    acquiring: tokens,
                    available,
                    retry_after_ticks,
                },
            )
        }
    }

    /// Units left in the window of `tick`, after moving to that window.
    pub fn capacity_remaining(&mut self, tick: Uint) -> (r: Result<Uint, SimpleRateLimitError>)
        ensures
            (final(self)@, r) == old(self)@.remaining(tick as nat),
            final(self)@.wf(),
    {
        proof {
            use_type_invariant(&*self);
        }
        if tick < self.start_tick {
            return Err(SimpleRateLimitError::ExpiredTick);
        }
        self.enter_window(tick);
        proof {
            use_type_invariant(&*self);
        }
        Ok(self.capacity - self.count)
    }

    /// Units left in the current window, without looking at any tick.
    pub fn current_capacity(&self) -> (r: Uint)
        ensures
            r == self@.current_capacity(),
    {
        proof {
            use_type_invariant(self);
        }
        self.capacity - self.count
    }
}

/// A fixed window counter shared between threads.
///
/// The counter sits behind a lock that is tried once per call and never
/// awaited: a call that finds the lock taken fails with `ContentionFailure`.
/// A call that gets the lock performs its whole read-decide-update step on
/// the counter before it lets go.
///
/// The parameters stand beside the lock, where they can be read at any time;
/// the counter behind the lock is bound to them before every step.
pub struct FixedWindowCounterCore {
    capacity: Uint,
    window_ticks: Uint,
    state: Mutex<FixedWindowCounterCoreState>,
}

impl FixedWindowCounterCore {
    #[verifier::type_invariant]
    spec fn inv(self) -> bool {
        self.capacity > 0 && self.window_ticks > 0
    }

    /// Units allowed per window.
    pub closed spec fn spec_capacity(&self) -> Uint {
        self.capacity
    }

    /// Length of a window in ticks.
    pub closed spec fn spec_window_ticks(&self) -> Uint {
        self.window_ticks
    }

    /// Units allowed per window.
    #[verifier::when_used_as_spec(spec_capacity)]
    pub fn capacity(&self) -> (r: Uint)
        ensures
            r == self.spec_capacity(),
            r > 0,
    {
        proof {
            use_type_invariant(self);
        }
        self.capacity
    }

    /// Length of a window in ticks.
    #[verifier::when_used_as_spec(spec_window_ticks)]
    pub fn window_ticks(&self) -> (r: Uint)
        ensures
            r == self.spec_window_ticks(),
            r > 0,
    {
        proof {
            use_type_invariant(self);
        }
        self.window_ticks
    }

    /// `s` is a well formed counter with the parameters of this limiter.
    pub open spec fn governs(&self, s: FixedWindowModel) -> bool {
        &&& s.wf()
        &&& s.capacity == self.spec_capacity()
        &&& s.window_ticks == self.spec_window_ticks()
    }

    /// The limiter governs a counter as it is made with its parameters: there
    /// is always a counter that it governs.
    proof fn lemma_governs_fresh(&self)
        requires
            self.inv(),
        ensures
            self.governs(
                FixedWindowModel::initial(
                    self.capacity as nat,
                    self.window_ticks as nat,
                ),
            ),
    {
        FixedWindowModel::lemma_initial(
            self.capacity as nat,
            self.window_ticks as nat,
        );
    }

    /// `r` is a contention failure, or what the short path answers on some
    /// counter that this limiter governs.
    pub open spec fn may_acquire(&self, tick: Uint, tokens: Uint, r: SimpleAcquireResult) -> bool {
        ||| tokens != 0 && r == Err::<(), SimpleRateLimitError>(
            SimpleRateLimitError::ContentionFailure,
        )
        ||| exists|s: FixedWindowModel| #[trigger]
            self.governs(s) && s.acquire(tick as nat, tokens as nat).1 == r
    }

    /// `r` is a contention failure, or what the diagnostic path answers on
    /// some counter that this limiter governs.
    pub open spec fn may_acquire_verbose(
        &self,
        tick: Uint,
        tokens: Uint,
        r: VerboseAcquireResult,
    ) -> bool {
        ||| tokens != 0 && r == Err::<(), VerboseRateLimitError>(
            VerboseRateLimitError::ContentionFailure,
        )
        ||| exists|s: FixedWindowModel| #[trigger]
            self.governs(s) && s.acquire_verbose(tick as nat, tokens as nat).1 == r
    }

    /// `r` is a contention failure, or what `capacity_remaining` answers at
    /// `tick` on some counter that this limiter governs.
    pub open spec fn may_remain(&self, tick: Uint, r: Result<Uint, SimpleRateLimitError>) -> bool {
        ||| r == Err::<Uint, SimpleRateLimitError>(SimpleRateLimitError::ContentionFailure)
        ||| exists|s: FixedWindowModel| #[trigger] self.governs(s) && s.remaining(tick as nat).1 == r
    }

    /// `r` is a contention failure, or what `current_capacity` reads from some
    /// counter that this limiter governs.
    pub open spec fn may_hold(&self, r: Result<Uint, SimpleRateLimitError>) -> bool {
        ||| r == Err::<Uint, SimpleRateLimitError>(SimpleRateLimitError::ContentionFailure)
        ||| exists|s: FixedWindowModel| #[trigger]
            self.governs(s) && r == Ok::<Uint, SimpleRateLimitError>(s.current_capacity() as Uint)
    }

    /// A counter of `capacity` units per window of `window_ticks` ticks, with
    /// nothing used.
    pub fn new(capacity: Uint, window_ticks: Uint) -> (core: Self)
        requires
            capacity > 0,
            window_ticks > 0,
        ensures
            core.spec_capacity() == capacity,
            core.spec_window_ticks() == window_ticks,
    {
        let state = FixedWindowCounterCoreState::new(capacity, window_ticks);
        FixedWindowCounterCore { capacity, window_ticks, state: lock_new(state) }
    }

    /// Tries to take `tokens` units at `tick`.
    ///
    /// Zero units always succeed and touch nothing. A request above the
    /// capacity is refused as `InsufficientCapacity`, like any other that does
    /// not fit.
    pub fn try_acquire_at(&self, tick: Uint, tokens: Uint) -> (r: SimpleAcquireResult)
        ensures
            tokens == 0 ==> r is Ok,
            tokens > self.spec_capacity() ==> r is Err,
            r != Err::<(), SimpleRateLimitError>(SimpleRateLimitError::BeyondCapacity),
            self.may_acquire(tick, tokens, r),
    {
        if tokens == 0 {
            proof {
                use_type_invariant(self);
                self.lemma_governs_fresh();
            }
            return Ok(());
        }
        let mut guard = match lock_try(&self.state) {
            Some(guard) => guard,
            None => {
                return Err(SimpleRateLimitError::ContentionFailure);
            },
        };
        proof {
            use_type_invariant(self);
        }
        let state = lock_state(&mut guard);
        state.bind(self.capacity, self.window_ticks);
        assert(self.governs(state@));
        state.try_acquire_at(tick, tokens)
    }

    /// Like `try_acquire_at`, and reports the figures behind a refusal: what
    /// was asked, what was available, and an estimate of the ticks to wait. A
    /// request above the capacity is refused as `BeyondCapacity`.
    pub fn try_acquire_verbose_at(&self, tick: Uint, tokens: Uint) -> (r: VerboseAcquireResult)
        ensures
            tokens == 0 ==> r is Ok,
            tokens > self.spec_capacity() ==> r is Err,
            r matches Err(VerboseRateLimitError::BeyondCapacity { acquiring, capacity }) ==> acquiring
                == tokens && capacity == self.spec_capacity() && tokens > capacity,
            r matches Err(VerboseRateLimitError::InsufficientCapacity { acquiring, available, .. })
                ==> acquiring == tokens && available < tokens <= self.spec_capacity(),
            self.may_acquire_verbose(tick, tokens, r),
    {
        if tokens == 0 {
            proof {
                use_type_invariant(self);
                self.lemma_governs_fresh();
            }
            return Ok(());
        }
        let mut guard = match lock_try(&self.state) {
            Some(guard) => guard,
            None => {
                return Err(VerboseRateLimitError::ContentionFailure);
            },
        };
        proof {
            use_type_invariant(self);
        }
        let state = lock_state(&mut guard);
        state.bind(self.capacity, self.window_ticks);
        assert(self.governs(state@));
        state.try_acquire_verbose_at(tick, tokens)
    }

    /// Units left in the window of `tick`; moves the counter to that window.
    pub fn capacity_remaining(&self, tick: Uint) -> (r: Result<Uint, SimpleRateLimitError>)
        ensures
            r matches Err(e) ==> e == SimpleRateLimitError::ExpiredTick || e
                == SimpleRateLimitError::ContentionFailure,
            r matches Ok(left) ==> left <= self.spec_capacity(),
            self.may_remain(tick, r),
    {
        let mut guard = match lock_try(&self.state) {
            Some(guard) => guard,
            None => {
                return Err(SimpleRateLimitError::ContentionFailure);
            },
        };
        proof {
            use_type_invariant(self);
        }
        let state = lock_state(&mut guard);
        state.bind(self.capacity, self.window_ticks);
        assert(self.governs(state@));
        state.capacity_remaining(tick)
    }

    /// Units left in the window of `tick`, or 0 when that cannot be told.
    pub fn capacity_remaining_or_0(&self, tick: Uint) -> (r: Uint)
        ensures
            r <= self.spec_capacity(),
            r == 0 || self.may_remain(tick, Ok(r)),
    {
        match self.capacity_remaining(tick) {
            Ok(left) => left,
            Err(_) => 0,
        }
    }

    /// Units left in the current window, without moving to another one.
    pub fn current_capacity(&self) -> (r: Result<Uint, SimpleRateLimitError>)
        ensures
            r matches Err(e) ==> e == SimpleRateLimitError::ContentionFailure,
            r matches Ok(left) ==> left <= self.spec_capacity(),
            self.may_hold(r),
    {
        let mut guard = match lock_try(&self.state) {
            Some(guard) => guard,
            None => {
                return Err(SimpleRateLimitError::ContentionFailure);
            },
        };
        proof {
            use_type_invariant(self);
        }
        let state = lock_state(&mut guard);
        state.bind(self.capacity, self.window_ticks);
        assert(self.governs(state@));
        Ok(state.current_capacity())
    }

    /// What `current_capacity` reads, or 0 when the counter is busy.
    pub fn current_capacity_or_0(&self) -> (r: Uint)
        ensures
            r <= self.spec_capacity(),
            r == 0 || self.may_hold(Ok(r)),
    {
        match self.current_capacity() {
            Ok(left) => left,
            Err(_) => 0,
        }
    }
}

impl RateLimitCore for FixedWindowCounterCore {
    open spec fn limit(&self) -> Uint {
        self.spec_capacity()
    }

    /// Takes the short path of [`FixedWindowCounterCore::try_acquire_at`]: the answer is a
    /// contention failure, or what that path gives on some counter that this
    /// limiter governs.
    fn try_acquire_at(&self, tick: Uint, tokens: Uint) -> (r: SimpleRateLimitResult)
        ensures
            self.may_acquire(tick, tokens, r),
    {
        self.try_acquire_at(tick, tokens)
    }

    /// Takes the diagnostic path of [`FixedWindowCounterCore::try_acquire_verbose_at`]: the
    /// answer is a contention failure, or what that path gives on some counter
    /// that this limiter governs.
    fn try_acquire_verbose_at(&self, tick: Uint, tokens: Uint) -> (r: VerboseRateLimitResult)
        ensures
            self.may_acquire_verbose(tick, tokens, r),
    {
        self.try_acquire_verbose_at(tick, tokens)
    }

    /// What [`FixedWindowCounterCore::capacity_remaining`] reports at
    /// `tick`.
    fn capacity_remaining(&self, tick: Uint) -> (r: Result<Uint, SimpleRateLimitError>)
        ensures
            self.may_remain(tick, r),
    {
        self.capacity_remaining(tick)
    }

    /// What [`FixedWindowCounterCore::capacity_remaining`] reports at
    /// `tick`, with every failure counted as 0.
    fn capacity_remaining_or_0(&self, tick: Uint) -> (r: Uint)
        ensures
            r == 0 || self.may_remain(tick, Ok(r)),
    {
        let outcome = <Self as RateLimitCore>::capacity_remaining(self, tick);
        match outcome {
            Ok(left) => left,
            Err(_) => 0,
        }
    }
}

impl RateLimiterCore for FixedWindowCounterCore {
    open spec fn limit(&self) -> Uint {
        self.spec_capacity()
    }

    open spec fn may_report(&self, tick: Uint, left: Uint) -> bool {
        self.may_remain(tick, Ok(left))
    }

    /// Takes the short path of [`FixedWindowCounterCore::try_acquire_at`]: the answer is a
    /// contention failure, or what that path gives on some counter that this
    /// limiter governs.
    fn try_acquire_at(&self, tick: Uint, tokens: Uint) -> (r: SimpleAcquireResult)
        ensures
            self.may_acquire(tick, tokens, r),
    {
        self.try_acquire_at(tick, tokens)
    }

    /// What [`FixedWindowCounterCore::capacity_remaining`] reports at
    /// `tick`, or 0 when that cannot be told.
    fn capacity_remaining(&self, tick: Uint) -> (r: Uint) {
        self.capacity_remaining_or_0(tick)
    }
}

/// Parameters of a [`FixedWindowCounterCore`]. They are checked when the value is made, so
/// that turning it into a limiter cannot fail.
#[derive(Debug, Clone, Copy)]
pub struct FixedWindowCounterCoreConfig {
    capacity: Uint,
    window_ticks: Uint,
}

impl FixedWindowCounterCoreConfig {
    #[verifier::type_invariant]
    spec fn inv(self) -> bool {
        self.capacity > 0 && self.window_ticks > 0
    }

    /// Units allowed per window.
    pub closed spec fn spec_capacity(&self) -> Uint {
        self.capacity
    }

    /// Length of a window in ticks.
    pub closed spec fn spec_window_ticks(&self) -> Uint {
        self.window_ticks
    }

    /// The parameters that `FixedWindowCounterCore::new` takes, under the same conditions.
    pub fn new(capacity: Uint, window_ticks: Uint) -> (config: Self)
        requires
            capacity > 0,
            window_ticks > 0,
        ensures
            config.spec_capacity() == capacity,
            config.spec_window_ticks() == window_ticks,
    {
        FixedWindowCounterCoreConfig { capacity, window_ticks }
    }

    /// Units allowed per window.
    #[verifier::when_used_as_spec(spec_capacity)]
    pub fn capacity(&self) -> (r: Uint)
        ensures
            r == self.spec_capacity(),
            r > 0,
    {
        proof {
            use_type_invariant(self);
        }
        self.capacity
    }

    /// Length of a window in ticks.
    #[verifier::when_used_as_spec(spec_window_ticks)]
    pub fn window_ticks(&self) -> (r: Uint)
        ensures
            r == self.spec_window_ticks(),
            r > 0,
    {
        proof {
            use_type_invariant(self);
        }
        self.window_ticks
    }
}

impl From<FixedWindowCounterCoreConfig> for FixedWindowCounterCore {
    /// The limiter that `new` makes from the same parameters.
    fn from(config: FixedWindowCounterCoreConfig) -> (core: Self)
        ensures
            core.spec_capacity() == config.spec_capacity(),
            core.spec_window_ticks() == config.spec_window_ticks(),
    {
        FixedWindowCounterCore::new(config.capacity(), config.window_ticks())
    }
}

impl vstd::std_specs::convert::FromSpecImpl<FixedWindowCounterCoreConfig> for FixedWindowCounterCore {
    open spec fn obeys_from_spec() -> bool {
        false
    }

    open spec fn from_spec(config: FixedWindowCounterCoreConfig) -> Self {
        arbitrary()
    }
}

} // verus!
