//! Approximate sliding window: two alternating windows and a weighted sum.
//!
//! Time is cut into windows of `window_ticks` ticks. Two counters alternate:
//! the window of a tick lives in the slot `(tick / window_ticks) % 2`, and the
//! other slot still holds the window before it. Usage is measured as weight,
//! units times ticks: the current window counts in full, the other one for as
//! many ticks as it shares with the last `window_ticks` ticks. This follows a
//! true sliding window with two counters instead of a ring of buckets; it is
//! an estimate by design.

use vstd::prelude::*;
use vstd::arithmetic::div_mod::lemma_mod_bound;
use std::sync::Mutex;
use crate::arith::{align_down, align_tick, lemma_align_down, sat, saturating_mul, to_nats};
use crate::error::{
    SimpleAcquireResult, SimpleRateLimitError, SimpleRateLimitResult, VerboseAcquireResult,
    VerboseRateLimitError, VerboseRateLimitResult,
};
use crate::lock::{lock_new, lock_state, lock_try};
use crate::rate_limit::RateLimitCore;
use crate::rate_limiter_core::RateLimiterCore;
use crate::types::Uint;

verus! {

/// The other of the two slots.
pub fn other_window(index: usize) -> (other: usize)
    requires
        index <= 1,
    ensures
        other == 1 - index,
{
    1 - index
}

/// What an approximate sliding window is, as plain numbers.
pub struct ApproximateWindowModel {
    /// Units allowed per window.
    pub capacity: nat,
    /// Length of a window in ticks.
    pub window_ticks: nat,
    /// Units used in each of the two slots.
    pub windows: Seq<nat>,
    /// First tick of the window that each slot holds.
    pub window_starts: Seq<nat>,
    /// Slot of the window that covers the most recent tick.
    pub current_index: nat,
}

impl ApproximateWindowModel {
    /// A limiter as it is made: both slots empty and stamped with tick 0.
    pub open spec fn initial(capacity: nat, window_ticks: nat) -> Self {
        ApproximateWindowModel {
            capacity,
            window_ticks,
            windows: seq![0nat, 0nat],
            window_starts: seq![0nat, 0nat],
            current_index: 0,
        }
    }

    /// The parameters are positive, there are two slots, no slot holds more
    /// than the capacity, and every slot starts on a window boundary.
    pub open spec fn wf(self) -> bool {
        &&& 0 < self.capacity <= Uint::MAX
        &&& 0 < self.window_ticks <= Uint::MAX
        &&& self.windows.len() == 2
        &&& self.window_starts.len() == 2
        &&& self.current_index <= 1
        &&& self.windows[0] <= self.capacity
        &&& self.windows[1] <= self.capacity
        &&& self.window_starts[0] <= Uint::MAX
        &&& self.window_starts[1] <= Uint::MAX
        &&& self.window_starts[0] % self.window_ticks == 0
        &&& self.window_starts[1] % self.window_ticks == 0
    }

    /// A limiter as it is made is well formed.
    pub proof fn lemma_initial(capacity: nat, window_ticks: nat)
        requires
            0 < capacity <= Uint::MAX,
            0 < window_ticks <= Uint::MAX,
        ensures
            Self::initial(capacity, window_ticks).wf(),
    {
        vstd::arithmetic::div_mod::lemma_small_mod(0, window_ticks);
    }

    /// Same capacity and window length.
    pub open spec fn same_config(self, other: Self) -> bool {
        self.capacity == other.capacity && self.window_ticks == other.window_ticks
    }

    /// The slot that is not the current one.
    pub open spec fn other_index(self) -> nat {
        (1 - self.current_index) as nat
    }

    /// Units in the current window.
    pub open spec fn current_count(self) -> nat {
        self.windows[self.current_index as int]
    }

    /// Units in the other window.
    pub open spec fn other_count(self) -> nat {
        self.windows[self.other_index() as int]
    }

    /// The smallest tick that is still accepted: the later of the two window
    /// starts.
    pub open spec fn min_tick(self) -> nat {
        if self.window_starts[0] >= self.window_starts[1] {
            self.window_starts[0]
        } else {
            self.window_starts[1]
        }
    }

    /// Whether `tick` lies before the later of the two windows.
    pub open spec fn expired(self, tick: nat) -> bool {
        tick < self.min_tick()
    }

    /// The slot of the window that holds `tick`.
    pub open spec fn slot_of(self, tick: nat) -> nat {
        (tick / self.window_ticks) % 2
    }

    /// The limiter as seen at `tick`.
    ///
    /// The slot of `tick` becomes the current one. If it held another window,
    /// it is cleared and stamped with the window of `tick`; if the other slot
    /// then lags the new start by more than one window, it is cleared too and
    /// stamped with the same start.
    pub open spec fn at_tick(self, tick: nat) -> Self {
        let slot = self.slot_of(tick) as int;
        let start = align_down(tick, self.window_ticks);
        if self.window_starts[slot] == start {
            ApproximateWindowModel { current_index: slot as nat, ..self }
        } else if start > self.window_starts[1 - slot] + self.window_ticks {
            ApproximateWindowModel {
                windows: seq![0nat, 0nat],
                window_starts: seq![start, start],
                current_index: slot as nat,
                ..self
            }
        } else {
            ApproximateWindowModel {
                windows: self.windows.update(slot, 0),
                window_starts: self.window_starts.update(slot, start),
                current_index: slot as nat,
                ..self
            }
        }
    }

    /// First tick of the sliding view that ends at `tick`: the last
    /// `window_ticks` ticks, cut off at tick 0.
    pub open spec fn head_of(self, tick: nat) -> nat {
        if tick >= self.window_ticks - 1 {
            (tick - (self.window_ticks - 1)) as nat
        } else {
            0
        }
    }

    /// Last tick of the other window, clamped to the range of `Uint`.
    pub open spec fn other_end(self) -> nat {
        sat(self.window_starts[self.other_index() as int] + self.window_ticks - 1)
    }

    /// Ticks that the other window shares with the view from `head` to `end`.
    pub open spec fn overlap(self, head: nat, end: nat) -> nat {
        let other_start = self.window_starts[self.other_index() as int];
        let lo = if head >= other_start {
            head
        } else {
            other_start
        };
        let hi = if end <= self.other_end() {
            end
        } else {
            self.other_end()
        };
        if lo <= hi {
            (hi - lo + 1) as nat
        } else {
            0
        }
    }

    /// Weight of the current window: its units over a whole window.
    pub open spec fn current_weight(self) -> nat {
        sat((self.current_count() * self.window_ticks) as int)
    }

    /// Weight of the other window within the view from `head` to `end`: its
    /// units over the ticks it shares with the view.
    pub open spec fn other_weight(self, head: nat, end: nat) -> nat {
        sat((self.other_count() * self.overlap(head, end)) as int)
    }

    /// Weighted usage within the view from `head` to `end`.
    pub open spec fn weight_between(self, head: nat, end: nat) -> nat {
        sat((self.current_weight() + self.other_weight(head, end)) as int)
    }

    /// Weighted usage at `tick`.
    pub open spec fn weighted_usage(self, tick: nat) -> nat {
        self.weight_between(self.head_of(tick), tick)
    }

    /// Weight of the whole capacity.
    pub open spec fn capacity_weight(self) -> nat {
        sat((self.capacity * self.window_ticks) as int)
    }

    /// Weight that `tokens` units ask for.
    pub open spec fn required_weight(self, tokens: nat) -> nat {
        sat((self.window_ticks * tokens) as int)
    }

    /// Weight that is free within the view from `head` to `end`.
    pub open spec fn free_weight_between(self, head: nat, end: nat) -> nat {
        sat(self.capacity_weight() - self.weight_between(head, end))
    }

    /// Weight that is free at `tick`.
    pub open spec fn free_weight(self, tick: nat) -> nat {
        self.free_weight_between(self.head_of(tick), tick)
    }

    /// Units that can still be taken at `tick`: the free weight in whole
    /// units.
    pub open spec fn available_at(self, tick: nat) -> nat {
        self.free_weight(tick) / self.window_ticks
    }

    /// Whether `tokens` units fit at `tick`: they are within the capacity, and
    /// their weight on top of the weighted usage is within the weight of the
    /// capacity.
    pub open spec fn admits(self, tick: nat, tokens: nat) -> bool {
        &&& tokens <= self.capacity
        &&& self.weighted_usage(tick) + self.required_weight(tokens) <= self.capacity_weight()
    }

    /// The limiter after `tokens` more units were put into the current window.
    pub open spec fn with_used(self, tokens: nat) -> Self {
        ApproximateWindowModel {
            windows: self.windows.update(self.current_index as int, self.current_count() + tokens),
            ..self
        }
    }

    /// Estimated ticks until `tokens` units fit at `tick`: the weight that is
    /// missing, one tick for each unit of it.
    ///
    /// What is missing is first what the other window still holds within the
    /// view, which drains as the view moves on, and beyond that what the
    /// current window has to give up. A larger request is never told to wait
    /// less.
    pub open spec fn retry_after(self, tick: nat, tokens: nat) -> nat {
        sat(self.required_weight(tokens) - self.free_weight(tick))
    }

    /// What would be left with the limiter as it stands, seen from the last
    /// tick of the current window.
    pub open spec fn current_capacity(self) -> nat {
        let end = sat(self.window_starts[self.current_index as int] + self.window_ticks - 1);
        self.free_weight_between(self.head_of(end), end) / self.window_ticks
    }

    /// What would be left at `tick`, worked out on the side.
    pub open spec fn current_capacity_at(self, tick: nat) -> nat {
        self.at_tick(tick).available_at(tick)
    }

    /// Outcome and next state of the short acquisition path.
    pub open spec fn acquire(self, tick: nat, tokens: nat) -> (Self, SimpleAcquireResult) {
        if tokens == 0 {
            (self, Ok(()))
        } else if self.expired(tick) {
            (self, Err(SimpleRateLimitError::ExpiredTick))
        } else if self.at_tick(tick).admits(tick, tokens) {
            (self.at_tick(tick).with_used(tokens), Ok(()))
        } else {
            (self.at_tick(tick), Err(SimpleRateLimitError::InsufficientCapacity))
        }
    }

    /// Outcome and next state of the diagnostic acquisition path.
    pub open spec fn acquire_verbose(self, tick: nat, tokens: nat) -> (Self, VerboseAcquireResult) {
        if tokens == 0 {
            (self, Ok(()))
        } else if self.expired(tick) {
            (self, Err(VerboseRateLimitError::ExpiredTick { min_acceptable_tick: self.min_tick() as Uint }))
        } else if tokens > self.capacity {
            (
                self,
                Err(
                    VerboseRateLimitError::BeyondCapacity {
                        acquiring: tokens as Uint,
                        capacity: self.capacity as Uint,
                    },
                ),
            )
        } else if self.at_tick(tick).admits(tick, tokens) {
            (self.at_tick(tick).with_used(tokens), Ok(()))
        } else {
            (
                self.at_tick(tick),
                Err(
                    VerboseRateLimitError::InsufficientCapacity {
                        acquiring: tokens as Uint,
                        available: self.at_tick(tick).available_at(tick) as Uint,
                        retry_after_ticks: self.at_tick(tick).retry_after(tick, tokens) as Uint,
                    },
                ),
            )
        }
    }

    /// Outcome and next state of asking what is left at `tick`.
    pub open spec fn remaining(self, tick: nat) -> (Self, Result<Uint, SimpleRateLimitError>) {
        if self.expired(tick) {
            (self, Err(SimpleRateLimitError::ExpiredTick))
        } else {
            (self.at_tick(tick), Ok(self.at_tick(tick).available_at(tick) as Uint))
        }
    }

    /// Moving to a tick keeps the limiter well formed and makes the window of
    /// the tick the current one.
    pub proof fn lemma_at_tick(self, tick: nat)
        requires
            self.wf(),
            tick <= Uint::MAX,
        ensures
            self.at_tick(tick).wf(),
            self.at_tick(tick).same_config(self),
            self.at_tick(tick).current_index == self.slot_of(tick),
            self.at_tick(tick).window_starts[self.slot_of(tick) as int] == align_down(
                tick,
                self.window_ticks,
            ),
    {
        lemma_mod_bound((tick / self.window_ticks) as int, 2);
        lemma_align_down(tick, self.window_ticks);
    }

    /// A request that fits leaves the current window within the capacity, and
    /// the weighted usage within the weight of the capacity.
    pub proof fn lemma_admitted(self, tick: nat, tokens: nat)
        requires
            self.wf(),
            self.admits(tick, tokens),
        ensures
            self.current_count() + tokens <= self.capacity,
            self.with_used(tokens).wf(),
            self.with_used(tokens).same_config(self),
            self.with_used(tokens).weighted_usage(tick) <= self.capacity_weight(),
    {
        let c = self.current_count() as int;
        let t = tokens as int;
        let w = self.window_ticks as int;
        let cap = self.capacity as int;
        let head = self.head_of(tick);
        let ow = self.other_weight(head, tick) as int;
        let after = self.with_used(tokens);
        assert(after.other_count() == self.other_count());
        assert(after.overlap(head, tick) == self.overlap(head, tick));
        assert(after.other_weight(head, tick) == ow);
        assert(after.current_count() == c + t);
        assert(c * w >= 0 && t * w >= 0 && cap * w >= 0 && w * t == t * w) by (nonlinear_arith)
            requires
                c >= 0,
                t >= 0,
                w > 0,
                cap > 0,
        ;
        assert((c + t) * w == c * w + t * w) by (nonlinear_arith);
        if t == 0 {
        } else if w * t > Uint::MAX {
            // the request alone weighs as much as can be told: nothing else is in use
            assert(c == 0) by (nonlinear_arith)
                requires
                    c * w == 0,
                    w > 0,
                    c >= 0,
            ;
        } else {
            assert(t * w >= 1) by (nonlinear_arith)
                requires
                    t >= 1,
                    w >= 1,
            ;
            assert(c * w + ow + t * w <= cap * w);
            assert(c + t <= cap) by (nonlinear_arith)
                requires
                    (c + t) * w <= cap * w,
                    w > 0,
            ;
        }
    }

    /// The free weight never stands for more units than the capacity.
    pub proof fn lemma_free_units(self, head: nat, end: nat)
        requires
            self.wf(),
        ensures
            self.free_weight_between(head, end) / self.window_ticks <= self.capacity,
    {
        let w = self.window_ticks as int;
        let cap = self.capacity as int;
        let free = self.free_weight_between(head, end) as int;
        assert(cap * w >= 0) by (nonlinear_arith)
            requires
                cap >= 0,
                w >= 0,
        ;
        assert(free <= cap * w);
        assert(free / w <= cap) by (nonlinear_arith)
            requires
                0 <= free <= cap * w,
                w > 0,
        ;
    }

    /// A request within the capacity that does not fit asks for more than
    /// the units that the free weight stands for.
    pub proof fn lemma_refused(self, tick: nat, tokens: nat)
        requires
            self.wf(),
            0 < tokens <= self.capacity,
            !self.admits(tick, tokens),
        ensures
            self.available_at(tick) < tokens,
    {
        let w = self.window_ticks as int;
        let t = tokens as int;
        let free = self.free_weight(tick) as int;
        assert(w * t >= 1) by (nonlinear_arith)
            requires
                w >= 1,
                t >= 1,
        ;
        assert(free < w * t);
        assert(free / w < t) by (nonlinear_arith)
            requires
                0 <= free < w * t,
                w > 0,
        ;
    }

    /// The other window never counts for more ticks than the view is long.
    pub proof fn lemma_overlap_bound(self, head: nat, end: nat)
        requires
            head <= end,
        ensures
            self.overlap(head, end) <= end - head + 1,
    {
    }
}

/// What holds of every limiter, and of every run of requests.
impl ApproximateWindowModel {
    /// The limiter after the requests, each a tick and a number of units, went
    /// through the short path in order.
    pub open spec fn after(self, requests: Seq<(nat, nat)>) -> Self
        decreases requests.len(),
    {
        if requests.len() == 0 {
            self
        } else {
            self.after(requests.drop_last()).acquire(requests.last().0, requests.last().1).0
        }
    }

    /// The ticks of the requests never go back, and all ticks and units are
    /// within the range of `Uint`.
    pub open spec fn in_order(requests: Seq<(nat, nat)>) -> bool {
        &&& forall|i: int| 0 <= i < requests.len() ==> (#[trigger] requests[i]).0 <= Uint::MAX
        &&& forall|i: int| 0 <= i < requests.len() ==> (#[trigger] requests[i]).1 <= Uint::MAX
        &&& forall|i: int, j: int|
            0 <= i <= j < requests.len() ==> (#[trigger] requests[i]).0 <= (#[trigger] requests[j]).0
    }

    /// Every operation keeps the limiter well formed and its configuration
    /// as it was; one that is given a tick that has not expired leaves no
    /// later minimum than that tick behind.
    pub proof fn lemma_step(self, tick: nat, tokens: nat)
        requires
            self.wf(),
            tick <= Uint::MAX,
            tokens <= Uint::MAX,
        ensures
            self.acquire(tick, tokens).0.wf(),
            self.acquire(tick, tokens).0.same_config(self),
            self.acquire_verbose(tick, tokens).0.wf(),
            self.acquire_verbose(tick, tokens).0.same_config(self),
            self.remaining(tick).0.wf(),
            self.remaining(tick).0.same_config(self),
            !self.expired(tick) ==> self.acquire(tick, tokens).0.min_tick() <= tick,
            !self.expired(tick) ==> self.acquire_verbose(tick, tokens).0.min_tick() <= tick,
            !self.expired(tick) ==> self.remaining(tick).0.min_tick() <= tick,
    {
        self.lemma_at_tick(tick);
        lemma_align_down(tick, self.window_ticks);
        if self.at_tick(tick).admits(tick, tokens) {
            self.at_tick(tick).lemma_admitted(tick, tokens);
        }
    }

    /// Zero units always succeed and change nothing, whatever the tick and
    /// whatever the limiter holds.
    pub proof fn law_zero_units(self, tick: nat)
        ensures
            self.acquire(tick, 0) == (self, Ok::<(), SimpleRateLimitError>(())),
            self.acquire_verbose(tick, 0) == (self, Ok::<(), VerboseRateLimitError>(())),
    {
    }

    /// A tick below the retained minimum is refused as expired, for any
    /// request of at least one unit and for any question about what is left,
    /// and the limiter stays as it was.
    pub proof fn law_expired_tick(self, tick: nat, tokens: nat)
        requires
            tick < self.min_tick(),
            tokens > 0,
        ensures
            self.acquire(tick, tokens) == (
                self,
                Err::<(), SimpleRateLimitError>(SimpleRateLimitError::ExpiredTick),
            ),
            self.acquire_verbose(tick, tokens) == (
                self,
                Err::<(), VerboseRateLimitError>(
                    VerboseRateLimitError::ExpiredTick { min_acceptable_tick: self.min_tick() as Uint },
                ),
            ),
            self.remaining(tick) == (
                self,
                Err::<Uint, SimpleRateLimitError>(SimpleRateLimitError::ExpiredTick),
            ),
    {
    }

    /// After an operation at a tick that has not expired, no tick at or after
    /// it is expired.
    pub proof fn law_later_ticks_accepted(self, tick: nat, tokens: nat, later: nat)
        requires
            self.wf(),
            tick <= Uint::MAX,
            tokens <= Uint::MAX,
            !self.expired(tick),
            tick <= later,
        ensures
            !self.acquire(tick, tokens).0.expired(later),
            !self.acquire_verbose(tick, tokens).0.expired(later),
            !self.remaining(tick).0.expired(later),
    {
        self.lemma_step(tick, tokens);
    }

    /// A run of requests whose ticks never go back, starting at or after the
    /// retained minimum, keeps the limiter well formed and leaves the
    /// minimum at or below the last tick.
    pub proof fn lemma_run(self, requests: Seq<(nat, nat)>)
        requires
            self.wf(),
            Self::in_order(requests),
            requests.len() > 0 ==> !self.expired(requests[0].0),
        ensures
            self.after(requests).wf(),
            self.after(requests).same_config(self),
            requests.len() > 0 ==> self.after(requests).min_tick() <= requests.last().0,
        decreases requests.len(),
    {
        if requests.len() > 0 {
            let before = requests.drop_last();
            let (tick, tokens) = requests.last();
            assert(forall|i: int| 0 <= i < before.len() ==> before[i] == requests[i]);
            self.lemma_run(before);
            let s = self.after(before);
            if before.len() > 0 {
                assert(before.last() == requests[before.len() - 1]);
            }
            s.lemma_step(tick, tokens);
            if tokens == 0 {
                assert(s.acquire(tick, tokens).0 == s);
            }
        }
    }

    /// On ticks that never go back, no request is refused as expired.
    pub proof fn law_no_expiry_in_order(self, requests: Seq<(nat, nat)>, i: int)
        requires
            self.wf(),
            Self::in_order(requests),
            requests.len() > 0 ==> !self.expired(requests[0].0),
            0 <= i < requests.len(),
        ensures
            self.after(requests.take(i)).acquire(requests[i].0, requests[i].1).1 != Err::<
                (),
                SimpleRateLimitError,
            >(SimpleRateLimitError::ExpiredTick),
    {
        let before = requests.take(i);
        assert(forall|j: int| 0 <= j < before.len() ==> before[j] == requests[j]);
        self.lemma_run(before);
        if i > 0 {
            assert(before.last() == requests[i - 1]);
        }
    }

    /// Units that the requests were granted, taken through the short path in
    /// order.
    pub open spec fn granted(self, requests: Seq<(nat, nat)>) -> nat
        decreases requests.len(),
    {
        if requests.len() == 0 {
            0
        } else {
            self.granted(requests.drop_last()) + if self.after(requests.drop_last()).acquire(
                requests.last().0,
                requests.last().1,
            ).1 is Ok {
                requests.last().1
            } else {
                0
            }
        }
    }

    /// Units in the window of `tick`, as seen at `tick`.
    pub open spec fn usage(self, tick: nat) -> nat {
        self.at_tick(tick).current_count()
    }

    /// A request at a tick raises the usage seen at that tick by what it was
    /// granted, and a grant leaves that usage within the capacity.
    pub proof fn lemma_usage_step(self, tick: nat, tokens: nat)
        requires
            self.wf(),
            tick <= Uint::MAX,
            tokens <= Uint::MAX,
            !self.expired(tick),
        ensures
            self.acquire(tick, tokens).0.wf(),
            self.acquire(tick, tokens).0.same_config(self),
            !self.acquire(tick, tokens).0.expired(tick),
            self.acquire(tick, tokens).0.usage(tick) == self.usage(tick) + if self.acquire(
                tick,
                tokens,
            ).1 is Ok {
                tokens
            } else {
                0
            },
            tokens > 0 && self.acquire(tick, tokens).1 is Ok ==> self.acquire(tick, tokens).0.usage(
                tick,
            ) <= self.capacity,
    {
        self.lemma_step(tick, tokens);
        let seen = self.at_tick(tick);
        self.lemma_at_tick(tick);
        assert(seen.at_tick(tick) == seen);
        if tokens > 0 && seen.admits(tick, tokens) {
            seen.lemma_admitted(tick, tokens);
            let granted = seen.with_used(tokens);
            assert(granted.window_starts == seen.window_starts);
            assert(granted.at_tick(tick) == granted);
        }
    }

    /// What is granted at one tick adds up to no more than the capacity,
    /// however many requests there are and whatever the limiter held before:
    /// every grant shows in the usage seen at that tick.
    pub proof fn law_grants_at_one_tick(self, requests: Seq<(nat, nat)>, tick: nat)
        requires
            self.wf(),
            Self::in_order(requests),
            forall|i: int| 0 <= i < requests.len() ==> (#[trigger] requests[i]).0 == tick,
            tick <= Uint::MAX,
            !self.expired(tick),
        ensures
            self.after(requests).wf(),
            self.after(requests).same_config(self),
            !self.after(requests).expired(tick),
            self.granted(requests) + self.usage(tick) == self.after(requests).usage(tick),
            self.granted(requests) > 0 ==> self.after(requests).usage(tick) <= self.capacity,
            self.granted(requests) <= self.capacity,
        decreases requests.len(),
    {
        if requests.len() > 0 {
            let before = requests.drop_last();
            let tokens = requests.last().1;
            assert(forall|i: int| 0 <= i < before.len() ==> before[i] == requests[i]);
            assert(requests.last() == requests[requests.len() - 1]);
            self.law_grants_at_one_tick(before, tick);
            self.after(before).lemma_usage_step(tick, tokens);
        }
    }

    /// The short path and the diagnostic path decide alike: they grant the
    /// same requests and leave the same limiter behind a grant, and they
    /// refuse for the same reason, except that the short path reports a
    /// request above the capacity as one that does not fit.
    pub proof fn law_paths_agree(self, tick: nat, tokens: nat)
        requires
            self.wf(),
            tick <= Uint::MAX,
            tokens <= Uint::MAX,
        ensures
            self.acquire(tick, tokens).1 is Ok <==> self.acquire_verbose(tick, tokens).1 is Ok,
            self.acquire(tick, tokens).1 is Ok ==> self.acquire(tick, tokens).0 == self.acquire_verbose(
                tick,
                tokens,
            ).0,
            self.acquire_verbose(tick, tokens).1 matches Err(e) ==> self.acquire(tick, tokens).1 == Err::<
                (),
                SimpleRateLimitError,
            >(
                if e is BeyondCapacity {
                    SimpleRateLimitError::InsufficientCapacity
                } else {
                    e.simplified()
                },
            ),
    {
        self.lemma_step(tick, tokens);

    }

    /// What is reported as left at a tick can be taken at that tick.
    pub proof fn law_reported_is_grantable(self, tick: nat)
        requires
            self.wf(),
            tick <= Uint::MAX,
            !self.expired(tick),
        ensures
            self.remaining(tick).1 matches Ok(left) && (left == 0 || self.remaining(tick).0.acquire(
                tick,
                left as nat,
            ).1 is Ok),
    {
        self.lemma_step(tick, 0);
        let seen = self.at_tick(tick);
        self.lemma_at_tick(tick);
        assert(seen.at_tick(tick) == seen);
        seen.lemma_free_units(seen.head_of(tick), tick);
        let w = self.window_ticks as int;
        let free = seen.free_weight(tick) as int;
        let left = seen.available_at(tick) as int;
        vstd::arithmetic::div_mod::lemma_fundamental_div_mod(free, w);
        assert(w * left <= free) by {
            vstd::arithmetic::div_mod::lemma_mod_bound(free, w);
        }
    }

    /// After a grant, the weighted usage at the tick of the grant is within
    /// the weight of the capacity, and so is each window within the capacity.
    pub proof fn law_capacity(self, tick: nat, tokens: nat)
        requires
            self.wf(),
            tick <= Uint::MAX,
            0 < tokens <= Uint::MAX,
            self.acquire(tick, tokens).1 is Ok,
        ensures
            tokens <= self.capacity,
            self.acquire(tick, tokens).0.weighted_usage(tick) <= self.capacity_weight(),
            self.acquire(tick, tokens).0.current_count() == self.at_tick(tick).current_count() + tokens,
            self.acquire(tick, tokens).0.current_count() <= self.capacity,
            self.acquire_verbose(tick, tokens).1 is Ok,
            self.acquire_verbose(tick, tokens).0 == self.acquire(tick, tokens).0,
    {
        self.lemma_at_tick(tick);
        self.at_tick(tick).lemma_admitted(tick, tokens);
    }

    /// The other window counts for no more ticks than a window is long, and
    /// for none once the view has left it behind.
    pub proof fn law_overlap(self, tick: nat)
        requires
            self.wf(),
            tick <= Uint::MAX,
        ensures
            self.overlap(self.head_of(tick), tick) <= self.window_ticks,
            self.head_of(tick) > self.other_end() ==> self.other_weight(self.head_of(tick), tick) == 0,
    {
        self.lemma_overlap_bound(self.head_of(tick), tick);
        assert(self.other_count() * 0 == 0);
    }

    /// A larger request is never told to wait less: for one limiter and one
    /// tick, the estimate grows with the units asked for.
    pub proof fn law_retry_grows_with_request(self, tick: nat, fewer: nat, more: nat)
        requires
            fewer <= more,
        ensures
            self.retry_after(tick, fewer) <= self.retry_after(tick, more),
    {
        assert(self.window_ticks * fewer <= self.window_ticks * more) by (nonlinear_arith)
            requires
                fewer <= more,
                self.window_ticks >= 0,
        ;
    }

    /// Of two requests that the diagnostic path refuses for want of room, on
    /// one limiter at one tick, the larger is told to wait at least as long,
    /// and both are told the same available units.
    pub proof fn law_refusals_grow_with_request(self, tick: nat, fewer: nat, more: nat)
        requires
            fewer <= more <= Uint::MAX,
        ensures
            self.acquire_verbose(tick, fewer).1 matches Err(
                VerboseRateLimitError::InsufficientCapacity {
                    retry_after_ticks: short,
                    available: little,
                    ..
                },
            ) ==> (self.acquire_verbose(tick, more).1 matches Err(
                VerboseRateLimitError::InsufficientCapacity {
                    retry_after_ticks: long,
                    available: much,
                    ..
                },
            ) ==> short <= long && little == much),
    {
        self.at_tick(tick).law_retry_grows_with_request(tick, fewer, more);
    }

    /// A request within the capacity that is refused is told to wait at least
    /// one tick.
    pub proof fn law_retry_is_a_wait(self, tick: nat, tokens: nat)
        requires
            self.wf(),
            0 < tokens <= self.capacity,
            !self.admits(tick, tokens),
        ensures
            self.retry_after(tick, tokens) >= 1,
    {
        assert(self.window_ticks * tokens >= 1) by (nonlinear_arith)
            requires
                self.window_ticks >= 1,
                tokens >= 1,
        ;
    }
}

/// An approximate sliding window: its configuration and its two windows, as
/// one value that a lock can guard.
pub struct ApproximateSlidingWindowCoreState {
    capacity: Uint,
    window_ticks: Uint,
    windows: [Uint; 2],
    window_starts: [Uint; 2],
    current_index: usize,
}

impl View for ApproximateSlidingWindowCoreState {
    type V = ApproximateWindowModel;

    closed spec fn view(&self) -> ApproximateWindowModel {
        ApproximateWindowModel {
            capacity: self.capacity as nat,
            window_ticks: self.window_ticks as nat,
            windows: to_nats(self.windows@),
            window_starts: to_nats(self.window_starts@),
            current_index: self.current_index as nat,
        }
    }
}

impl ApproximateSlidingWindowCoreState {
    #[verifier::type_invariant]
    spec fn inv(self) -> bool {
        self@.wf()
    }

    /// A fresh limiter: both slots empty and stamped with tick 0.
    pub fn new(capacity: Uint, window_ticks: Uint) -> (s: Self)
        requires
            capacity > 0,
            window_ticks > 0,
        ensures
            s@ == ApproximateWindowModel::initial(capacity as nat, window_ticks as nat),
            s@.wf(),
    {
        let windows: [Uint; 2] = [0, 0];
        let window_starts: [Uint; 2] = [0, 0];
        proof {
            let m = ApproximateWindowModel::initial(capacity as nat, window_ticks as nat);
            assert(to_nats(windows@) =~= m.windows);
            assert(to_nats(window_starts@) =~= m.window_starts);
            vstd::arithmetic::div_mod::lemma_small_mod(0, window_ticks as nat);
        }
        ApproximateSlidingWindowCoreState {
            capacity,
            window_ticks,
            windows,
            window_starts,
            current_index: 0,
        }
    }

    /// Binds the limiter to the given parameters: a limiter that has them
    /// already stays as it is, any other starts afresh under them.
    pub fn bind(&mut self, capacity: Uint, window_ticks: Uint)
        requires
            capacity > 0,
            window_ticks > 0,
        ensures
            final(self)@.wf(),
            final(self)@.same_config(Self::fresh(capacity, window_ticks)),
            final(self)@ == if old(self)@.same_config(Self::fresh(capacity, window_ticks)) {
                old(self)@
            } else {
                Self::fresh(capacity, window_ticks)
            },
    {
        proof {
            use_type_invariant(&*self);
        }
        if self.capacity != capacity
            || self.window_ticks != window_ticks
        {
            *self = Self::new(capacity, window_ticks);
        }
    }

    /// The model of a limiter as it is made with the given parameters.
    pub open spec fn fresh(capacity: Uint, window_ticks: Uint) -> ApproximateWindowModel {
        ApproximateWindowModel::initial(
                capacity as nat,
                window_ticks as nat,
        )
    }

    /// Units allowed per window.
    pub fn capacity(&self) -> (r: Uint)
        ensures
            r == self@.capacity,
    {
        self.capacity
    }

    /// Moves the limiter to `tick`.
    pub fn state_transition_by_tick(&mut self, tick: Uint)
        ensures
            final(self)@ == old(self)@.at_tick(tick as nat),
            final(self)@.wf(),
    {
        proof {
            use_type_invariant(&*self);
            self@.lemma_at_tick(tick as nat);
            lemma_mod_bound((tick as int) / (self.window_ticks as int), 2);
        }
        let ghost before = self@;
        let expected_index = ((tick / self.window_ticks) % 2) as usize;
        let expected_start = align_tick(tick, self.window_ticks);
        if self.window_starts[expected_index] != expected_start {
            let other = other_window(expected_index);
            if expected_start > self.window_starts[other].saturating_add(self.window_ticks) {
                self.windows = [0, 0];
                self.window_starts = [expected_start, expected_start];
            } else if expected_index == 0 {
                self.windows = [0, self.windows[1]];
                self.window_starts = [expected_start, self.window_starts[1]];
            } else {
                self.windows = [self.windows[0], 0];
                self.window_starts = [self.window_starts[0], expected_start];
            }
        }
        self.current_index = expected_index;
        proof {
            assert(self@.windows =~= before.at_tick(tick as nat).windows);
            assert(self@.window_starts =~= before.at_tick(tick as nat).window_starts);
        }
    }

    /// The later of the two window starts.
    fn max_window_start(&self) -> (r: Uint)
        ensures
            r == self@.min_tick(),
    {
        if self.window_starts[0] >= self.window_starts[1] {
            self.window_starts[0]
        } else {
            self.window_starts[1]
        }
    }

    /// First tick of the sliding view that ends at `tick`.
    fn head_of(&self, tick: Uint) -> (head: Uint)
        ensures
            head == self@.head_of(tick as nat),
            head <= tick,
            tick - head < self@.window_ticks,
    {
        proof {
            use_type_invariant(self);
        }
        tick.saturating_sub(self.window_ticks - 1)
    }

    /// Weighted usage within the view from `sw_head` to `sw_end`: the current
    /// window in full, the other one for the ticks it shares with the view.
    fn calculate_weighted_contribution(&self, sw_head: Uint, sw_end: Uint) -> (total: Uint)
        requires
            sw_head <= sw_end,
            sw_end - sw_head < self@.window_ticks,
        ensures
            total == self@.weight_between(sw_head as nat, sw_end as nat),
    {
        proof {
            use_type_invariant(self);
        }
        let other = other_window(self.current_index);
        let current_contribution = saturating_mul(self.windows[self.current_index], self.window_ticks);
        let other_start = self.window_starts[other];
        let other_end = other_start.saturating_add(self.window_ticks - 1);
        assert(other_end == self@.other_end());
        if sw_head > other_end {
            proof {
                assert(self@.overlap(sw_head as nat, sw_end as nat) == 0);
                assert(self@.other_count() * 0 == 0);
            }
            current_contribution
        } else {
            let overlap_start = if sw_head >= other_start {
                sw_head
            } else {
                other_start
            };
            let overlap_end = if sw_end <= other_end {
                sw_end
            } else {
                other_end
            };
            let overlap = if overlap_start <= overlap_end {
                overlap_end - overlap_start + 1
            } else {
                0
            };
            assert(overlap == self@.overlap(sw_head as nat, sw_end as nat));
            let other_contribution = saturating_mul(self.windows[other], overlap);
            current_contribution.saturating_add(other_contribution)
        }
    }

    /// Whether `tokens` units fit on top of the weighted usage `total`.
    fn fits(&self, tick: Uint, tokens: Uint, total: Uint) -> (ok: bool)
        requires
            total == self@.weighted_usage(tick as nat),
        ensures
            ok == self@.admits(tick as nat, tokens as nat),
    {
        proof {
            use_type_invariant(self);
        }
        let required = saturating_mul(self.window_ticks, tokens);
        let capacity_contribution = saturating_mul(self.capacity, self.window_ticks);
        proof {
            let w = self.window_ticks as int;
            let t = tokens as int;
            let cap = self.capacity as int;
            if t <= cap {
                assert(w * t <= cap * w) by (nonlinear_arith)
                    requires
                        t <= cap,
                        w > 0,
                ;
            }
        }
        tokens <= self.capacity && total <= capacity_contribution.saturating_sub(required)
    }

    /// Puts `tokens` units that fit into the current window.
    fn grant(&mut self, tick: Uint, tokens: Uint)
        requires
            old(self)@.admits(tick as nat, tokens as nat),
        ensures
            final(self)@ == old(self)@.with_used(tokens as nat),
            final(self)@.wf(),
            final(self)@.weighted_usage(tick as nat) <= final(self)@.capacity_weight(),
    {
        proof {
            use_type_invariant(&*self);
            self@.lemma_admitted(tick as nat, tokens as nat);
        }
        let ghost before = self@;
        let filled = self.windows[self.current_index] + tokens;
        if self.current_index == 0 {
            self.windows = [filled, self.windows[1]];
        } else {
            self.windows = [self.windows[0], filled];
        }
        proof {
            assert(self@.windows =~= before.with_used(tokens as nat).windows);
        }
    }

    /// Units that the free weight stands for at `tick`, given the weighted
    /// usage `total`.
    fn available(&self, tick: Uint, total: Uint) -> (r: Uint)
        requires
            total == self@.weighted_usage(tick as nat),
        ensures
            r == self@.available_at(tick as nat),
            r <= self@.capacity,
    {
        proof {
            use_type_invariant(self);
            self@.lemma_free_units(self@.head_of(tick as nat), tick as nat);
        }
        let capacity_contribution = saturating_mul(self.capacity, self.window_ticks);
        capacity_contribution.saturating_sub(total) / self.window_ticks
    }

    /// Takes `tokens` units at `tick`, on the short path.
    ///
    /// After a grant, the weighted usage at `tick` is within the weight of the
    /// capacity.
    pub fn try_acquire_at(&mut self, tick: Uint, tokens: Uint) -> (r: SimpleAcquireResult)
        ensures
            (final(self)@, r) == old(self)@.acquire(tick as nat, tokens as nat),
            final(self)@.wf(),
            tokens == 0 ==> r is Ok && final(self)@ == old(self)@,
            tokens > 0 && r is Ok ==> final(self)@.weighted_usage(tick as nat)
                <= final(self)@.capacity_weight(),
    {
        proof {
            use_type_invariant(&*self);
        }
        if tokens == 0 {
            return Ok(());
        }
        if tick < self.max_window_start() {
            return Err(SimpleRateLimitError::ExpiredTick);
        }
        self.state_transition_by_tick(tick);
        let sw_head = self.head_of(tick);
        let total = self.calculate_weighted_contribution(sw_head, tick);
        if self.fits(tick, tokens, total) {
            self.grant(tick, tokens);
            Ok(())
        } else {
            Err(SimpleRateLimitError::InsufficientCapacity)
        }
    }

    /// Estimated ticks until `tokens` units fit at `tick`, given the weighted
    /// usage `total`.
    fn retry_after(&self, tick: Uint, tokens: Uint, total: Uint) -> (r: Uint)
        requires
            total == self@.weighted_usage(tick as nat),
        ensures
            r == self@.retry_after(tick as nat, tokens as nat),
    {
        let required = saturating_mul(self.window_ticks, tokens);
        let capacity_contribution = saturating_mul(self.capacity, self.window_ticks);
        let available_contribution = capacity_contribution.saturating_sub(total);
        required.saturating_sub(available_contribution)
    }

    /// Takes `tokens` units at `tick`, and says why not when it cannot.
    ///
    /// After a grant, the weighted usage at `tick` is within the weight of the
    /// capacity. A refusal for want of room tells fewer available units than
    /// were asked for and a wait of at least one tick; on one limiter at one
    /// tick, that wait grows with the request.
    pub fn try_acquire_verbose_at(&mut self, tick: Uint, tokens: Uint) -> (r: VerboseAcquireResult)
        ensures
            (final(self)@, r) == old(self)@.acquire_verbose(tick as nat, tokens as nat),
            final(self)@.wf(),
            tokens == 0 ==> r is Ok && final(self)@ == old(self)@,
            tokens > 0 && r is Ok ==> final(self)@.weighted_usage(tick as nat)
                <= final(self)@.capacity_weight(),
            r matches Err(VerboseRateLimitError::InsufficientCapacity { available, .. }) ==> available
                < tokens,
            r matches Err(VerboseRateLimitError::InsufficientCapacity { retry_after_ticks, .. })
                ==> retry_after_ticks >= 1,
    {
        proof {
            use_type_invariant(&*self);
        }
        if tokens == 0 {
            return Ok(());
        }
        let max_window_start = self.max_window_start();
        if tick < max_window_start {
            return Err(VerboseRateLimitError::ExpiredTick { min_acceptable_tick: max_window_start });
        }
        if tokens > self.capacity {
            return Err(
                VerboseRateLimitError::BeyondCapacity { acquiring: tokens, capacity: self.capacity },
            );
        }
        self.state_transition_by_tick(tick);
        let sw_head = self.head_of(tick);
        let total = self.calculate_weighted_contribution(sw_head, tick);
        if self.fits(tick, tokens, total) {
            self.grant(tick, tokens);
            Ok(())
        } else {
            proof {
                use_type_invariant(&*self);
                self@.lemma_refused(tick as nat, tokens as nat);
                self@.law_retry_is_a_wait(tick as nat, tokens as nat);
            }
            let available = self.available(tick, total);
            let retry_after_ticks = self.retry_after(tick, tokens, total);
            Err(
                VerboseRateLimitError::InsufficientCapacity {
                    acquiring: tokens,
                    available,
                    retry_after_ticks,
                },
            )
        }
    }

    /// Units left at `tick`, after moving the limiter to `tick`.
    pub fn capacity_remaining(&mut self, tick: Uint) -> (r: Result<Uint, SimpleRateLimitError>)
        ensures
            (final(self)@, r) == old(self)@.remaining(tick as nat),
            final(self)@.wf(),
            r matches Ok(left) ==> left <= old(self)@.capacity,
    {
        proof {
            use_type_invariant(&*self);
        }
        if tick < self.max_window_start() {
            return Err(SimpleRateLimitError::ExpiredTick);
        }
        self.state_transition_by_tick(tick);
        let sw_head = self.head_of(tick);
        let total = self.calculate_weighted_contribution(sw_head, tick);
        Ok(self.available(tick, total))
    }

    /// What would be left at `tick`: the limiter is moved to `tick` on a copy,
    /// and stays as it is.
    pub fn current_capacity_at(&self, tick: Uint) -> (r: Uint)
        ensures
            r == self@.current_capacity_at(tick as nat),
            r <= self@.capacity,
    {
        proof {
            use_type_invariant(self);
        }
        let mut seen = ApproximateSlidingWindowCoreState {
            capacity: self.capacity,
            window_ticks: self.window_ticks,
            windows: self.windows,
            window_starts: self.window_starts,
            current_index: self.current_index,
        };
        assert(seen@ == self@);
        seen.state_transition_by_tick(tick);
        let sw_head = seen.head_of(tick);
        let total = seen.calculate_weighted_contribution(sw_head, tick);
        seen.available(tick, total)
    }

    /// What would be left with the limiter as it stands, seen from the last
    /// tick of the current window.
    pub fn current_capacity(&self) -> (r: Uint)
        ensures
            r == self@.current_capacity(),
            r <= self@.capacity,
    {
        proof {
            use_type_invariant(self);
        }
        let reference_tick = self.window_starts[self.current_index].saturating_add(
            self.window_ticks - 1,
        );
        let sw_head = self.head_of(reference_tick);
        let total = self.calculate_weighted_contribution(sw_head, reference_tick);
        proof {
            self@.lemma_free_units(sw_head as nat, reference_tick as nat);
        }
        let capacity_contribution = saturating_mul(self.capacity, self.window_ticks);
        capacity_contribution.saturating_sub(total) / self.window_ticks
    }
}

/// An approximate sliding window shared between threads.
///
/// The limiter sits behind a lock that is tried once per call and never
/// awaited: a call that finds the lock taken fails with `ContentionFailure`.
/// A call that gets the lock performs its whole read-decide-update step on
/// the limiter before it lets go.
///
/// The parameters stand beside the lock, where they can be read at any time;
/// the limiter behind the lock is bound to them before every step.
pub struct ApproximateSlidingWindowCore {
    capacity: Uint,
    window_ticks: Uint,
    state: Mutex<ApproximateSlidingWindowCoreState>,
}

impl ApproximateSlidingWindowCore {
    #[verifier::type_invariant]
    spec fn inv(self) -> bool {
        self.capacity > 0 && self.window_ticks > 0
    }

    /// Units allowed per window.
    pub closed spec fn spec_capacity(&self) -> Uint {
        self.capacity
    }

    /// Length of a window in ticks.
    pub closed spec fn spec_window_ticks(&self) -> Uint {
        self.window_ticks
    }

    /// Units allowed per window.
    #[verifier::when_used_as_spec(spec_capacity)]
    pub fn capacity(&self) -> (r: Uint)
        ensures
            r == self.spec_capacity(),
            r > 0,
    {
        proof {
            use_type_invariant(self);
        }
        self.capacity
    }

    /// Length of a window in ticks.
    #[verifier::when_used_as_spec(spec_window_ticks)]
    pub fn window_ticks(&self) -> (r: Uint)
        ensures
            r == self.spec_window_ticks(),
            r > 0,
    {
        proof {
            use_type_invariant(self);
        }
        self.window_ticks
    }

    /// `s` is a well formed limiter with the parameters of this limiter.
    pub open spec fn governs(&self, s: ApproximateWindowModel) -> bool {
        &&& s.wf()
        &&& s.capacity == self.spec_capacity()
        &&& s.window_ticks == self.spec_window_ticks()
    }

    /// The limiter governs a limiter as it is made with its parameters: there
    /// is always a limiter that it governs.
    proof fn lemma_governs_fresh(&self)
        requires
            self.inv(),
        ensures
            self.governs(
                ApproximateWindowModel::initial(
                    self.capacity as nat,
                    self.window_ticks as nat,
                ),
            ),
    {
        ApproximateWindowModel::lemma_initial(
            self.capacity as nat,
            self.window_ticks as nat,
        );
    }

    /// `r` is a contention failure, or what the short path answers on some
    /// limiter that this limiter governs.
    pub open spec fn may_acquire(&self, tick: Uint, tokens: Uint, r: SimpleAcquireResult) -> bool {
        ||| tokens != 0 && r == Err::<(), SimpleRateLimitError>(
            SimpleRateLimitError::ContentionFailure,
        )
        ||| exists|s: ApproximateWindowModel| #[trigger]
            self.governs(s) && s.acquire(tick as nat, tokens as nat).1 == r
    }

    /// `r` is a contention failure, or what the diagnostic path answers on
    /// some limiter that this limiter governs.
    pub open spec fn may_acquire_verbose(
        &self,
        tick: Uint,
        tokens: Uint,
        r: VerboseAcquireResult,
    ) -> bool {
        ||| tokens != 0 && r == Err::<(), VerboseRateLimitError>(
            VerboseRateLimitError::ContentionFailure,
        )
        ||| exists|s: ApproximateWindowModel| #[trigger]
            self.governs(s) && s.acquire_verbose(tick as nat, tokens as nat).1 == r
    }

    /// `r` is a contention failure, or what `capacity_remaining` answers at
    /// `tick` on some limiter that this limiter governs.
    pub open spec fn may_remain(&self, tick: Uint, r: Result<Uint, SimpleRateLimitError>) -> bool {
        ||| r == Err::<Uint, SimpleRateLimitError>(SimpleRateLimitError::ContentionFailure)
        ||| exists|s: ApproximateWindowModel| #[trigger] self.governs(s) && s.remaining(tick as nat).1 == r
    }

    /// `r` is a contention failure, or what `current_capacity` reads from some
    /// limiter that this limiter governs.
    pub open spec fn may_hold(&self, r: Result<Uint, SimpleRateLimitError>) -> bool {
        ||| r == Err::<Uint, SimpleRateLimitError>(SimpleRateLimitError::ContentionFailure)
        ||| exists|s: ApproximateWindowModel| #[trigger]
            self.governs(s) && r == Ok::<Uint, SimpleRateLimitError>(s.current_capacity() as Uint)
    }

    /// `r` is a contention failure, or what `current_capacity_at` reads at
    /// `tick` from some limiter that this limiter governs.
    pub open spec fn may_hold_at(&self, tick: Uint, r: Result<Uint, SimpleRateLimitError>) -> bool {
        ||| r == Err::<Uint, SimpleRateLimitError>(SimpleRateLimitError::ContentionFailure)
        ||| exists|s: ApproximateWindowModel| #[trigger]
            self.governs(s) && r == Ok::<Uint, SimpleRateLimitError>(
                s.current_capacity_at(tick as nat) as Uint,
            )
    }

    /// A limiter of about `capacity` units per `window_ticks` ticks, with
    /// nothing used.
    pub fn new(capacity: Uint, window_ticks: Uint) -> (core: Self)
        requires
            capacity > 0,
            window_ticks > 0,
        ensures
            core.spec_capacity() == capacity,
            core.spec_window_ticks() == window_ticks,
    {
        let state = ApproximateSlidingWindowCoreState::new(capacity, window_ticks);
        ApproximateSlidingWindowCore { capacity, window_ticks, state: lock_new(state) }
    }

    /// Tries to take `tokens` units at `tick`.
    ///
    /// Zero units always succeed and touch nothing. A request above the
    /// capacity is refused as `InsufficientCapacity`, like any other that does
    /// not fit.
    pub fn try_acquire_at(&self, tick: Uint, tokens: Uint) -> (r: SimpleAcquireResult)
        ensures
            tokens == 0 ==> r is Ok,
            tokens > self.spec_capacity() ==> r is Err,
            r != Err::<(), SimpleRateLimitError>(SimpleRateLimitError::BeyondCapacity),
            self.may_acquire(tick, tokens, r),
    {
        if tokens == 0 {
            proof {
                use_type_invariant(self);
                self.lemma_governs_fresh();
            }
            return Ok(());
        }
        let mut guard = match lock_try(&self.state) {
            Some(guard) => guard,
            None => {
                return Err(SimpleRateLimitError::ContentionFailure);
            },
        };
        proof {
            use_type_invariant(self);
        }
        let state = lock_state(&mut guard);
        state.bind(self.capacity, self.window_ticks);
        assert(self.governs(state@));
        state.try_acquire_at(tick, tokens)
    }

    /// Like `try_acquire_at`, and reports the figures behind a refusal: what
    /// was asked, what was available, and an estimate of the ticks to wait. A
    /// request above the capacity is refused as `BeyondCapacity`.
    pub fn try_acquire_verbose_at(&self, tick: Uint, tokens: Uint) -> (r: VerboseAcquireResult)
        ensures
            tokens == 0 ==> r is Ok,
            tokens > self.spec_capacity() ==> r is Err,
            r matches Err(VerboseRateLimitError::BeyondCapacity { acquiring, capacity }) ==> acquiring
                == tokens && capacity == self.spec_capacity() && tokens > capacity,
            r matches Err(VerboseRateLimitError::InsufficientCapacity { acquiring, available, .. })
                ==> acquiring == tokens && available < tokens <= self.spec_capacity(),
            self.may_acquire_verbose(tick, tokens, r),
    {
        if tokens == 0 {
            proof {
                use_type_invariant(self);
                self.lemma_governs_fresh();
            }
            return Ok(());
        }
        let mut guard = match lock_try(&self.state) {
            Some(guard) => guard,
            None => {
                return Err(VerboseRateLimitError::ContentionFailure);
            },
        };
        proof {
            use_type_invariant(self);
        }
        let state = lock_state(&mut guard);
        state.bind(self.capacity, self.window_ticks);
        assert(self.governs(state@));
        state.try_acquire_verbose_at(tick, tokens)
    }

    /// Units left at `tick`; moves the limiter to the window of `tick`.
    pub fn capacity_remaining(&self, tick: Uint) -> (r: Result<Uint, SimpleRateLimitError>)
        ensures
            r matches Err(e) ==> e == SimpleRateLimitError::ExpiredTick || e
                == SimpleRateLimitError::ContentionFailure,
            r matches Ok(left) ==> left <= self.spec_capacity(),
            self.may_remain(tick, r),
    {
        let mut guard = match lock_try(&self.state) {
            Some(guard) => guard,
            None => {
                return Err(SimpleRateLimitError::ContentionFailure);
            },
        };
        proof {
            use_type_invariant(self);
        }
        let state = lock_state(&mut guard);
        state.bind(self.capacity, self.window_ticks);
        assert(self.governs(state@));
        state.capacity_remaining(tick)
    }

    /// Units left at `tick`, or 0 when that cannot be told.
    pub fn capacity_remaining_or_0(&self, tick: Uint) -> (r: Uint)
        ensures
            r <= self.spec_capacity(),
            r == 0 || self.may_remain(tick, Ok(r)),
    {
        match self.capacity_remaining(tick) {
            Ok(left) => left,
            Err(_) => 0,
        }
    }

    /// What would be left with the limiter as it stands, seen from the last
    /// tick of the current window.
    pub fn current_capacity(&self) -> (r: Result<Uint, SimpleRateLimitError>)
        ensures
            r matches Err(e) ==> e == SimpleRateLimitError::ContentionFailure,
            r matches Ok(left) ==> left <= self.spec_capacity(),
            self.may_hold(r),
    {
        let mut guard = match lock_try(&self.state) {
            Some(guard) => guard,
            None => {
                return Err(SimpleRateLimitError::ContentionFailure);
            },
        };
        proof {
            use_type_invariant(self);
        }
        let state = lock_state(&mut guard);
        state.bind(self.capacity, self.window_ticks);
        assert(self.governs(state@));
        Ok(state.current_capacity())
    }

    /// What `current_capacity` reads, or 0 when the limiter is busy.
    pub fn current_capacity_or_0(&self) -> (r: Uint)
        ensures
            r <= self.spec_capacity(),
            r == 0 || self.may_hold(Ok(r)),
    {
        match self.current_capacity() {
            Ok(left) => left,
            Err(_) => 0,
        }
    }

    /// What would be left at `tick`, worked out without changing the limiter.
    /// No tick is refused as expired here.
    pub fn current_capacity_at(&self, tick: Uint) -> (r: Result<Uint, SimpleRateLimitError>)
        ensures
            r matches Err(e) ==> e == SimpleRateLimitError::ContentionFailure,
            r matches Ok(left) ==> left <= self.spec_capacity(),
            self.may_hold_at(tick, r),
    {
        let mut guard = match lock_try(&self.state) {
            Some(guard) => guard,
            None => {
                return Err(SimpleRateLimitError::ContentionFailure);
            },
        };
        proof {
            use_type_invariant(self);
        }
        let state = lock_state(&mut guard);
        state.bind(self.capacity, self.window_ticks);
        assert(self.governs(state@));
        Ok(state.current_capacity_at(tick))
    }
}

impl RateLimitCore for ApproximateSlidingWindowCore {
    open spec fn limit(&self) -> Uint {
        self.spec_capacity()
    }

    /// Takes the short path of [`ApproximateSlidingWindowCore::try_acquire_at`]: the answer is a
    /// contention failure, or what that path gives on some limiter that this
    /// limiter governs.
    fn try_acquire_at(&self, tick: Uint, tokens: Uint) -> (r: SimpleRateLimitResult)
        ensures
            self.may_acquire(tick, tokens, r),
    {
        self.try_acquire_at(tick, tokens)
    }

    /// Takes the diagnostic path of [`ApproximateSlidingWindowCore::try_acquire_verbose_at`]: the
    /// answer is a contention failure, or what that path gives on some limiter
    /// that this limiter governs.
    fn try_acquire_verbose_at(&self, tick: Uint, tokens: Uint) -> (r: VerboseRateLimitResult)
        ensures
            self.may_acquire_verbose(tick, tokens, r),
    {
        self.try_acquire_verbose_at(tick, tokens)
    }

    /// What [`ApproximateSlidingWindowCore::capacity_remaining`] reports at
    /// `tick`.
    fn capacity_remaining(&self, tick: Uint) -> (r: Result<Uint, SimpleRateLimitError>)
        ensures
            self.may_remain(tick, r),
    {
        self.capacity_remaining(tick)
    }

    /// What [`ApproximateSlidingWindowCore::capacity_remaining`] reports at
    /// `tick`, with every failure counted as 0.
    fn capacity_remaining_or_0(&self, tick: Uint) -> (r: Uint)
        ensures
            r == 0 || self.may_remain(tick, Ok(r)),
    {
        let outcome = <Self as RateLimitCore>::capacity_remaining(self, tick);
        match outcome {
            Ok(left) => left,
            Err(_) => 0,
        }
    }
}

impl RateLimiterCore for ApproximateSlidingWindowCore {
    open spec fn limit(&self) -> Uint {
        self.spec_capacity()
    }

    open spec fn may_report(&self, tick: Uint, left: Uint) -> bool {
        self.may_remain(tick, Ok(left))
    }

    /// Takes the short path of [`ApproximateSlidingWindowCore::try_acquire_at`]: the answer is a
    /// contention failure, or what that path gives on some limiter that this
    /// limiter governs.
    fn try_acquire_at(&self, tick: Uint, tokens: Uint) -> (r: SimpleAcquireResult)
        ensures
            self.may_acquire(tick, tokens, r),
    {
        self.try_acquire_at(tick, tokens)
    }

    /// What [`ApproximateSlidingWindowCore::capacity_remaining`] reports at
    /// `tick`, or 0 when that cannot be told.
    fn capacity_remaining(&self, tick: Uint) -> (r: Uint) {
        self.capacity_remaining_or_0(tick)
    }
}

/// Parameters of a [`ApproximateSlidingWindowCore`]. They are checked when the value is made, so
/// that turning it into a limiter cannot fail.
#[derive(Debug, Clone, Copy)]
pub struct ApproximateSlidingWindowCoreConfig {
    capacity: Uint,
    window_ticks: Uint,
}

impl ApproximateSlidingWindowCoreConfig {
    #[verifier::type_invariant]
    spec fn inv(self) -> bool {
        self.capacity > 0 && self.window_ticks > 0
    }

    /// Units allowed per window.
    pub closed spec fn spec_capacity(&self) -> Uint {
        self.capacity
    }

    /// Length of a window in ticks.
    pub closed spec fn spec_window_ticks(&self) -> Uint {
        self.window_ticks
    }

    /// The parameters that `ApproximateSlidingWindowCore::new` takes, under the same conditions.
    pub fn new(capacity: Uint, window_ticks: Uint) -> (config: Self)
        requires
            capacity > 0,
            window_ticks > 0,
        ensures
            config.spec_capacity() == capacity,
            config.spec_window_ticks() == window_ticks,
    {
        ApproximateSlidingWindowCoreConfig { capacity, window_ticks }
    }

    /// Units allowed per window.
    #[verifier::when_used_as_spec(spec_capacity)]
    pub fn capacity(&self) -> (r: Uint)
        ensures
            r == self.spec_capacity(),
            r > 0,
    {
        proof {
            use_type_invariant(self);
        }
        self.capacity
    }

    /// Length of a window in ticks.
    #[verifier::when_used_as_spec(spec_window_ticks)]
    pub fn window_ticks(&self) -> (r: Uint)
        ensures
            r == self.spec_window_ticks(),
            r > 0,
    {
        proof {
            use_type_invariant(self);
        }
        self.window_ticks
    }
}

impl From<ApproximateSlidingWindowCoreConfig> for ApproximateSlidingWindowCore {
    /// The limiter that `new` makes from the same parameters.
    fn from(config: ApproximateSlidingWindowCoreConfig) -> (core: Self)
        ensures
            core.spec_capacity() == config.spec_capacity(),
            core.spec_window_ticks() == config.spec_window_ticks(),
    {
        ApproximateSlidingWindowCore::new(config.capacity(), config.window_ticks())
    }
}

impl vstd::std_specs::convert::FromSpecImpl<ApproximateSlidingWindowCoreConfig> for ApproximateSlidingWindowCore {
    open spec fn obeys_from_spec() -> bool {
        false
    }

    open spec fn from_spec(config: ApproximateSlidingWindowCoreConfig) -> Self {
        arbitrary()
    }
}

} // verus!
