//! Sliding window counter: a ring of buckets that together cover the last
//! window.
//!
//! Time is cut into buckets of `bucket_ticks` ticks; `bucket_count` of them
//! make one window. A bucket lives in the slot `(tick / bucket_ticks) %
//! bucket_count`, so the ring is reused window after window. A slot is cleared
//! lazily, the first time it is touched after its stored start no longer
//! matches the bucket of the tick. A request is admitted while the buckets
//! whose start lies within the last window, ending at the tick, stay within
//! the capacity.

use vstd::prelude::*;
use std::sync::Mutex;
use crate::arith::{align_down, align_tick, lemma_align_down, sat, saturating_mul, to_nats};
use crate::error::{
    SimpleAcquireResult, SimpleRateLimitError, SimpleRateLimitResult, VerboseAcquireResult,
    VerboseRateLimitError, VerboseRateLimitResult,
};
use crate::lock::{lock_new, lock_state, lock_try};
use crate::rate_limit::RateLimitCore;
use crate::rate_limiter_core::RateLimiterCore;
use crate::types::Uint;

verus! {

/// What a sliding window counter is, as plain numbers.
pub struct SlidingWindowModel {
    /// Units allowed per window.
    pub capacity: nat,
    /// Length of a bucket in ticks.
    pub bucket_ticks: nat,
    /// Number of buckets in a window.
    pub bucket_count: nat,
    /// Units used, slot by slot.
    pub buckets: Seq<nat>,
    /// First tick of the bucket that each slot holds.
    pub bucket_starts: Seq<nat>,
    /// Slot of the bucket that was processed last.
    pub last_index: nat,
}

impl SlidingWindowModel {
    /// A counter as it is made: every slot empty and stamped with tick 0.
    pub open spec fn initial(capacity: nat, bucket_ticks: nat, bucket_count: nat) -> Self {
        SlidingWindowModel {
            capacity,
            bucket_ticks,
            bucket_count,
            buckets: Seq::new(bucket_count, |i: int| 0nat),
            bucket_starts: Seq::new(bucket_count, |i: int| 0nat),
            last_index: 0,
        }
    }

    /// Slot `i` is empty and stamped with tick 0, or it holds a bucket of its
    /// own: one that starts on a bucket boundary and that the ring puts into
    /// this slot.
    pub open spec fn slot_in_order(self, i: int) -> bool {
        ||| self.buckets[i] == 0 && self.bucket_starts[i] == 0
        ||| self.bucket_starts[i] % self.bucket_ticks == 0 && (self.bucket_starts[i]
            / self.bucket_ticks) % self.bucket_count == i
    }

    /// The parameters are positive, there is one count and one start per
    /// slot, each within the range of `Uint`, and every slot is in order.
    pub open spec fn wf(self) -> bool {
        &&& 0 < self.capacity <= Uint::MAX
        &&& 0 < self.bucket_ticks <= Uint::MAX
        &&& 0 < self.bucket_count <= Uint::MAX
        &&& self.bucket_count <= usize::MAX
        &&& self.buckets.len() == self.bucket_count
        &&& self.bucket_starts.len() == self.bucket_count
        &&& self.last_index < self.bucket_count
        &&& forall|i: int| 0 <= i < self.bucket_count ==> #[trigger] self.buckets[i] <= Uint::MAX
        &&& forall|i: int| 0 <= i < self.bucket_count ==> #[trigger] self.bucket_starts[i] <= Uint::MAX
        &&& forall|i: int| 0 <= i < self.bucket_count ==> #[trigger] self.slot_in_order(i)
    }

    /// A counter as it is made is well formed.
    pub proof fn lemma_initial(capacity: nat, bucket_ticks: nat, bucket_count: nat)
        requires
            0 < capacity <= Uint::MAX,
            0 < bucket_ticks <= Uint::MAX,
            0 < bucket_count <= Uint::MAX,
            bucket_count <= usize::MAX,
        ensures
            Self::initial(capacity, bucket_ticks, bucket_count).wf(),
    {

    }

    /// Same capacity and bucket layout.
    pub open spec fn same_config(self, other: Self) -> bool {
        &&& self.capacity == other.capacity
        &&& self.bucket_ticks == other.bucket_ticks
        &&& self.bucket_count == other.bucket_count
    }

    /// Length of the window in ticks, clamped to the range of `Uint`.
    pub open spec fn window_ticks(self) -> nat {
        sat((self.bucket_ticks * self.bucket_count) as int)
    }

    /// The smallest tick that is still accepted: the start of the bucket that
    /// was processed last.
    pub open spec fn min_tick(self) -> nat {
        self.bucket_starts[self.last_index as int]
    }

    /// Whether `tick` lies before the bucket that was processed last.
    pub open spec fn expired(self, tick: nat) -> bool {
        tick < self.min_tick()
    }

    /// The slot of the bucket that holds `tick`.
    pub open spec fn slot_of(self, tick: nat) -> nat {
        (tick / self.bucket_ticks) % self.bucket_count
    }

    /// First tick of the window that ends at `tick`: the last `window_ticks`
    /// ticks, cut off at tick 0.
    pub open spec fn window_head(self, tick: nat) -> nat {
        if tick >= self.window_ticks() - 1 {
            (tick - (self.window_ticks() - 1)) as nat
        } else {
            0
        }
    }

    /// Whether a bucket that starts at `start` counts at `tick`: its start
    /// lies among the last `window_ticks` ticks, `tick` included.
    pub open spec fn in_window(self, start: nat, tick: nat) -> bool {
        self.window_head(tick) <= start <= tick
    }

    /// What slot `i` adds to the units of the buckets that start between
    /// `from` and `tick`.
    pub open spec fn counted_between(self, i: int, from: nat, tick: nat) -> nat {
        if from <= self.bucket_starts[i] <= tick {
            self.buckets[i]
        } else {
            0
        }
    }

    /// Units over the first `n` slots of the buckets that start between `from`
    /// and `tick`.
    pub open spec fn used_between(self, from: nat, tick: nat, n: nat) -> nat
        decreases n,
    {
        if n == 0 {
            0
        } else {
            self.used_between(from, tick, (n - 1) as nat) + self.counted_between(n - 1, from, tick)
        }
    }

    /// What slot `i` adds to the usage at `tick`.
    pub open spec fn counted(self, i: int, tick: nat) -> nat {
        self.counted_between(i, self.window_head(tick), tick)
    }

    /// Usage at `tick` over the first `n` slots.
    pub open spec fn used_upto(self, tick: nat, n: nat) -> nat {
        self.used_between(self.window_head(tick), tick, n)
    }

    /// Usage at `tick`: the sum of every bucket whose start lies in the
    /// window that ends at `tick`.
    pub open spec fn used_at(self, tick: nat) -> nat {
        self.used_upto(tick, self.bucket_count)
    }

    /// Units that can still be taken at `tick`.
    pub open spec fn available_at(self, tick: nat) -> nat {
        if self.used_at(tick) >= self.capacity {
            0
        } else {
            (self.capacity - self.used_at(tick)) as nat
        }
    }

    /// Sum of the first `n` slots, whatever their starts.
    pub open spec fn total_upto(self, n: nat) -> nat
        decreases n,
    {
        if n == 0 {
            0
        } else {
            self.total_upto((n - 1) as nat) + self.buckets[n - 1]
        }
    }

    /// What the capacity leaves above the sum of all slots, stale ones
    /// included.
    pub open spec fn current_capacity(self) -> nat {
        if self.total_upto(self.bucket_count) >= self.capacity {
            0
        } else {
            (self.capacity - self.total_upto(self.bucket_count)) as nat
        }
    }

    /// What would be left at `tick` with the slots as they stand.
    ///
    /// No slot is cleared for this, so the count reaches one tick further back
    /// than the window of a request: it takes in the bucket that started a
    /// whole window before `tick`, which a request at `tick` would clear.
    pub open spec fn current_capacity_at(self, tick: nat) -> nat {
        let from = sat(tick - self.window_ticks());
        sat(self.capacity - self.used_between(from, tick, self.bucket_count))
    }

    /// The counter after the slot of `tick` was touched: cleared and stamped
    /// with the bucket of `tick` if it held another bucket, unchanged
    /// otherwise.
    pub open spec fn touched(self, tick: nat) -> Self {
        let slot = self.slot_of(tick) as int;
        let start = align_down(tick, self.bucket_ticks);
        if self.bucket_starts[slot] != start {
            SlidingWindowModel {
                buckets: self.buckets.update(slot, 0),
                bucket_starts: self.bucket_starts.update(slot, start),
                ..self
            }
        } else {
            self
        }
    }

    /// The counter with `slot` noted as processed last.
    pub open spec fn with_last(self, slot: nat) -> Self {
        SlidingWindowModel { last_index: slot, ..self }
    }

    /// The counter after `tokens` more units were put into `slot`.
    pub open spec fn with_used(self, slot: nat, tokens: nat) -> Self {
        SlidingWindowModel {
            buckets: self.buckets.update(slot as int, self.buckets[slot as int] + tokens),
            ..self
        }
    }

    /// The retry estimate, from slot `i` on: buckets in the window are
    /// released one by one in slot order, `released` units and `seen` buckets
    /// so far; the estimate is one bucket length for each bucket released
    /// until `tokens` units fit, and the whole window if they never do.
    pub open spec fn retry_scan(self, tick: nat, tokens: nat, i: nat, released: nat, seen: nat) -> nat
        decreases self.bucket_count - i,
    {
        if i >= self.bucket_count {
            self.window_ticks()
        } else if !self.in_window(self.bucket_starts[i as int], tick) {
            self.retry_scan(tick, tokens, i + 1, released, seen)
        } else if self.available_at(tick) + released + self.buckets[i as int] >= tokens {
            sat(((seen + 1) * self.bucket_ticks) as int)
        } else {
            self.retry_scan(tick, tokens, i + 1, released + self.buckets[i as int], seen + 1)
        }
    }

    /// Estimated ticks until `tokens` units fit at `tick`.
    pub open spec fn retry_after(self, tick: nat, tokens: nat) -> nat {
        self.retry_scan(tick, tokens, 0, 0, 0)
    }

    /// Outcome and next state of the short acquisition path.
    pub open spec fn acquire(self, tick: nat, tokens: nat) -> (Self, SimpleAcquireResult) {
        if tokens == 0 {
            (self, Ok(()))
        } else if self.expired(tick) {
            (self, Err(SimpleRateLimitError::ExpiredTick))
        } else if self.touched(tick).used_at(tick) + tokens <= self.capacity {
            (
                self.touched(tick).with_used(self.slot_of(tick), tokens).with_last(self.slot_of(tick)),
                Ok(()),
            )
        } else {
            (self.touched(tick), Err(SimpleRateLimitError::InsufficientCapacity))
        }
    }

    /// Outcome and next state of the diagnostic acquisition path.
    pub open spec fn acquire_verbose(self, tick: nat, tokens: nat) -> (Self, VerboseAcquireResult) {
        let seen = self.touched(tick).with_last(self.slot_of(tick));
        if tokens == 0 {
            (self, Ok(()))
        } else if self.expired(tick) {
            (self, Err(VerboseRateLimitError::ExpiredTick { min_acceptable_tick: self.min_tick() as Uint }))
        } else if tokens > self.capacity {
            (
                self,
                Err(
                    VerboseRateLimitError::BeyondCapacity {
                        acquiring: tokens as Uint,
                        capacity: self.capacity as Uint,
                    },
                ),
            )
        } else if seen.used_at(tick) + tokens <= self.capacity {
            (seen.with_used(self.slot_of(tick), tokens), Ok(()))
        } else {
            (
                seen,
                Err(
                    VerboseRateLimitError::InsufficientCapacity {
                        acquiring: tokens as Uint,
                        available: seen.available_at(tick) as Uint,
                        retry_after_ticks: seen.retry_after(tick, tokens) as Uint,
                    },
                ),
            )
        }
    }

    /// Outcome and next state of asking what is left at `tick`.
    pub open spec fn remaining(self, tick: nat) -> (Self, Result<Uint, SimpleRateLimitError>) {
        let seen = self.touched(tick).with_last(self.slot_of(tick));
        if self.expired(tick) {
            (self, Err(SimpleRateLimitError::ExpiredTick))
        } else {
            (seen, Ok(seen.available_at(tick) as Uint))
        }
    }

    /// The slot of a tick is one of the slots.
    pub proof fn lemma_slot_of(self, tick: nat)
        requires
            self.wf(),
        ensures
            self.slot_of(tick) < self.bucket_count,
    {
        vstd::arithmetic::div_mod::lemma_mod_bound((tick / self.bucket_ticks) as int, self.bucket_count as int);
    }

    /// The window is at least one bucket long.
    pub proof fn lemma_window_covers_bucket(self)
        requires
            self.wf(),
        ensures
            self.bucket_ticks <= self.window_ticks() <= Uint::MAX,
    {
        assert(self.bucket_ticks * self.bucket_count >= self.bucket_ticks) by (nonlinear_arith)
            requires
                self.bucket_count >= 1,
                self.bucket_ticks >= 0,
        ;
    }

    /// Touching a slot keeps the counter well formed, and leaves the bucket of
    /// the tick in the window.
    pub proof fn lemma_touched(self, tick: nat)
        requires
            self.wf(),
            tick <= Uint::MAX,
        ensures
            self.touched(tick).wf(),
            self.touched(tick).same_config(self),
            self.touched(tick).last_index == self.last_index,
            self.touched(tick).bucket_starts[self.slot_of(tick) as int] == align_down(tick, self.bucket_ticks),
            self.touched(tick).in_window(align_down(tick, self.bucket_ticks), tick),
    {
        self.lemma_slot_of(tick);
        self.lemma_window_covers_bucket();
        lemma_align_down(tick, self.bucket_ticks);
        let touched = self.touched(tick);
        assert forall|i: int| 0 <= i < self.bucket_count implies #[trigger] touched.slot_in_order(i) by {
            assert(self.slot_in_order(i));
        }
    }

    /// A slot in order that holds an earlier bucket than that of the tick
    /// holds one from a whole ring or more before.
    pub proof fn lemma_stale_is_a_ring_behind(self, tick: nat)
        requires
            self.wf(),
            tick <= Uint::MAX,
            self.bucket_starts[self.slot_of(tick) as int] < align_down(tick, self.bucket_ticks),
            !(self.buckets[self.slot_of(tick) as int] == 0 && self.bucket_starts[self.slot_of(
                tick,
            ) as int] == 0),
        ensures
            self.bucket_starts[self.slot_of(tick) as int] + self.bucket_ticks * self.bucket_count
                <= align_down(tick, self.bucket_ticks),
    {
        self.lemma_slot_of(tick);
        let slot = self.slot_of(tick) as int;
        let start = self.bucket_starts[slot] as int;
        let bt = self.bucket_ticks as int;
        let n = self.bucket_count as int;
        assert(self.slot_in_order(slot));
        let a = start / bt;
        let b = (tick as int) / bt;
        vstd::arithmetic::div_mod::lemma_fundamental_div_mod(start, bt);
        assert(start == a * bt) by (nonlinear_arith)
            requires
                start == bt * a + 0,
        ;
        assert(align_down(tick, self.bucket_ticks) == b * bt);
        assert(a < b) by (nonlinear_arith)
            requires
                a * bt < b * bt,
                bt > 0,
        ;
        vstd::arithmetic::div_mod::lemma_fundamental_div_mod(a, n);
        vstd::arithmetic::div_mod::lemma_fundamental_div_mod(b, n);
        assert(b - a >= n) by (nonlinear_arith)
            requires
                a == n * (a / n) + a % n,
                b == n * (b / n) + b % n,
                a % n == b % n,
                a < b,
                n > 0,
        ;
        assert(a * bt <= (b - n) * bt) by (nonlinear_arith)
            requires
                a <= b - n,
                bt > 0,
        ;
        assert((b - n) * bt == b * bt - n * bt) by (nonlinear_arith);
        assert(bt * n == n * bt) by (nonlinear_arith);
    }

    /// A slot that holds another bucket than that of the tick adds nothing to
    /// the usage at the tick: its bucket is empty, or it started a whole ring
    /// or more before the bucket of the tick, or it starts after the tick.
    pub proof fn lemma_stale_is_out_of_window(self, tick: nat)
        requires
            self.wf(),
            tick <= Uint::MAX,
            self.bucket_starts[self.slot_of(tick) as int] != align_down(tick, self.bucket_ticks),
        ensures
            self.counted(self.slot_of(tick) as int, tick) == 0,
    {
        self.lemma_slot_of(tick);
        let slot = self.slot_of(tick) as int;
        let start = self.bucket_starts[slot];
        lemma_align_down(tick, self.bucket_ticks);
        assert(self.slot_in_order(slot));
        if !(self.buckets[slot] == 0 && start == 0) {
            if start < align_down(tick, self.bucket_ticks) {
                self.lemma_stale_is_a_ring_behind(tick);
                assert(start < self.window_head(tick));
            } else {
                // a later bucket boundary lies after the tick
                let bt = self.bucket_ticks as int;
                let a = (start as int) / bt;
                let b = (tick as int) / bt;
                vstd::arithmetic::div_mod::lemma_fundamental_div_mod(start as int, bt);
                vstd::arithmetic::div_mod::lemma_fundamental_div_mod(tick as int, bt);
                vstd::arithmetic::div_mod::lemma_mod_bound(tick as int, bt);
                assert(start == a * bt) by (nonlinear_arith)
                    requires
                        start == bt * a + 0,
                ;
                assert(a > b) by (nonlinear_arith)
                    requires
                        a * bt > b * bt,
                        bt > 0,
                ;
                assert(a * bt >= (b + 1) * bt) by (nonlinear_arith)
                    requires
                        a >= b + 1,
                        bt > 0,
                ;
                assert((b + 1) * bt == b * bt + bt) by (nonlinear_arith);
                assert(start > tick);
            }
        }
    }

    /// Empty slots count nothing.
    pub proof fn lemma_used_between_of_empty(self, from: nat, tick: nat, n: nat)
        requires
            n <= self.buckets.len(),
            forall|i: int| 0 <= i < n ==> #[trigger] self.buckets[i] == 0,
        ensures
            self.used_between(from, tick, n) == 0,
        decreases n,
    {
        if n > 0 {
            self.lemma_used_between_of_empty(from, tick, (n - 1) as nat);
        }
    }

    /// Counters whose slots add the same to the units between `from` and
    /// `tick` count the same units there.
    pub proof fn lemma_used_between_same_counts(self, other: Self, from: nat, tick: nat, n: nat)
        requires
            forall|i: int|
                0 <= i < n ==> #[trigger] self.counted_between(i, from, tick) == other.counted_between(
                    i,
                    from,
                    tick,
                ),
        ensures
            self.used_between(from, tick, n) == other.used_between(from, tick, n),
        decreases n,
    {
        if n > 0 {
            self.lemma_used_between_same_counts(other, from, tick, (n - 1) as nat);
        }
    }

    /// Clearing the count of a slot keeps the counter well formed.
    pub proof fn lemma_cleared(self, slot: nat)
        requires
            self.wf(),
            slot < self.bucket_count,
        ensures
            (SlidingWindowModel { buckets: self.buckets.update(slot as int, 0), ..self }).wf(),
    {
        let cleared = SlidingWindowModel { buckets: self.buckets.update(slot as int, 0), ..self };
        assert forall|i: int| 0 <= i < self.bucket_count implies #[trigger] cleared.slot_in_order(i) by {
            assert(self.slot_in_order(i));
        }
    }

    /// Noting another slot as processed last keeps the counter well formed.
    pub proof fn lemma_with_last(self, slot: nat)
        requires
            self.wf(),
            slot < self.bucket_count,
        ensures
            self.with_last(slot).wf(),
    {
        let noted = self.with_last(slot);
        assert forall|i: int| 0 <= i < self.bucket_count implies #[trigger] noted.slot_in_order(i) by {
            assert(self.slot_in_order(i));
        }
    }

    /// Putting units into the slot of a tick, once that slot holds the bucket
    /// of the tick, keeps the counter well formed.
    pub proof fn lemma_with_used(self, tick: nat, tokens: nat)
        requires
            self.wf(),
            self.bucket_starts[self.slot_of(tick) as int] == align_down(tick, self.bucket_ticks),
            self.buckets[self.slot_of(tick) as int] + tokens <= Uint::MAX,
        ensures
            self.with_used(self.slot_of(tick), tokens).wf(),
    {
        self.lemma_slot_of(tick);
        lemma_align_down(tick, self.bucket_ticks);
        let filled = self.with_used(self.slot_of(tick), tokens);
        assert forall|i: int| 0 <= i < self.bucket_count implies #[trigger] filled.slot_in_order(i) by {
            assert(self.slot_in_order(i));
        }
    }

    /// Usage over some slots is bounded by the number of slots times the
    /// capacity, and by the usage over more slots.
    pub proof fn lemma_used_between_monotonic(self, from: nat, tick: nat, m: nat, n: nat)
        requires
            m <= n,
        ensures
            self.used_between(from, tick, m) <= self.used_between(from, tick, n),
        decreases n,
    {
        if m < n {
            self.lemma_used_between_monotonic(from, tick, m, (n - 1) as nat);
        }
    }

    /// A bucket in the window is part of the usage.
    pub proof fn lemma_counted_in_used(self, tick: nat, slot: nat)
        requires
            slot < self.bucket_count,
        ensures
            self.counted(slot as int, tick) <= self.used_at(tick),
    {
        self.lemma_used_between_monotonic(self.window_head(tick), tick, slot + 1, self.bucket_count);
    }

    /// Usage looks only at counts and starts.
    pub proof fn lemma_used_between_same(self, other: Self, from: nat, tick: nat, n: nat)
        requires
            n <= self.buckets.len(),
            n <= self.bucket_starts.len(),
            self.buckets == other.buckets,
            self.bucket_starts == other.bucket_starts,
        ensures
            self.used_between(from, tick, n) == other.used_between(from, tick, n),
        decreases n,
    {
        if n > 0 {
            self.lemma_used_between_same(other, from, tick, (n - 1) as nat);
        }
    }

    /// Usage at a tick looks only at counts, starts and the length of the
    /// window.
    pub proof fn lemma_used_upto_same(self, other: Self, tick: nat, n: nat)
        requires
            n <= self.buckets.len(),
            n <= self.bucket_starts.len(),
            self.buckets == other.buckets,
            self.bucket_starts == other.bucket_starts,
            self.bucket_ticks == other.bucket_ticks,
            self.bucket_count == other.bucket_count,
        ensures
            self.used_upto(tick, n) == other.used_upto(tick, n),
    {
        self.lemma_used_between_same(other, self.window_head(tick), tick, n);
    }

    /// Putting units into a slot raises the usage over the first `n` slots by
    /// those units when the slot is among them and in the window, and leaves
    /// it as it was otherwise.
    pub proof fn lemma_used_between_with_used(
        self,
        from: nat,
        tick: nat,
        slot: nat,
        tokens: nat,
        n: nat,
    )
        requires
            slot < self.buckets.len(),
            n <= self.buckets.len(),
            n <= self.bucket_starts.len(),
        ensures
            self.with_used(slot, tokens).used_between(from, tick, n) == self.used_between(from, tick, n)
                + if slot < n && from <= self.bucket_starts[slot as int] <= tick {
                tokens
            } else {
                0
            },
        decreases n,
    {
        if n > 0 {
            self.lemma_used_between_with_used(from, tick, slot, tokens, (n - 1) as nat);
        }
    }

    /// Putting units into a slot raises the usage at a tick over the first `n`
    /// slots by those units when the slot is among them and in the window,
    /// and leaves it as it was otherwise.
    pub proof fn lemma_used_upto_with_used(self, tick: nat, slot: nat, tokens: nat, n: nat)
        requires
            slot < self.buckets.len(),
            n <= self.buckets.len(),
            n <= self.bucket_starts.len(),
        ensures
            self.with_used(slot, tokens).used_upto(tick, n) == self.used_upto(tick, n) + if slot < n
                && self.in_window(self.bucket_starts[slot as int], tick) {
                tokens
            } else {
                0
            },
    {
        self.lemma_used_between_with_used(self.window_head(tick), tick, slot, tokens, n);
    }
}

/// What holds of every counter, and of every run of requests.
impl SlidingWindowModel {
    /// The counter after the requests, each a tick and a number of units, went
    /// through the short path in order.
    pub open spec fn after(self, requests: Seq<(nat, nat)>) -> Self
        decreases requests.len(),
    {
        if requests.len() == 0 {
            self
        } else {
            self.after(requests.drop_last()).acquire(requests.last().0, requests.last().1).0
        }
    }

    /// The ticks of the requests never go back, and all ticks and units are
    /// within the range of `Uint`.
    pub open spec fn in_order(requests: Seq<(nat, nat)>) -> bool {
        &&& forall|i: int| 0 <= i < requests.len() ==> (#[trigger] requests[i]).0 <= Uint::MAX
        &&& forall|i: int| 0 <= i < requests.len() ==> (#[trigger] requests[i]).1 <= Uint::MAX
        &&& forall|i: int, j: int|
            0 <= i <= j < requests.len() ==> (#[trigger] requests[i]).0 <= (#[trigger] requests[j]).0
    }

    /// Every operation keeps the counter well formed and its configuration
    /// as it was; one that is given a tick that has not expired leaves no
    /// later minimum than that tick behind.
    pub proof fn lemma_step(self, tick: nat, tokens: nat)
        requires
            self.wf(),
            tick <= Uint::MAX,
            tokens <= Uint::MAX,
        ensures
            self.acquire(tick, tokens).0.wf(),
            self.acquire(tick, tokens).0.same_config(self),
            self.acquire_verbose(tick, tokens).0.wf(),
            self.acquire_verbose(tick, tokens).0.same_config(self),
            self.remaining(tick).0.wf(),
            self.remaining(tick).0.same_config(self),
            !self.expired(tick) ==> self.acquire(tick, tokens).0.min_tick() <= tick,
            !self.expired(tick) ==> self.acquire_verbose(tick, tokens).0.min_tick() <= tick,
            !self.expired(tick) ==> self.remaining(tick).0.min_tick() <= tick,
    {
        if !self.expired(tick) {
            let slot = self.slot_of(tick);
            let touched = self.touched(tick);
            let seen = touched.with_last(slot);
            self.lemma_slot_of(tick);
            self.lemma_touched(tick);
            lemma_align_down(tick, self.bucket_ticks);
            touched.lemma_counted_in_used(tick, slot);
            touched.lemma_used_upto_same(seen, tick, touched.bucket_count);
            seen.lemma_counted_in_used(tick, slot);
            touched.lemma_with_last(slot);
            if touched.used_at(tick) + tokens <= self.capacity {
                touched.lemma_with_used(tick, tokens);
                touched.with_used(slot, tokens).lemma_with_last(slot);
                seen.lemma_with_used(tick, tokens);
            }
        }
    }

    /// Zero units always succeed and change nothing, whatever the tick and
    /// whatever the counter holds.
    pub proof fn law_zero_units(self, tick: nat)
        ensures
            self.acquire(tick, 0) == (self, Ok::<(), SimpleRateLimitError>(())),
            self.acquire_verbose(tick, 0) == (self, Ok::<(), VerboseRateLimitError>(())),
    {
    }

    /// A tick below the retained minimum is refused as expired, for any
    /// request of at least one unit and for any question about what is left,
    /// and the counter stays as it was.
    pub proof fn law_expired_tick(self, tick: nat, tokens: nat)
        requires
            tick < self.min_tick(),
            tokens > 0,
        ensures
            self.acquire(tick, tokens) == (
                self,
                Err::<(), SimpleRateLimitError>(SimpleRateLimitError::ExpiredTick),
            ),
            self.acquire_verbose(tick, tokens) == (
                self,
                Err::<(), VerboseRateLimitError>(
                    VerboseRateLimitError::ExpiredTick { min_acceptable_tick: self.min_tick() as Uint },
                ),
            ),
            self.remaining(tick) == (
                self,
                Err::<Uint, SimpleRateLimitError>(SimpleRateLimitError::ExpiredTick),
            ),
    {
    }

    /// After an operation at a tick that has not expired, no tick at or after
    /// it is expired.
    pub proof fn law_later_ticks_accepted(self, tick: nat, tokens: nat, later: nat)
        requires
            self.wf(),
            tick <= Uint::MAX,
            tokens <= Uint::MAX,
            !self.expired(tick),
            tick <= later,
        ensures
            !self.acquire(tick, tokens).0.expired(later),
            !self.acquire_verbose(tick, tokens).0.expired(later),
            !self.remaining(tick).0.expired(later),
    {
        self.lemma_step(tick, tokens);
    }

    /// A run of requests whose ticks never go back, starting at or after the
    /// retained minimum, keeps the counter well formed and leaves the
    /// minimum at or below the last tick.
    pub proof fn lemma_run(self, requests: Seq<(nat, nat)>)
        requires
            self.wf(),
            Self::in_order(requests),
            requests.len() > 0 ==> !self.expired(requests[0].0),
        ensures
            self.after(requests).wf(),
            self.after(requests).same_config(self),
            requests.len() > 0 ==> self.after(requests).min_tick() <= requests.last().0,
        decreases requests.len(),
    {
        if requests.len() > 0 {
            let before = requests.drop_last();
            let (tick, tokens) = requests.last();
            assert(forall|i: int| 0 <= i < before.len() ==> before[i] == requests[i]);
            self.lemma_run(before);
            let s = self.after(before);
            if before.len() > 0 {
                assert(before.last() == requests[before.len() - 1]);
            }
            s.lemma_step(tick, tokens);
            if tokens == 0 {
                assert(s.acquire(tick, tokens).0 == s);
            }
        }
    }

    /// On ticks that never go back, no request is refused as expired.
    pub proof fn law_no_expiry_in_order(self, requests: Seq<(nat, nat)>, i: int)
        requires
            self.wf(),
            Self::in_order(requests),
            requests.len() > 0 ==> !self.expired(requests[0].0),
            0 <= i < requests.len(),
        ensures
            self.after(requests.take(i)).acquire(requests[i].0, requests[i].1).1 != Err::<
                (),
                SimpleRateLimitError,
            >(SimpleRateLimitError::ExpiredTick),
    {
        let before = requests.take(i);
        assert(forall|j: int| 0 <= j < before.len() ==> before[j] == requests[j]);
        self.lemma_run(before);
        if i > 0 {
            assert(before.last() == requests[i - 1]);
        }
    }

    /// Units that the requests were granted, taken through the short path in
    /// order.
    pub open spec fn granted(self, requests: Seq<(nat, nat)>) -> nat
        decreases requests.len(),
    {
        if requests.len() == 0 {
            0
        } else {
            self.granted(requests.drop_last()) + if self.after(requests.drop_last()).acquire(
                requests.last().0,
                requests.last().1,
            ).1 is Ok {
                requests.last().1
            } else {
                0
            }
        }
    }

    /// Usage at `tick`, once the slot of `tick` has been touched.
    pub open spec fn usage(self, tick: nat) -> nat {
        self.touched(tick).used_at(tick)
    }

    /// A request at a tick raises the usage seen at that tick by what it was
    /// granted, and a grant leaves that usage within the capacity.
    pub proof fn lemma_usage_step(self, tick: nat, tokens: nat)
        requires
            self.wf(),
            tick <= Uint::MAX,
            tokens <= Uint::MAX,
            !self.expired(tick),
        ensures
            self.acquire(tick, tokens).0.wf(),
            self.acquire(tick, tokens).0.same_config(self),
            !self.acquire(tick, tokens).0.expired(tick),
            self.acquire(tick, tokens).0.usage(tick) == self.usage(tick) + if self.acquire(
                tick,
                tokens,
            ).1 is Ok {
                tokens
            } else {
                0
            },
            tokens > 0 && self.acquire(tick, tokens).1 is Ok ==> self.acquire(tick, tokens).0.usage(
                tick,
            ) <= self.capacity,
    {
        self.lemma_step(tick, tokens);
        let slot = self.slot_of(tick);
        let seen = self.touched(tick);
        self.lemma_slot_of(tick);
        self.lemma_touched(tick);
        assert(seen.touched(tick) == seen);
        if tokens > 0 && seen.used_at(tick) + tokens <= self.capacity {
            let granted = seen.with_used(slot, tokens);
            seen.lemma_used_upto_with_used(tick, slot, tokens, seen.bucket_count);
            granted.lemma_used_upto_same(granted.with_last(slot), tick, seen.bucket_count);
            assert(granted.with_last(slot).touched(tick) == granted.with_last(slot));
        }
    }

    /// What is granted at one tick adds up to no more than the capacity,
    /// however many requests there are and whatever the counter held before:
    /// every grant shows in the usage seen at that tick.
    pub proof fn law_grants_at_one_tick(self, requests: Seq<(nat, nat)>, tick: nat)
        requires
            self.wf(),
            Self::in_order(requests),
            forall|i: int| 0 <= i < requests.len() ==> (#[trigger] requests[i]).0 == tick,
            tick <= Uint::MAX,
            !self.expired(tick),
        ensures
            self.after(requests).wf(),
            self.after(requests).same_config(self),
            !self.after(requests).expired(tick),
            self.granted(requests) + self.usage(tick) == self.after(requests).usage(tick),
            self.granted(requests) > 0 ==> self.after(requests).usage(tick) <= self.capacity,
            self.granted(requests) <= self.capacity,
        decreases requests.len(),
    {
        if requests.len() > 0 {
            let before = requests.drop_last();
            let tokens = requests.last().1;
            assert(forall|i: int| 0 <= i < before.len() ==> before[i] == requests[i]);
            assert(requests.last() == requests[requests.len() - 1]);
            self.law_grants_at_one_tick(before, tick);
            self.after(before).lemma_usage_step(tick, tokens);
        }
    }

    /// The short path and the diagnostic path decide alike: they grant the
    /// same requests and leave the same counter behind a grant, and they
    /// refuse for the same reason, except that the short path reports a
    /// request above the capacity as one that does not fit.
    pub proof fn law_paths_agree(self, tick: nat, tokens: nat)
        requires
            self.wf(),
            tick <= Uint::MAX,
            tokens <= Uint::MAX,
        ensures
            self.acquire(tick, tokens).1 is Ok <==> self.acquire_verbose(tick, tokens).1 is Ok,
            self.acquire(tick, tokens).1 is Ok ==> self.acquire(tick, tokens).0 == self.acquire_verbose(
                tick,
                tokens,
            ).0,
            self.acquire_verbose(tick, tokens).1 matches Err(e) ==> self.acquire(tick, tokens).1 == Err::<
                (),
                SimpleRateLimitError,
            >(
                if e is BeyondCapacity {
                    SimpleRateLimitError::InsufficientCapacity
                } else {
                    e.simplified()
                },
            ),
    {
        self.lemma_step(tick, tokens);
        if !self.expired(tick) {
            let touched = self.touched(tick);
            self.lemma_slot_of(tick);
            self.lemma_touched(tick);
            touched.lemma_used_upto_same(touched.with_last(self.slot_of(tick)), tick, touched.bucket_count);
        }
    }

    /// What is reported as left at a tick can be taken at that tick.
    pub proof fn law_reported_is_grantable(self, tick: nat)
        requires
            self.wf(),
            tick <= Uint::MAX,
            !self.expired(tick),
        ensures
            self.remaining(tick).1 matches Ok(left) && (left == 0 || self.remaining(tick).0.acquire(
                tick,
                left as nat,
            ).1 is Ok),
    {
        self.lemma_step(tick, 0);
        let touched = self.touched(tick);
        let seen = touched.with_last(self.slot_of(tick));
        self.lemma_slot_of(tick);
        self.lemma_touched(tick);
        touched.lemma_used_upto_same(seen, tick, touched.bucket_count);
        assert(seen.touched(tick) == seen);
    }

    /// After a grant, the usage counted at the tick of the grant is within the
    /// capacity, and it is what was counted before plus what was granted.
    pub proof fn law_capacity(self, tick: nat, tokens: nat)
        requires
            self.wf(),
            tick <= Uint::MAX,
            0 < tokens <= Uint::MAX,
            self.acquire(tick, tokens).1 is Ok,
        ensures
            tokens <= self.capacity,
            self.acquire(tick, tokens).0.used_at(tick) == self.touched(tick).used_at(tick) + tokens,
            self.acquire(tick, tokens).0.used_at(tick) <= self.capacity,
            self.acquire_verbose(tick, tokens).1 is Ok,
            self.acquire_verbose(tick, tokens).0 == self.acquire(tick, tokens).0,
    {
        let slot = self.slot_of(tick);
        let touched = self.touched(tick);
        let seen = touched.with_last(slot);
        self.lemma_slot_of(tick);
        self.lemma_touched(tick);
        touched.lemma_used_upto_same(seen, tick, touched.bucket_count);
        touched.lemma_used_upto_with_used(tick, slot, tokens, touched.bucket_count);
        let granted = touched.with_used(slot, tokens);
        granted.lemma_used_upto_same(granted.with_last(slot), tick, touched.bucket_count);
        assert(seen.with_used(slot, tokens) == granted.with_last(slot));
    }

    /// Units that the requests were granted into buckets that start between
    /// `from` and `to`, taken through the short path in order.
    pub open spec fn granted_between(self, requests: Seq<(nat, nat)>, from: nat, to: nat) -> nat
        decreases requests.len(),
    {
        if requests.len() == 0 {
            0
        } else {
            self.granted_between(requests.drop_last(), from, to) + if self.after(
                requests.drop_last(),
            ).acquire(requests.last().0, requests.last().1).1 is Ok && from <= align_down(
                requests.last().0,
                self.bucket_ticks,
            ) <= to {
                requests.last().1
            } else {
                0
            }
        }
    }

    /// After a run on a fresh counter, on ticks that never go back, the ring
    /// still holds every grant of the last ring of buckets: the slots count,
    /// between `from` and `to`, exactly what was granted into buckets that
    /// start there, as long as `from` lies less than a ring before the last
    /// tick.
    pub proof fn lemma_ring_holds_grants(
        capacity: nat,
        bucket_ticks: nat,
        bucket_count: nat,
        requests: Seq<(nat, nat)>,
        from: nat,
        to: nat,
    )
        requires
            0 < capacity <= Uint::MAX,
            0 < bucket_ticks <= Uint::MAX,
            0 < bucket_count <= Uint::MAX,
            bucket_count <= usize::MAX,
            Self::in_order(requests),
            requests.len() > 0 ==> from + bucket_ticks * bucket_count > requests.last().0,
        ensures
            Self::initial(capacity, bucket_ticks, bucket_count).after(requests).wf(),
            Self::initial(capacity, bucket_ticks, bucket_count).after(requests).same_config(
                Self::initial(capacity, bucket_ticks, bucket_count),
            ),
            forall|i: int|
                0 <= i < bucket_count ==> (#[trigger] Self::initial(
                    capacity,
                    bucket_ticks,
                    bucket_count,
                ).after(requests).bucket_starts[i]) <= (if requests.len() > 0 {
                    requests.last().0
                } else {
                    0
                }),
            Self::initial(capacity, bucket_ticks, bucket_count).granted_between(requests, from, to)
                == Self::initial(capacity, bucket_ticks, bucket_count).after(requests).used_between(
                from,
                to,
                bucket_count,
            ),
        decreases requests.len(),
    {
        let fresh = Self::initial(capacity, bucket_ticks, bucket_count);
        Self::lemma_initial(capacity, bucket_ticks, bucket_count);
        if requests.len() == 0 {
            fresh.lemma_used_between_of_empty(from, to, bucket_count);
        } else {
            let before = requests.drop_last();
            let (tick, tokens) = requests.last();
            assert(forall|i: int| 0 <= i < before.len() ==> before[i] == requests[i]);
            assert(requests.last() == requests[requests.len() - 1]);
            if before.len() > 0 {
                assert(before.last() == requests[before.len() - 1]);
            }
            Self::lemma_ring_holds_grants(capacity, bucket_ticks, bucket_count, before, from, to);
            let held = fresh.after(before);
            held.lemma_step(tick, tokens);
            held.lemma_slot_of(tick);
            let slot = held.slot_of(tick);
            assert(held.bucket_starts[held.last_index as int] <= tick);
            assert(!held.expired(tick));
            if tokens > 0 {
                let touched = held.touched(tick);
                held.lemma_touched(tick);
                lemma_align_down(tick, bucket_ticks);
                // the slot that is cleared held nothing that counts from `from` on
                assert forall|i: int| 0 <= i < bucket_count implies #[trigger] held.counted_between(
                    i,
                    from,
                    to,
                ) == touched.counted_between(i, from, to) by {
                    if i == slot && held.bucket_starts[i] != align_down(tick, bucket_ticks) {
                        assert(held.slot_in_order(i));
                        if !(held.buckets[i] == 0 && held.bucket_starts[i] == 0) {
                            if held.bucket_starts[i] < align_down(tick, bucket_ticks) {
                                held.lemma_stale_is_a_ring_behind(tick);
                            } else {
                                held.lemma_stale_is_out_of_window(tick);
                            }
                        }
                    }
                }
                held.lemma_used_between_same_counts(touched, from, to, bucket_count);
                if touched.used_at(tick) + tokens <= capacity {
                    let filled = touched.with_used(slot, tokens);
                    touched.lemma_used_between_with_used(from, to, slot, tokens, bucket_count);
                    filled.lemma_used_between_same(filled.with_last(slot), from, to, bucket_count);
                }
            }
        }
    }

    /// On a counter made afresh and asked on ticks that never go back, what
    /// was granted within the window of a grant adds up to no more than the
    /// capacity: the units of every granted request whose bucket starts among
    /// the last `window_ticks` ticks, the grant itself included.
    pub proof fn law_window_sum_within_capacity(
        capacity: nat,
        bucket_ticks: nat,
        bucket_count: nat,
        requests: Seq<(nat, nat)>,
    )
        requires
            0 < capacity <= Uint::MAX,
            0 < bucket_ticks <= Uint::MAX,
            0 < bucket_count <= Uint::MAX,
            bucket_count <= usize::MAX,
            Self::in_order(requests),
            requests.len() > 0,
            requests.last().1 > 0,
            Self::initial(capacity, bucket_ticks, bucket_count).after(requests.drop_last()).acquire(
                requests.last().0,
                requests.last().1,
            ).1 is Ok,
        ensures
            Self::initial(capacity, bucket_ticks, bucket_count).granted_between(
                requests,
                Self::initial(capacity, bucket_ticks, bucket_count).window_head(requests.last().0),
                requests.last().0,
            ) <= capacity,
    {
        let fresh = Self::initial(capacity, bucket_ticks, bucket_count);
        let (tick, tokens) = requests.last();
        let before = requests.drop_last();
        let head = fresh.window_head(tick);
        assert(requests.last() == requests[requests.len() - 1]);
        assert(forall|i: int| 0 <= i < before.len() ==> before[i] == requests[i]);
        if before.len() > 0 {
            assert(before.last() == requests[before.len() - 1]);
        }
        Self::lemma_initial(capacity, bucket_ticks, bucket_count);
        fresh.lemma_window_covers_bucket();
        assert(bucket_ticks * bucket_count >= fresh.window_ticks()) by (nonlinear_arith)
            requires
                bucket_ticks >= 0,
                bucket_count >= 0,
                fresh.window_ticks() == sat((bucket_ticks * bucket_count) as int),
        ;
        Self::lemma_ring_holds_grants(capacity, bucket_ticks, bucket_count, requests, head, tick);
        Self::lemma_ring_holds_grants(capacity, bucket_ticks, bucket_count, before, head, tick);
        fresh.after(before).law_capacity(tick, tokens);
    }

    /// The lazy reset never loses usage that still counts: touching the slot
    /// of a tick leaves the usage at that tick as it was.
    pub proof fn law_lazy_reset_keeps_usage(self, tick: nat)
        requires
            self.wf(),
            tick <= Uint::MAX,
        ensures
            self.touched(tick).used_at(tick) == self.used_at(tick),
            self.touched(tick).available_at(tick) == self.available_at(tick),
    {
        let touched = self.touched(tick);
        let slot = self.slot_of(tick) as int;
        let head = self.window_head(tick);
        self.lemma_slot_of(tick);
        if self.bucket_starts[slot] != align_down(tick, self.bucket_ticks) {
            self.lemma_stale_is_out_of_window(tick);
            assert forall|i: int| 0 <= i < self.bucket_count implies #[trigger] self.counted_between(
                i,
                head,
                tick,
            ) == touched.counted_between(i, head, tick) by {
                if i == slot {
                    assert(self.counted(slot, tick) == 0);
                }
            }
            self.lemma_used_between_same_counts(touched, head, tick, self.bucket_count);
        }
    }

    /// A slot that holds another bucket than that of the tick is cleared when
    /// it is touched, and only then; no other slot changes.
    pub proof fn law_lazy_reset(self, tick: nat, i: int)
        requires
            self.wf(),
            0 <= i < self.bucket_count,
        ensures
            i != self.slot_of(tick) ==> self.touched(tick).buckets[i] == self.buckets[i]
                && self.touched(tick).bucket_starts[i] == self.bucket_starts[i],
            i == self.slot_of(tick) && self.bucket_starts[i] == align_down(tick, self.bucket_ticks)
                ==> self.touched(tick) == self,
            i == self.slot_of(tick) && self.bucket_starts[i] != align_down(tick, self.bucket_ticks)
                ==> self.touched(tick).buckets[i] == 0 && self.touched(tick).bucket_starts[i]
                == align_down(tick, self.bucket_ticks),
    {
        self.lemma_slot_of(tick);
    }
}

/// A sliding window counter: its configuration and its ring of buckets, as
/// one value that a lock can guard.
pub struct SlidingWindowCounterCoreState {
    capacity: Uint,
    bucket_ticks: Uint,
    bucket_count: Uint,
    buckets: Vec<Uint>,
    bucket_start_ticks: Vec<Uint>,
    last_bucket_index: usize,
}

impl View for SlidingWindowCounterCoreState {
    type V = SlidingWindowModel;

    closed spec fn view(&self) -> SlidingWindowModel {
        SlidingWindowModel {
            capacity: self.capacity as nat,
            bucket_ticks: self.bucket_ticks as nat,
            bucket_count: self.bucket_count as nat,
            buckets: to_nats(self.buckets@),
            bucket_starts: to_nats(self.bucket_start_ticks@),
            last_index: self.last_bucket_index as nat,
        }
    }
}

/// Writes `value` into place `i` of `v`.
fn put(v: &mut Vec<Uint>, i: usize, value: Uint)
    requires
        i < old(v)@.len(),
    ensures
        final(v)@ == old(v)@.update(i as int, value),
    no_unwind
{
    v[i] = value;
}

/// A vector of `n` zeros.
fn zeros(n: usize) -> (v: Vec<Uint>)
    ensures
        v@.len() == n,
        forall|i: int| 0 <= i < n ==> v@[i] == 0,
{
    let mut v: Vec<Uint> = Vec::new();
    let mut i: usize = 0;
    while i < n
        invariant
            i <= n,
            v@.len() == i,
            forall|j: int| 0 <= j < i ==> v@[j] == 0,
        decreases n - i,
    {
        v.push(0);
        i = i + 1;
    }
    v
}

impl SlidingWindowCounterCoreState {
    #[verifier::type_invariant]
    spec fn inv(self) -> bool {
        self@.wf()
    }

    /// A fresh counter: every slot empty and stamped with tick 0.
    pub fn new(capacity: Uint, bucket_ticks: Uint, bucket_count: Uint) -> (s: Self)
        requires
            capacity > 0,
            bucket_ticks > 0,
            bucket_count > 0,
            bucket_count <= usize::MAX,
        ensures
            s@ == SlidingWindowModel::initial(capacity as nat, bucket_ticks as nat, bucket_count as nat),
            s@.wf(),
    {
        let slots = bucket_count as usize;
        let buckets = zeros(slots);
        let bucket_start_ticks = zeros(slots);
        proof {
            let m = SlidingWindowModel::initial(capacity as nat, bucket_ticks as nat, bucket_count as nat);
            assert(to_nats(buckets@) =~= m.buckets);
            assert(to_nats(bucket_start_ticks@) =~= m.bucket_starts);
        }
        SlidingWindowCounterCoreState {
            capacity,
            bucket_ticks,
            bucket_count,
            buckets,
            bucket_start_ticks,
            last_bucket_index: 0,
        }
    }

    /// Binds the counter to the given parameters: a counter that has them
    /// already stays as it is, any other starts afresh under them.
    pub fn bind(&mut self, capacity: Uint, bucket_ticks: Uint, bucket_count: Uint)
        requires
            capacity > 0,
            bucket_ticks > 0,
            bucket_count > 0,
            bucket_count <= usize::MAX,
        ensures
            final(self)@.wf(),
            final(self)@.same_config(Self::fresh(capacity, bucket_ticks, bucket_count)),
            final(self)@ == if old(self)@.same_config(Self::fresh(capacity, bucket_ticks, bucket_count)) {
                old(self)@
            } else {
                Self::fresh(capacity, bucket_ticks, bucket_count)
            },
    {
        proof {
            use_type_invariant(&*self);
        }
        if self.capacity != capacity
            || self.bucket_ticks != bucket_ticks
            || self.bucket_count != bucket_count
        {
            *self = Self::new(capacity, bucket_ticks, bucket_count);
        }
    }

    /// The model of a counter as it is made with the given parameters.
    pub open spec fn fresh(
        capacity: Uint,
        bucket_ticks: Uint,
        bucket_count: Uint,
    ) -> SlidingWindowModel {
        SlidingWindowModel::initial(
                capacity as nat,
                bucket_ticks as nat,
                bucket_count as nat,
        )
    }

    /// Units allowed per window.
    pub fn capacity(&self) -> (r: Uint)
        ensures
            r == self@.capacity,
    {
        self.capacity
    }

    /// Length of the window in ticks.
    pub fn window_ticks(&self) -> (r: Uint)
        ensures
            r == self@.window_ticks(),
    {
        saturating_mul(self.bucket_ticks, self.bucket_count)
    }

    /// The slot of the bucket that holds `tick`.
    fn slot_of(&self, tick: Uint) -> (slot: usize)
        ensures
            slot == self@.slot_of(tick as nat),
            slot < self@.bucket_count,
    {
        proof {
            use_type_invariant(self);
            self@.lemma_slot_of(tick as nat);
        }
        ((tick / self.bucket_ticks) % self.bucket_count) as usize
    }

    /// Touches the slot of `tick`: clears and stamps it if it held another
    /// bucket.
    fn touch(&mut self, tick: Uint) -> (slot: usize)
        ensures
            final(self)@ == old(self)@.touched(tick as nat),
            final(self)@.wf(),
            slot == old(self)@.slot_of(tick as nat),
            slot < old(self)@.bucket_count,
    {
        proof {
            use_type_invariant(&*self);
            self@.lemma_touched(tick as nat);
        }
        let ghost before = self@;
        let slot = self.slot_of(tick);
        let start = align_tick(tick, self.bucket_ticks);
        if self.bucket_start_ticks[slot] != start {
            proof {
                before.lemma_cleared(slot as nat);
                assert(to_nats(self.buckets@.update(slot as int, 0)) =~= before.buckets.update(
                    slot as int,
                    0,
                ));
                assert(to_nats(self.bucket_start_ticks@.update(slot as int, start))
                    =~= before.bucket_starts.update(slot as int, start as nat));
            }
            put(&mut self.buckets, slot, 0);
            put(&mut self.bucket_start_ticks, slot, start);
            proof {
                assert(self@.buckets =~= before.buckets.update(slot as int, 0));
                assert(self@.bucket_starts =~= before.bucket_starts.update(slot as int, start as nat));
            }
        }
        slot
    }

    /// First tick of the window that ends at `tick`.
    fn window_head(&self, tick: Uint) -> (head: Uint)
        ensures
            head == self@.window_head(tick as nat),
            head <= tick,
    {
        proof {
            use_type_invariant(self);
            self@.lemma_window_covers_bucket();
        }
        tick.saturating_sub(self.window_ticks() - 1)
    }

    /// The sum of every bucket whose start lies between `window_start_tick`
    /// and `tick`, clamped to the range of `Uint`.
    pub fn count_tokens_in_valid_buckets_within_sliding_window(
        &self,
        tick: Uint,
        window_start_tick: Uint,
    ) -> (total: Uint)
        ensures
            total == sat(
                self@.used_between(window_start_tick as nat, tick as nat, self@.bucket_count) as int,
            ),
    {
        proof {
            use_type_invariant(self);
        }
        let slots = self.buckets.len();
        let mut total: Uint = 0;
        let mut i: usize = 0;
        while i < slots
            invariant
                self@.wf(),
                slots == self@.bucket_count,
                slots == self.buckets@.len(),
                slots == self.bucket_start_ticks@.len(),
                i <= slots,
                total == sat(
                    self@.used_between(window_start_tick as nat, tick as nat, i as nat) as int,
                ),
            decreases slots - i,
        {
            let start = self.bucket_start_ticks[i];
            assert(self@.bucket_starts[i as int] == start);
            assert(self@.buckets[i as int] == self.buckets@[i as int]);
            if start >= window_start_tick && start <= tick {
                total = total.saturating_add(self.buckets[i]);
            }
            i = i + 1;
        }
        total
    }

    /// Estimated ticks until `tokens` units fit at `tick`, for a request that
    /// does not fit now.
    fn retry_after(&self, tick: Uint, tokens: Uint, available: Uint) -> (r: Uint)
        requires
            available == self@.available_at(tick as nat),
        ensures
            r == self@.retry_after(tick as nat, tokens as nat),
    {
        proof {
            use_type_invariant(self);
        }
        let window = self.window_ticks();
        let head = self.window_head(tick);
        let slots = self.buckets.len();
        let mut released: Uint = 0;
        let ghost mut freed: nat = 0;
        let mut seen: Uint = 0;
        let mut i: usize = 0;
        while i < slots
            invariant
                self@.wf(),
                slots == self@.bucket_count,
                slots == self.buckets@.len(),
                slots == self.bucket_start_ticks@.len(),
                window == self@.window_ticks(),
                head == self@.window_head(tick as nat),
                available == self@.available_at(tick as nat),
                i <= slots,
                seen <= i,
                released == sat(freed as int),
                self@.retry_scan(tick as nat, tokens as nat, i as nat, freed, seen as nat)
                    == self@.retry_after(tick as nat, tokens as nat),
            decreases slots - i,
        {
            let start = self.bucket_start_ticks[i];
            assert(self@.bucket_starts[i as int] == start);
            assert(self@.buckets[i as int] == self.buckets@[i as int]);
            if start >= head && start <= tick {
                let next = released.saturating_add(self.buckets[i]);
                if available.saturating_add(next) >= tokens {
                    return saturating_mul(seen + 1, self.bucket_ticks);
                }
                released = next;
                proof {
                    freed = freed + self@.buckets[i as int];
                }
                seen = seen + 1;
            }
            i = i + 1;
        }
        window
    }

    /// Takes `tokens` units at `tick`, on the short path.
    ///
    /// At a tick that has not expired, a request is granted exactly when it
    /// fits beside the usage that the counter shows at `tick` before the
    /// call: the lazy reset loses nothing that still counts. After a grant,
    /// the usage counted at `tick` is within the capacity.
    pub fn try_acquire_at(&mut self, tick: Uint, tokens: Uint) -> (r: SimpleAcquireResult)
        ensures
            (final(self)@, r) == old(self)@.acquire(tick as nat, tokens as nat),
            final(self)@.wf(),
            tokens == 0 ==> r is Ok && final(self)@ == old(self)@,
            tokens > 0 && r is Ok ==> final(self)@.used_at(tick as nat) <= final(self)@.capacity,
            tokens > 0 && !old(self)@.expired(tick as nat) ==> (r is Ok <==> old(self)@.used_at(
                tick as nat,
            ) + tokens <= old(self)@.capacity),
    {
        proof {
            use_type_invariant(&*self);
            self@.law_lazy_reset_keeps_usage(tick as nat);
        }
        if tokens == 0 {
            return Ok(());
        }
        if tick < self.bucket_start_ticks[self.last_bucket_index] {
            return Err(SimpleRateLimitError::ExpiredTick);
        }
        let ghost before = self@;
        let slot = self.touch(tick);
        let total = self.count_tokens_in_valid_buckets_within_sliding_window(tick, self.window_head(tick));
        if tokens <= self.capacity && total <= self.capacity - tokens {
            proof {
                before.lemma_touched(tick as nat);
            }
            self.grant(tick, slot, tokens);
            let ghost granted = self@;
            proof {
                self@.lemma_with_last(slot as nat);
            }
            self.last_bucket_index = slot;
            proof {
                granted.lemma_used_upto_same(self@, tick as nat, granted.bucket_count);
            }
            Ok(())
        } else {
            Err(SimpleRateLimitError::InsufficientCapacity)
        }
    }

    /// Puts `tokens` units into `slot`, the slot of `tick`, when they fit.
    fn grant(&mut self, tick: Uint, slot: usize, tokens: Uint)
        requires
            slot == old(self)@.slot_of(tick as nat),
            slot < old(self)@.bucket_starts.len(),
            old(self)@.bucket_ticks > 0,
            old(self)@.bucket_starts[slot as int] == align_down(tick as nat, old(self)@.bucket_ticks),
            old(self)@.used_at(tick as nat) + tokens <= old(self)@.capacity,
        ensures
            final(self)@ == old(self)@.with_used(slot as nat, tokens as nat),
            final(self)@.wf(),
            final(self)@.used_at(tick as nat) == old(self)@.used_at(tick as nat) + tokens,
    {
        let ghost before = self@;
        proof {
            use_type_invariant(&*self);
            before.lemma_slot_of(tick as nat);
            before.lemma_window_covers_bucket();
            lemma_align_down(tick as nat, before.bucket_ticks);
            before.lemma_counted_in_used(tick as nat, slot as nat);
            before.lemma_used_upto_with_used(tick as nat, slot as nat, tokens as nat, before.bucket_count);
        }
        let filled = self.buckets[slot] + tokens;
        proof {
            before.lemma_with_used(tick as nat, tokens as nat);
            assert(to_nats(self.buckets@.update(slot as int, filled)) =~= before.with_used(
                slot as nat,
                tokens as nat,
            ).buckets);
        }
        put(&mut self.buckets, slot, filled);
        proof {
            assert(self@.buckets =~= before.with_used(slot as nat, tokens as nat).buckets);
        }
    }

    /// Takes `tokens` units at `tick`, and says why not when it cannot.
    ///
    /// After a grant, the usage counted at `tick` is within the capacity.
    pub fn try_acquire_verbose_at(&mut self, tick: Uint, tokens: Uint) -> (r: VerboseAcquireResult)
        ensures
            (final(self)@, r) == old(self)@.acquire_verbose(tick as nat, tokens as nat),
            final(self)@.wf(),
            tokens == 0 ==> r is Ok && final(self)@ == old(self)@,
            tokens > 0 && r is Ok ==> final(self)@.used_at(tick as nat) <= final(self)@.capacity,
            0 < tokens <= old(self)@.capacity && !old(self)@.expired(tick as nat) ==> (r is Ok
                <==> old(self)@.used_at(tick as nat) + tokens <= old(self)@.capacity),
            r matches Err(VerboseRateLimitError::InsufficientCapacity { available, .. }) ==> available
                == old(self)@.available_at(tick as nat),
    {
        proof {
            use_type_invariant(&*self);
            self@.law_lazy_reset_keeps_usage(tick as nat);
        }
        if tokens == 0 {
            return Ok(());
        }
        let min_acceptable_tick = self.bucket_start_ticks[self.last_bucket_index];
        if tick < min_acceptable_tick {
            return Err(VerboseRateLimitError::ExpiredTick { min_acceptable_tick });
        }
        if tokens > self.capacity {
            return Err(
                VerboseRateLimitError::BeyondCapacity { acquiring: tokens, capacity: self.capacity },
            );
        }
        let ghost before = self@;
        let slot = self.touch(tick);
        proof {
            use_type_invariant(&*self);
            self@.lemma_with_last(slot as nat);
        }
        self.last_bucket_index = slot;
        proof {
            before.touched(tick as nat).lemma_used_upto_same(
                self@,
                tick as nat,
                before.bucket_count,
            );
        }
        let total = self.count_tokens_in_valid_buckets_within_sliding_window(tick, self.window_head(tick));
        let available = self.capacity.saturating_sub(total);
        if tokens <= available {
            proof {
                before.lemma_touched(tick as nat);
            }
            self.grant(tick, slot, tokens);
            Ok(())
        } else {
            let retry_after_ticks = self.retry_after(tick, tokens, available);
            Err(
                VerboseRateLimitError::InsufficientCapacity {
                    acquiring: tokens,
                    available,
                    retry_after_ticks,
                },
            )
        }
    }

    /// Units left at `tick`, after touching the slot of `tick`.
    pub fn capacity_remaining(&mut self, tick: Uint) -> (r: Result<Uint, SimpleRateLimitError>)
        ensures
            (final(self)@, r) == old(self)@.remaining(tick as nat),
            final(self)@.wf(),
            r matches Ok(left) ==> left == old(self)@.available_at(tick as nat),
    {
        proof {
            use_type_invariant(&*self);
            self@.law_lazy_reset_keeps_usage(tick as nat);
        }
        if tick < self.bucket_start_ticks[self.last_bucket_index] {
            return Err(SimpleRateLimitError::ExpiredTick);
        }
        let slot = self.touch(tick);
        proof {
            use_type_invariant(&*self);
            self@.lemma_with_last(slot as nat);
            self@.lemma_used_upto_same(self@.with_last(slot as nat), tick as nat, self@.bucket_count);
        }
        self.last_bucket_index = slot;
        let total = self.count_tokens_in_valid_buckets_within_sliding_window(tick, self.window_head(tick));
        Ok(self.capacity.saturating_sub(total))
    }

    /// What the capacity leaves above the sum of all slots, without looking
    /// at any tick.
    pub fn current_capacity(&self) -> (r: Uint)
        ensures
            r == self@.current_capacity(),
    {
        proof {
            use_type_invariant(self);
        }
        let slots = self.buckets.len();
        let mut total: Uint = 0;
        let mut i: usize = 0;
        while i < slots
            invariant
                self@.wf(),
                slots == self@.bucket_count,
                slots == self.buckets@.len(),
                i <= slots,
                total == sat(self@.total_upto(i as nat) as int),
            decreases slots - i,
        {
            assert(self@.buckets[i as int] == self.buckets@[i as int]);
            total = total.saturating_add(self.buckets[i]);
            i = i + 1;
        }
        self.capacity.saturating_sub(total)
    }

    /// What would be left at `tick`, with the slots as they stand.
    pub fn current_capacity_at(&self, tick: Uint) -> (r: Uint)
        ensures
            r == self@.current_capacity_at(tick as nat),
    {
        proof {
            use_type_invariant(self);
        }
        let window_start_tick = tick.saturating_sub(self.window_ticks());
        let total = self.count_tokens_in_valid_buckets_within_sliding_window(tick, window_start_tick);
        self.capacity.saturating_sub(total)
    }
}

/// A sliding window counter shared between threads.
///
/// The counter sits behind a lock that is tried once per call and never
/// awaited: a call that finds the lock taken fails with `ContentionFailure`.
/// A call that gets the lock performs its whole read-decide-update step on
/// the counter before it lets go.
///
/// The parameters stand beside the lock, where they can be read at any time;
/// the counter behind the lock is bound to them before every step.
pub struct SlidingWindowCounterCore {
    capacity: Uint,
    bucket_ticks: Uint,
    bucket_count: Uint,
    state: Mutex<SlidingWindowCounterCoreState>,
}

impl SlidingWindowCounterCore {
    #[verifier::type_invariant]
    spec fn inv(self) -> bool {
        self.capacity > 0 && self.bucket_ticks > 0 && self.bucket_count > 0 && self.bucket_count <= usize::MAX
    }

    /// Units allowed per window.
    pub closed spec fn spec_capacity(&self) -> Uint {
        self.capacity
    }

    /// Length of a bucket in ticks.
    pub closed spec fn spec_bucket_ticks(&self) -> Uint {
        self.bucket_ticks
    }

    /// Number of buckets in a window.
    pub closed spec fn spec_bucket_count(&self) -> Uint {
        self.bucket_count
    }

    /// Units allowed per window.
    #[verifier::when_used_as_spec(spec_capacity)]
    pub fn capacity(&self) -> (r: Uint)
        ensures
            r == self.spec_capacity(),
            r > 0,
    {
        proof {
            use_type_invariant(self);
        }
        self.capacity
    }

    /// Length of a bucket in ticks.
    #[verifier::when_used_as_spec(spec_bucket_ticks)]
    pub fn bucket_ticks(&self) -> (r: Uint)
        ensures
            r == self.spec_bucket_ticks(),
            r > 0,
    {
        proof {
            use_type_invariant(self);
        }
        self.bucket_ticks
    }

    /// Number of buckets in a window.
    #[verifier::when_used_as_spec(spec_bucket_count)]
    pub fn bucket_count(&self) -> (r: Uint)
        ensures
            r == self.spec_bucket_count(),
            r > 0,
    {
        proof {
            use_type_invariant(self);
        }
        self.bucket_count
    }

    /// `s` is a well formed counter with the parameters of this limiter.
    pub open spec fn governs(&self, s: SlidingWindowModel) -> bool {
        &&& s.wf()
        &&& s.capacity == self.spec_capacity()
        &&& s.bucket_ticks == self.spec_bucket_ticks()
        &&& s.bucket_count == self.spec_bucket_count()
    }

    /// The limiter governs a counter as it is made with its parameters: there
    /// is always a counter that it governs.
    proof fn lemma_governs_fresh(&self)
        requires
            self.inv(),
        ensures
            self.governs(
                SlidingWindowModel::initial(
                    self.capacity as nat,
                    self.bucket_ticks as nat,
                    self.bucket_count as nat,
                ),
            ),
    {
        SlidingWindowModel::lemma_initial(
            self.capacity as nat,
            self.bucket_ticks as nat,
            self.bucket_count as nat,
        );
    }

    /// `r` is a contention failure, or what the short path answers on some
    /// counter that this limiter governs.
    pub open spec fn may_acquire(&self, tick: Uint, tokens: Uint, r: SimpleAcquireResult) -> bool {
        ||| tokens != 0 && r == Err::<(), SimpleRateLimitError>(
            SimpleRateLimitError::ContentionFailure,
        )
        ||| exists|s: SlidingWindowModel| #[trigger]
            self.governs(s) && s.acquire(tick as nat, tokens as nat).1 == r
    }

    /// `r` is a contention failure, or what the diagnostic path answers on
    /// some counter that this limiter governs.
    pub open spec fn may_acquire_verbose(
        &self,
        tick: Uint,
        tokens: Uint,
        r: VerboseAcquireResult,
    ) -> bool {
        ||| tokens != 0 && r == Err::<(), VerboseRateLimitError>(
            VerboseRateLimitError::ContentionFailure,
        )
        ||| exists|s: SlidingWindowModel| #[trigger]
            self.governs(s) && s.acquire_verbose(tick as nat, tokens as nat).1 == r
    }

    /// `r` is a contention failure, or what `capacity_remaining` answers at
    /// `tick` on some counter that this limiter governs.
    pub open spec fn may_remain(&self, tick: Uint, r: Result<Uint, SimpleRateLimitError>) -> bool {
        ||| r == Err::<Uint, SimpleRateLimitError>(SimpleRateLimitError::ContentionFailure)
        ||| exists|s: SlidingWindowModel| #[trigger] self.governs(s) && s.remaining(tick as nat).1 == r
    }

    /// `r` is a contention failure, or what `current_capacity` reads from some
    /// counter that this limiter governs.
    pub open spec fn may_hold(&self, r: Result<Uint, SimpleRateLimitError>) -> bool {
        ||| r == Err::<Uint, SimpleRateLimitError>(SimpleRateLimitError::ContentionFailure)
        ||| exists|s: SlidingWindowModel| #[trigger]
            self.governs(s) && r == Ok::<Uint, SimpleRateLimitError>(s.current_capacity() as Uint)
    }

    /// `r` is a contention failure, or what `current_capacity_at` reads at
    /// `tick` from some counter that this limiter governs.
    pub open spec fn may_hold_at(&self, tick: Uint, r: Result<Uint, SimpleRateLimitError>) -> bool {
        ||| r == Err::<Uint, SimpleRateLimitError>(SimpleRateLimitError::ContentionFailure)
        ||| exists|s: SlidingWindowModel| #[trigger]
            self.governs(s) && r == Ok::<Uint, SimpleRateLimitError>(
                s.current_capacity_at(tick as nat) as Uint,
            )
    }

    /// A counter of `capacity` units per window of `bucket_count` buckets of
    /// `bucket_ticks` ticks each, with nothing used.
    pub fn new(capacity: Uint, bucket_ticks: Uint, bucket_count: Uint) -> (core: Self)
        requires
            capacity > 0,
            bucket_ticks > 0,
            bucket_count > 0,
            bucket_count <= usize::MAX,
        ensures
            core.spec_capacity() == capacity,
            core.spec_bucket_ticks() == bucket_ticks,
            core.spec_bucket_count() == bucket_count,
    {
        let state = SlidingWindowCounterCoreState::new(capacity, bucket_ticks, bucket_count);
        SlidingWindowCounterCore { capacity, bucket_ticks, bucket_count, state: lock_new(state) }
    }

    /// Tries to take `tokens` units at `tick`.
    ///
    /// Zero units always succeed and touch nothing. A request above the
    /// capacity is refused as `InsufficientCapacity`, like any other that does
    /// not fit.
    pub fn try_acquire_at(&self, tick: Uint, tokens: Uint) -> (r: SimpleAcquireResult)
        ensures
            tokens == 0 ==> r is Ok,
            tokens > self.spec_capacity() ==> r is Err,
            r != Err::<(), SimpleRateLimitError>(SimpleRateLimitError::BeyondCapacity),
            self.may_acquire(tick, tokens, r),
    {
        if tokens == 0 {
            proof {
                use_type_invariant(self);
                self.lemma_governs_fresh();
            }
            return Ok(());
        }
        let mut guard = match lock_try(&self.state) {
            Some(guard) => guard,
            None => {
                return Err(SimpleRateLimitError::ContentionFailure);
            },
        };
        proof {
            use_type_invariant(self);
        }
        let state = lock_state(&mut guard);
        state.bind(self.capacity, self.bucket_ticks, self.bucket_count);
        assert(self.governs(state@));
        state.try_acquire_at(tick, tokens)
    }

    /// Like `try_acquire_at`, and reports the figures behind a refusal: what
    /// was asked, what was available, and an estimate of the ticks to wait. A
    /// request above the capacity is refused as `BeyondCapacity`.
    pub fn try_acquire_verbose_at(&self, tick: Uint, tokens: Uint) -> (r: VerboseAcquireResult)
        ensures
            tokens == 0 ==> r is Ok,
            tokens > self.spec_capacity() ==> r is Err,
            r matches Err(VerboseRateLimitError::BeyondCapacity { acquiring, capacity }) ==> acquiring
                == tokens && capacity == self.spec_capacity() && tokens > capacity,
            r matches Err(VerboseRateLimitError::InsufficientCapacity { acquiring, available, .. })
                ==> acquiring == tokens && available < tokens <= self.spec_capacity(),
            self.may_acquire_verbose(tick, tokens, r),
    {
        if tokens == 0 {
            proof {
                use_type_invariant(self);
                self.lemma_governs_fresh();
            }
            return Ok(());
        }
        let mut guard = match lock_try(&self.state) {
            Some(guard) => guard,
            None => {
                return Err(VerboseRateLimitError::ContentionFailure);
            },
        };
        proof {
            use_type_invariant(self);
        }
        let state = lock_state(&mut guard);
        state.bind(self.capacity, self.bucket_ticks, self.bucket_count);
        assert(self.governs(state@));
        state.try_acquire_verbose_at(tick, tokens)
    }

    /// Units left at `tick`; touches the slot of `tick` and notes it as
    /// processed last.
    pub fn capacity_remaining(&self, tick: Uint) -> (r: Result<Uint, SimpleRateLimitError>)
        ensures
            r matches Err(e) ==> e == SimpleRateLimitError::ExpiredTick || e
                == SimpleRateLimitError::ContentionFailure,
            r matches Ok(left) ==> left <= self.spec_capacity(),
            self.may_remain(tick, r),
    {
        let mut guard = match lock_try(&self.state) {
            Some(guard) => guard,
            None => {
                return Err(SimpleRateLimitError::ContentionFailure);
            },
        };
        proof {
            use_type_invariant(self);
        }
        let state = lock_state(&mut guard);
        state.bind(self.capacity, self.bucket_ticks, self.bucket_count);
        assert(self.governs(state@));
        state.capacity_remaining(tick)
    }

    /// Units left at `tick`, or 0 when that cannot be told.
    pub fn capacity_remaining_or_0(&self, tick: Uint) -> (r: Uint)
        ensures
            r <= self.spec_capacity(),
            r == 0 || self.may_remain(tick, Ok(r)),
    {
        match self.capacity_remaining(tick) {
            Ok(left) => left,
            Err(_) => 0,
        }
    }

    /// What the capacity leaves above the sum of all slots, stale ones
    /// included, without touching any slot.
    pub fn current_capacity(&self) -> (r: Result<Uint, SimpleRateLimitError>)
        ensures
            r matches Err(e) ==> e == SimpleRateLimitError::ContentionFailure,
            r matches Ok(left) ==> left <= self.spec_capacity(),
            self.may_hold(r),
    {
        let mut guard = match lock_try(&self.state) {
            Some(guard) => guard,
            None => {
                return Err(SimpleRateLimitError::ContentionFailure);
            },
        };
        proof {
            use_type_invariant(self);
        }
        let state = lock_state(&mut guard);
        state.bind(self.capacity, self.bucket_ticks, self.bucket_count);
        assert(self.governs(state@));
        Ok(state.current_capacity())
    }

    /// What `current_capacity` reads, or 0 when the counter is busy.
    pub fn current_capacity_or_0(&self) -> (r: Uint)
        ensures
            r <= self.spec_capacity(),
            r == 0 || self.may_hold(Ok(r)),
    {
        match self.current_capacity() {
            Ok(left) => left,
            Err(_) => 0,
        }
    }

    /// What would be left at `tick`, worked out without changing the counter.
    /// No tick is refused as expired here.
    pub fn current_capacity_at(&self, tick: Uint) -> (r: Result<Uint, SimpleRateLimitError>)
        ensures
            r matches Err(e) ==> e == SimpleRateLimitError::ContentionFailure,
            r matches Ok(left) ==> left <= self.spec_capacity(),
            self.may_hold_at(tick, r),
    {
        let mut guard = match lock_try(&self.state) {
            Some(guard) => guard,
            None => {
                return Err(SimpleRateLimitError::ContentionFailure);
            },
        };
        proof {
            use_type_invariant(self);
        }
        let state = lock_state(&mut guard);
        state.bind(self.capacity, self.bucket_ticks, self.bucket_count);
        assert(self.governs(state@));
        Ok(state.current_capacity_at(tick))
    }
}

impl RateLimitCore for SlidingWindowCounterCore {
    open spec fn limit(&self) -> Uint {
        self.spec_capacity()
    }

    /// Takes the short path of [`SlidingWindowCounterCore::try_acquire_at`]: the answer is a
    /// contention failure, or what that path gives on some counter that this
    /// limiter governs.
    fn try_acquire_at(&self, tick: Uint, tokens: Uint) -> (r: SimpleRateLimitResult)
        ensures
            self.may_acquire(tick, tokens, r),
    {
        self.try_acquire_at(tick, tokens)
    }

    /// Takes the diagnostic path of [`SlidingWindowCounterCore::try_acquire_verbose_at`]: the
    /// answer is a contention failure, or what that path gives on some counter
    /// that this limiter governs.
    fn try_acquire_verbose_at(&self, tick: Uint, tokens: Uint) -> (r: VerboseRateLimitResult)
        ensures
            self.may_acquire_verbose(tick, tokens, r),
    {
        self.try_acquire_verbose_at(tick, tokens)
    }

    /// What [`SlidingWindowCounterCore::capacity_remaining`] reports at
    /// `tick`.
    fn capacity_remaining(&self, tick: Uint) -> (r: Result<Uint, SimpleRateLimitError>)
        ensures
            self.may_remain(tick, r),
    {
        self.capacity_remaining(tick)
    }

    /// What [`SlidingWindowCounterCore::capacity_remaining`] reports at
    /// `tick`, with every failure counted as 0.
    fn capacity_remaining_or_0(&self, tick: Uint) -> (r: Uint)
        ensures
            r == 0 || self.may_remain(tick, Ok(r)),
    {
        let outcome = <Self as RateLimitCore>::capacity_remaining(self, tick);
        match outcome {
            Ok(left) => left,
            Err(_) => 0,
        }
    }
}

impl RateLimiterCore for SlidingWindowCounterCore {
    open spec fn limit(&self) -> Uint {
        self.spec_capacity()
    }

    open spec fn may_report(&self, tick: Uint, left: Uint) -> bool {
        self.may_remain(tick, Ok(left))
    }

    /// Takes the short path of [`SlidingWindowCounterCore::try_acquire_at`]: the answer is a
    /// contention failure, or what that path gives on some counter that this
    /// limiter governs.
    fn try_acquire_at(&self, tick: Uint, tokens: Uint) -> (r: SimpleAcquireResult)
        ensures
            self.may_acquire(tick, tokens, r),
    {
        self.try_acquire_at(tick, tokens)
    }

    /// What [`SlidingWindowCounterCore::capacity_remaining`] reports at
    /// `tick`, or 0 when that cannot be told.
    fn capacity_remaining(&self, tick: Uint) -> (r: Uint) {
        self.capacity_remaining_or_0(tick)
    }
}

/// Parameters of a [`SlidingWindowCounterCore`]. They are checked when the value is made, so
/// that turning it into a limiter cannot fail.
#[derive(Debug, Clone, Copy)]
pub struct SlidingWindowCounterCoreConfig {
    capacity: Uint,
    bucket_ticks: Uint,
    bucket_count: Uint,
}

impl SlidingWindowCounterCoreConfig {
    #[verifier::type_invariant]
    spec fn inv(self) -> bool {
        self.capacity > 0 && self.bucket_ticks > 0 && self.bucket_count > 0 && self.bucket_count <= usize::MAX
    }

    /// Units allowed per window.
    pub closed spec fn spec_capacity(&self) -> Uint {
        self.capacity
    }

    /// Length of a bucket in ticks.
    pub closed spec fn spec_bucket_ticks(&self) -> Uint {
        self.bucket_ticks
    }

    /// Number of buckets in a window.
    pub closed spec fn spec_bucket_count(&self) -> Uint {
        self.bucket_count
    }

    /// The parameters that `SlidingWindowCounterCore::new` takes, under the same conditions.
    pub fn new(capacity: Uint, bucket_ticks: Uint, bucket_count: Uint) -> (config: Self)
        requires
            capacity > 0,
            bucket_ticks > 0,
            bucket_count > 0,
            bucket_count <= usize::MAX,
        ensures
            config.spec_capacity() == capacity,
            config.spec_bucket_ticks() == bucket_ticks,
            config.spec_bucket_count() == bucket_count,
    {
        SlidingWindowCounterCoreConfig { capacity, bucket_ticks, bucket_count }
    }

    /// Units allowed per window.
    #[verifier::when_used_as_spec(spec_capacity)]
    pub fn capacity(&self) -> (r: Uint)
        ensures
            r == self.spec_capacity(),
            r > 0,
    {
        proof {
            use_type_invariant(self);
        }
        self.capacity
    }

    /// Length of a bucket in ticks.
    #[verifier::when_used_as_spec(spec_bucket_ticks)]
    pub fn bucket_ticks(&self) -> (r: Uint)
        ensures
            r == self.spec_bucket_ticks(),
            r > 0,
    {
        proof {
            use_type_invariant(self);
        }
        self.bucket_ticks
    }

    /// Number of buckets in a window.
    #[verifier::when_used_as_spec(spec_bucket_count)]
    pub fn bucket_count(&self) -> (r: Uint)
        ensures
            r == self.spec_bucket_count(),
            r > 0,
    {
        proof {
            use_type_invariant(self);
        }
        self.bucket_count
    }
}

impl From<SlidingWindowCounterCoreConfig> for SlidingWindowCounterCore {
    /// The limiter that `new` makes from the same parameters.
    fn from(config: SlidingWindowCounterCoreConfig) -> (core: Self)
        ensures
            core.spec_capacity() == config.spec_capacity(),
            core.spec_bucket_ticks() == config.spec_bucket_ticks(),
            core.spec_bucket_count() == config.spec_bucket_count(),
    {
        proof {
            use_type_invariant(&config);
        }
        SlidingWindowCounterCore::new(config.capacity(), config.bucket_ticks(), config.bucket_count())
    }
}

impl vstd::std_specs::convert::FromSpecImpl<SlidingWindowCounterCoreConfig> for SlidingWindowCounterCore {
    open spec fn obeys_from_spec() -> bool {
        false
    }

    open spec fn from_spec(config: SlidingWindowCounterCoreConfig) -> Self {
        arbitrary()
    }
}

} // verus!
