use rate_guard_core::cores::{
    SlidingWindowCounterCore, SlidingWindowCounterCoreConfig, SlidingWindowCounterCoreState,
};
use rate_guard_core::{SimpleRateLimitError, Uint, VerboseRateLimitError};

#[test]
fn sliding_window_state_counts_buckets_in_the_window() {
    let mut state = SlidingWindowCounterCoreState::new(100, 5, 4);
    assert_eq!(state.capacity(), 100);
    assert_eq!(state.window_ticks(), 20);
    assert_eq!(state.try_acquire_at(2, 20), Ok(()));
    assert_eq!(state.try_acquire_at(7, 30), Ok(()));
    assert_eq!(state.count_tokens_in_valid_buckets_within_sliding_window(7, 0), 50);
    assert_eq!(state.count_tokens_in_valid_buckets_within_sliding_window(19, 0), 50);
    assert_eq!(state.count_tokens_in_valid_buckets_within_sliding_window(20, 1), 30);
    assert_eq!(state.count_tokens_in_valid_buckets_within_sliding_window(24, 5), 30);
    assert_eq!(state.count_tokens_in_valid_buckets_within_sliding_window(25, 6), 0);
    assert_eq!(state.count_tokens_in_valid_buckets_within_sliding_window(4, 0), 20);
    assert_eq!(state.count_tokens_in_valid_buckets_within_sliding_window(4, 5), 0);
    assert_eq!(state.current_capacity(), 50);
}

#[test]
fn sliding_window_state_looks_one_tick_further_back_without_clearing() {
    let mut state = SlidingWindowCounterCoreState::new(100, 5, 4);
    assert_eq!(state.try_acquire_at(2, 20), Ok(()));
    assert_eq!(state.try_acquire_at(7, 30), Ok(()));
    assert_eq!(state.current_capacity_at(19), 50);
    assert_eq!(state.current_capacity_at(20), 50);
    assert_eq!(state.current_capacity_at(21), 70);
    assert_eq!(state.current_capacity_at(25), 70);
    assert_eq!(state.current_capacity_at(26), 100);
    // a request at tick 25 clears the slot of the bucket that started at 5
    assert_eq!(state.capacity_remaining(25), Ok(100));
    assert_eq!(state.current_capacity_at(25), 100);
}

#[test]
fn sliding_exactness() {
    let counter = SlidingWindowCounterCore::new(100, 5, 4);
    assert_eq!(counter.try_acquire_at(0, 25), Ok(()));
    assert_eq!(counter.try_acquire_at(5, 25), Ok(()));
    assert_eq!(counter.try_acquire_at(10, 25), Ok(()));
    assert_eq!(counter.try_acquire_at(15, 25), Ok(()));
    assert_eq!(counter.try_acquire_at(15, 1), Err(SimpleRateLimitError::InsufficientCapacity));
    // at tick 25 the buckets that started at 10 and 15 are still in the window
    assert_eq!(counter.capacity_remaining(25), Ok(50));
    assert_eq!(counter.capacity_remaining(30), Ok(75));
    assert_eq!(counter.capacity_remaining(35), Ok(100));
}

#[test]
fn sliding_window_verbose_reports_available_and_wait() {
    let counter = SlidingWindowCounterCore::new(10, 5, 2);
    assert_eq!(counter.try_acquire_verbose_at(0, 6), Ok(()));
    assert_eq!(counter.try_acquire_verbose_at(5, 3), Ok(()));
    assert_eq!(
        counter.try_acquire_verbose_at(6, 3),
        Err(VerboseRateLimitError::InsufficientCapacity {
            acquiring: 3,
            available: 1,
            retry_after_ticks: 5,
        })
    );
    assert_eq!(
        counter.try_acquire_verbose_at(6, 8),
        Err(VerboseRateLimitError::InsufficientCapacity {
            acquiring: 8,
            available: 1,
            retry_after_ticks: 10,
        })
    );
    assert_eq!(counter.try_acquire_verbose_at(6, 1), Ok(()));
}

#[test]
fn sliding_window_request_above_capacity() {
    let counter = SlidingWindowCounterCore::new(10, 5, 2);
    // nothing is in use, and still more than the capacity is never granted
    assert_eq!(counter.try_acquire_at(0, 11), Err(SimpleRateLimitError::InsufficientCapacity));
    assert_eq!(counter.try_acquire_at(0, Uint::MAX), Err(SimpleRateLimitError::InsufficientCapacity));
    assert_eq!(
        counter.try_acquire_verbose_at(0, 11),
        Err(VerboseRateLimitError::BeyondCapacity { acquiring: 11, capacity: 10 })
    );
    assert_eq!(counter.try_acquire_at(0, 10), Ok(()));
}

#[test]
fn sliding_window_expired_tick_names_the_last_bucket() {
    let counter = SlidingWindowCounterCore::new(100, 5, 4);
    assert_eq!(counter.try_acquire_verbose_at(8, 3), Ok(()));
    assert_eq!(
        counter.try_acquire_verbose_at(2, 1),
        Err(VerboseRateLimitError::ExpiredTick { min_acceptable_tick: 5 })
    );
    assert_eq!(counter.capacity_remaining(4), Err(SimpleRateLimitError::ExpiredTick));
    assert_eq!(counter.try_acquire_verbose_at(5, 1), Ok(()));
}

#[test]
fn sliding_window_refusal_on_the_short_path_keeps_the_minimum() {
    let counter = SlidingWindowCounterCore::new(10, 5, 2);
    assert_eq!(counter.try_acquire_at(0, 10), Ok(()));
    assert_eq!(counter.try_acquire_at(7, 1), Err(SimpleRateLimitError::InsufficientCapacity));
    // the refusal at tick 7 was not noted as the last bucket
    assert_eq!(counter.try_acquire_at(3, 1), Err(SimpleRateLimitError::InsufficientCapacity));
    assert_eq!(counter.capacity_remaining(7), Ok(0));
    assert_eq!(counter.try_acquire_at(3, 1), Err(SimpleRateLimitError::ExpiredTick));
}

#[test]
fn sliding_window_slot_is_cleared_when_touched_again() {
    let counter = SlidingWindowCounterCore::new(10, 5, 2);
    assert_eq!(counter.try_acquire_at(1, 4), Ok(()));
    assert_eq!(counter.try_acquire_at(6, 6), Ok(()));
    assert_eq!(counter.current_capacity(), Ok(0));
    // tick 10 falls into the slot of tick 1
    assert_eq!(counter.capacity_remaining(10), Ok(4));
    assert_eq!(counter.current_capacity(), Ok(4));
    // the bucket of tick 6 is stale at tick 100 and still held by its slot
    assert_eq!(counter.capacity_remaining(100), Ok(10));
    assert_eq!(counter.current_capacity(), Ok(4));
    assert_eq!(counter.current_capacity_at(100), Ok(10));
}

#[test]
fn sliding_window_zero_units_never_fail_and_change_nothing() {
    let counter = SlidingWindowCounterCore::new(10, 5, 2);
    assert_eq!(counter.try_acquire_at(20, 10), Ok(()));
    assert_eq!(counter.try_acquire_at(3, 0), Ok(()));
    assert_eq!(counter.try_acquire_verbose_at(3, 0), Ok(()));
    assert_eq!(counter.try_acquire_at(1000, 0), Ok(()));
    assert_eq!(counter.current_capacity(), Ok(0));
    assert_eq!(counter.capacity_remaining(20), Ok(0));
}

#[test]
fn sliding_window_ticks_in_order_never_expire() {
    let counter = SlidingWindowCounterCore::new(5, 3, 4);
    let mut tick: Uint = 0;
    for step in 0..300u64 {
        tick += step % 4;
        let outcome = counter.try_acquire_at(tick, 1 + step % 4);
        assert_ne!(outcome, Err(SimpleRateLimitError::ExpiredTick));
        assert!(counter.current_capacity_at(tick).unwrap() <= 5);
        if outcome.is_ok() {
            assert!(counter.current_capacity_at(tick).unwrap() <= 5 - (1 + step % 4));
        }
    }
}

#[test]
fn sliding_window_extreme_parameters() {
    let counter = SlidingWindowCounterCore::new(Uint::MAX, Uint::MAX, 3);
    assert_eq!(counter.try_acquire_verbose_at(0, Uint::MAX), Ok(()));
    assert_eq!(
        counter.try_acquire_verbose_at(Uint::MAX - 1, 1),
        Err(VerboseRateLimitError::InsufficientCapacity {
            acquiring: 1,
            available: 0,
            retry_after_ticks: Uint::MAX,
        })
    );
    assert_eq!(counter.capacity_remaining(Uint::MAX), Ok(Uint::MAX));
    assert_eq!(counter.capacity_remaining_or_0(0), 0);
    assert_eq!(counter.current_capacity_or_0(), 0);
}

#[test]
fn sliding_window_config_makes_the_same_counter() {
    let config = SlidingWindowCounterCoreConfig::new(100, 5, 4);
    assert_eq!(config.capacity(), 100);
    assert_eq!(config.bucket_ticks(), 5);
    assert_eq!(config.bucket_count(), 4);
    let counter = SlidingWindowCounterCore::from(config);
    assert_eq!(counter.try_acquire_at(0, 100), Ok(()));
    assert_eq!(counter.capacity_remaining(19), Ok(0));
    assert_eq!(counter.capacity_remaining(20), Ok(100));
}

#[test]
fn sliding_window_state_binds_to_parameters() {
    let mut state = SlidingWindowCounterCoreState::new(10, 5, 2);
    assert_eq!(state.try_acquire_at(7, 4), Ok(()));
    state.bind(10, 5, 2);
    assert_eq!(state.current_capacity(), 6);
    assert_eq!(state.capacity_remaining(4), Err(SimpleRateLimitError::ExpiredTick));
    state.bind(10, 5, 3);
    assert_eq!(state.window_ticks(), 15);
    assert_eq!(state.current_capacity(), 10);
    assert_eq!(state.capacity_remaining(4), Ok(10));
}

#[test]
fn sliding_window_grants_within_a_window_stay_within_capacity() {
    let capacity: Uint = 17;
    let bucket_ticks: Uint = 3;
    let bucket_count: Uint = 4;
    let window = bucket_ticks * bucket_count;
    let counter = SlidingWindowCounterCore::new(capacity, bucket_ticks, bucket_count);
    let mut granted: Vec<(Uint, Uint)> = Vec::new();
    let mut tick: Uint = 0;
    for step in 0..600u64 {
        tick += (step * 5) % 4;
        let tokens = 1 + (step * 7) % 6;
        if counter.try_acquire_at(tick, tokens) == Ok(()) {
            granted.push(((tick / bucket_ticks) * bucket_ticks, tokens));
            let head = tick.saturating_sub(window - 1);
            let sum: Uint = granted
                .iter()
                .filter(|(start, _)| head <= *start && *start <= tick)
                .map(|(_, units)| *units)
                .sum();
            assert!(sum <= capacity);
            assert_eq!(counter.current_capacity_at(tick).unwrap() + sum <= capacity, true);
        }
    }
    assert!(granted.len() > 100);
}

#[test]
fn sliding_window_lazy_reset_keeps_the_usage_that_counts() {
    let mut state = SlidingWindowCounterCoreState::new(20, 3, 4);
    let mut tick: Uint = 0;
    for step in 0..400u64 {
        tick += (step * 5) % 7;
        let head = tick.saturating_sub(11);
        let seen = state.count_tokens_in_valid_buckets_within_sliding_window(tick, head);
        assert_eq!(state.capacity_remaining(tick), Ok(20 - seen));
        let tokens = 1 + (step * 3) % 5;
        let head = tick.saturating_sub(11);
        let seen = state.count_tokens_in_valid_buckets_within_sliding_window(tick, head);
        assert_eq!(state.try_acquire_at(tick, tokens).is_ok(), seen + tokens <= 20);
    }
}
