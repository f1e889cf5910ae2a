use rate_guard_core::cores::{
    FixedWindowCounterCore, FixedWindowCounterCoreConfig, FixedWindowCounterCoreState,
};
use rate_guard_core::{SimpleRateLimitError, Uint, VerboseRateLimitError};

#[test]
fn fixed_window_state_counts_within_one_window() {
    let mut state = FixedWindowCounterCoreState::new(10, 5);
    assert_eq!(state.capacity(), 10);
    assert_eq!(state.window_ticks(), 5);
    assert_eq!(state.try_acquire_at(7, 4), Ok(()));
    assert_eq!(state.current_capacity(), 6);
    assert_eq!(state.capacity_remaining(9), Ok(6));
    assert_eq!(state.capacity_remaining(10), Ok(10));
    assert_eq!(state.capacity_remaining(9), Err(SimpleRateLimitError::ExpiredTick));
}

#[test]
fn fixed_window_verbose_reports_available_and_wait() {
    let counter = FixedWindowCounterCore::new(10, 5);
    assert_eq!(counter.try_acquire_verbose_at(3, 7), Ok(()));
    assert_eq!(
        counter.try_acquire_verbose_at(3, 4),
        Err(VerboseRateLimitError::InsufficientCapacity {
            acquiring: 4,
            available: 3,
            retry_after_ticks: 2,
        })
    );
    // the estimate is exact here: the next window starts at tick 5
    assert_eq!(counter.try_acquire_verbose_at(4, 4).is_err(), true);
    assert_eq!(counter.try_acquire_verbose_at(5, 4), Ok(()));
}

#[test]
fn fixed_window_retry_is_clamped_at_the_last_tick() {
    let counter = FixedWindowCounterCore::new(10, 10);
    assert_eq!(counter.try_acquire_verbose_at(Uint::MAX, 10), Ok(()));
    assert_eq!(
        counter.try_acquire_verbose_at(Uint::MAX, 1),
        Err(VerboseRateLimitError::InsufficientCapacity {
            acquiring: 1,
            available: 0,
            retry_after_ticks: 0,
        })
    );
}

#[test]
fn fixed_window_request_above_capacity() {
    let counter = FixedWindowCounterCore::new(10, 5);
    assert_eq!(counter.try_acquire_at(0, 11), Err(SimpleRateLimitError::InsufficientCapacity));
    assert_eq!(
        counter.try_acquire_verbose_at(0, 11),
        Err(VerboseRateLimitError::BeyondCapacity { acquiring: 11, capacity: 10 })
    );
    assert_eq!(counter.capacity_remaining(0), Ok(10));
}

#[test]
fn fixed_window_burst_on_both_sides_of_a_boundary() {
    let counter = FixedWindowCounterCore::new(10, 5);
    assert_eq!(counter.try_acquire_at(4, 10), Ok(()));
    assert_eq!(counter.try_acquire_at(5, 10), Ok(()));
    assert_eq!(counter.try_acquire_at(5, 1), Err(SimpleRateLimitError::InsufficientCapacity));
}

#[test]
fn fixed_window_zero_units_never_fail_and_change_nothing() {
    let counter = FixedWindowCounterCore::new(10, 5);
    assert_eq!(counter.try_acquire_at(12, 1), Ok(()));
    assert_eq!(counter.try_acquire_at(3, 0), Ok(()));
    assert_eq!(counter.try_acquire_verbose_at(3, 0), Ok(()));
    assert_eq!(counter.try_acquire_at(Uint::MAX, 0), Ok(()));
    assert_eq!(counter.current_capacity(), Ok(9));
    assert_eq!(counter.capacity_remaining(12), Ok(9));
    assert_eq!(counter.try_acquire_at(3, 1), Err(SimpleRateLimitError::ExpiredTick));
}

#[test]
fn fixed_window_expired_tick_names_the_window_start() {
    let counter = FixedWindowCounterCore::new(10, 5);
    assert_eq!(counter.try_acquire_verbose_at(12, 1), Ok(()));
    assert_eq!(
        counter.try_acquire_verbose_at(9, 1),
        Err(VerboseRateLimitError::ExpiredTick { min_acceptable_tick: 10 })
    );
    assert_eq!(counter.try_acquire_verbose_at(10, 1), Ok(()));
}

#[test]
fn fixed_window_ticks_in_order_never_expire() {
    let counter = FixedWindowCounterCore::new(3, 7);
    let mut tick: Uint = 0;
    for step in 0..200u64 {
        tick += step % 5;
        let outcome = counter.try_acquire_at(tick, 1 + step % 3);
        assert_ne!(outcome, Err(SimpleRateLimitError::ExpiredTick));
        let left = counter.capacity_remaining(tick).unwrap();
        assert!(left <= 3);
    }
}

#[test]
fn fixed_window_extreme_parameters() {
    let counter = FixedWindowCounterCore::new(Uint::MAX, Uint::MAX);
    assert_eq!(counter.try_acquire_verbose_at(0, Uint::MAX), Ok(()));
    assert_eq!(
        counter.try_acquire_verbose_at(Uint::MAX - 1, 1),
        Err(VerboseRateLimitError::InsufficientCapacity {
            acquiring: 1,
            available: 0,
            retry_after_ticks: 1,
        })
    );
    assert_eq!(counter.capacity_remaining(Uint::MAX), Ok(Uint::MAX));
    assert_eq!(counter.capacity_remaining_or_0(0), 0);
    assert_eq!(counter.current_capacity_or_0(), Uint::MAX);
}

#[test]
fn fixed_window_config_makes_the_same_counter() {
    let config = FixedWindowCounterCoreConfig::new(10, 5);
    assert_eq!(config.capacity(), 10);
    assert_eq!(config.window_ticks(), 5);
    let counter = FixedWindowCounterCore::from(config);
    assert_eq!(counter.try_acquire_at(4, 10), Ok(()));
    assert_eq!(counter.try_acquire_at(4, 1), Err(SimpleRateLimitError::InsufficientCapacity));
    let other: FixedWindowCounterCore = FixedWindowCounterCoreConfig::new(2, 1).into();
    assert_eq!(other.capacity_remaining(0), Ok(2));
}

#[test]
fn fixed_window_state_binds_to_parameters() {
    let mut state = FixedWindowCounterCoreState::new(10, 5);
    assert_eq!(state.try_acquire_at(7, 4), Ok(()));
    state.bind(10, 5);
    assert_eq!(state.current_capacity(), 6);
    assert_eq!(state.capacity_remaining(4), Err(SimpleRateLimitError::ExpiredTick));
    state.bind(20, 5);
    assert_eq!(state.capacity(), 20);
    assert_eq!(state.current_capacity(), 20);
    assert_eq!(state.capacity_remaining(4), Ok(20));
}
