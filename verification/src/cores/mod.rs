//! The five limiters.
//!
//! | Limiter | State | Budget |
//! |---------|-------|--------|
//! | Fixed window | one counter | per aligned window |
//! | Leaky bucket | one level | drains at a constant rate |
//! | Token bucket | one reserve | refills at a constant rate |
//! | Sliding window | a ring of buckets | exact, over the last window |
//! | Approximate sliding window | two windows | interpolated, over the last window |

pub mod fixed_window_counter_core;

pub use fixed_window_counter_core::{
    FixedWindowCounterCore, FixedWindowCounterCoreConfig, FixedWindowCounterCoreState,
    FixedWindowModel,
};

pub mod leaky_bucket_core;

pub use leaky_bucket_core::{
    LeakyBucketCore, LeakyBucketCoreConfig, LeakyBucketCoreState, LeakyBucketModel,
};

pub mod token_bucket_core;

pub use token_bucket_core::{
    TokenBucketCore, TokenBucketCoreConfig, TokenBucketCoreState, TokenBucketModel,
};

pub mod sliding_window_counter_core;

pub use sliding_window_counter_core::{
    SlidingWindowCounterCore, SlidingWindowCounterCoreConfig, SlidingWindowCounterCoreState,
    SlidingWindowModel,
};

pub mod approximate_sliding_window_core;

pub use approximate_sliding_window_core::{
    other_window, ApproximateSlidingWindowCore, ApproximateSlidingWindowCoreConfig,
    ApproximateSlidingWindowCoreState, ApproximateWindowModel,
};
