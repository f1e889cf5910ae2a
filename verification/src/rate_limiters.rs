//! The limiters and their parameter types, by name.

pub use crate::cores::{
    ApproximateSlidingWindowCore, ApproximateSlidingWindowCoreConfig, FixedWindowCounterCore,
    FixedWindowCounterCoreConfig, LeakyBucketCore, LeakyBucketCoreConfig, SlidingWindowCounterCore,
    SlidingWindowCounterCoreConfig, TokenBucketCore, TokenBucketCoreConfig,
};
