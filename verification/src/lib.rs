//! Tick-based rate limiting.
//!
//! Five independent limiters decide, for a request of some units at a
//! caller-supplied tick, whether to admit it without exceeding a configured
//! budget. Time is an abstract, monotonic integer supplied by the caller; no
//! clock is ever read. Every operation returns at once: a limiter that is busy
//! on another thread answers with a contention error instead of waiting.
//!
//! Each limiter comes in three layers.
//!
//! - Its model (for example [`cores::FixedWindowModel`]) is the limiter as
//!   plain numbers, with its operations as functions from state to outcome
//!   and next state, and with the laws that hold of them.
//! - Its state type (for example [`cores::FixedWindowCounterCoreState`]) is
//!   the sequential engine: executable, owned by one caller, proved to do
//!   exactly what the model says, without overflow.
//! - Its core type (for example [`cores::FixedWindowCounterCore`]) shares one
//!   such state between threads behind a lock that is only ever tried, never
//!   awaited.
//!
//! All limiters follow one contract: a request for zero units succeeds and
//! changes nothing; a tick before the limiter's retained minimum is refused
//! as expired; a request above the capacity can never succeed; and a grant is
//! given only for what the limiter's own accounting leaves free.

pub mod types;
pub mod arith;
pub mod error;
pub mod lock;
pub mod rate_limit;
pub mod rate_limiter_core;
pub mod cores;
pub mod rate_limiters;

pub use error::{
    SimpleAcquireResult, SimpleRateLimitError, SimpleRateLimitResult, VerboseAcquireResult,
    VerboseRateLimitError, VerboseRateLimitResult,
};
pub use types::Uint;
