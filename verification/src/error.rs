//! Outcomes of an acquisition: a short form and a form with diagnostics.
//!
//! Both forms can be put into words: `to_string` gives the message of an
//! error, with its figures in decimal.

use vstd::prelude::*;
use vstd::string::StringExecFns;
use crate::types::Uint;

verus! {

/// Why a request was refused, without further detail.
#[derive(Debug, Clone, Copy, PartialEq, Eq, Structural)]
pub enum SimpleRateLimitError {
    /// Not enough budget at this tick; a later tick may succeed.
    InsufficientCapacity,
    /// The request is larger than the limiter's whole capacity.
    BeyondCapacity,
    /// The tick lies before what the limiter has already processed.
    ExpiredTick,
    /// The limiter was busy on another thread.
    ContentionFailure,
}

/// Result of the short acquisition path.
pub type SimpleAcquireResult = Result<(), SimpleRateLimitError>;

/// Result of the short acquisition path.
pub type SimpleRateLimitResult = Result<(), SimpleRateLimitError>;

/// Why a request was refused, with the figures behind the decision.
#[derive(Debug, Clone, Copy, PartialEq, Eq, Structural)]
pub enum VerboseRateLimitError {
    /// Not enough budget at this tick.
    InsufficientCapacity {
        /// Units asked for.
        acquiring: Uint,
        /// Units that could have been granted.
        available: Uint,
        /// Estimated ticks to wait before the request can succeed.
        retry_after_ticks: Uint,
    },
    /// The request can never succeed against this limiter.
    BeyondCapacity {
        /// Units asked for.
        acquiring: Uint,
        /// The limiter's capacity.
        capacity: Uint,
    },
    /// The tick lies before what the limiter has already processed.
    ExpiredTick {
        /// Smallest tick the limiter still accepts.
        min_acceptable_tick: Uint,
    },
    /// The limiter was busy on another thread.
    ContentionFailure,
}

/// Result of the diagnostic acquisition path.
pub type VerboseAcquireResult = Result<(), VerboseRateLimitError>;

/// Result of the diagnostic acquisition path.
pub type VerboseRateLimitResult = Result<(), VerboseRateLimitError>;

impl VerboseRateLimitError {
    /// The short error that stands for this one.
    pub open spec fn simplified(self) -> SimpleRateLimitError {
        match self {
            VerboseRateLimitError::InsufficientCapacity { .. } => SimpleRateLimitError::InsufficientCapacity,
            VerboseRateLimitError::BeyondCapacity { .. } => SimpleRateLimitError::BeyondCapacity,
            VerboseRateLimitError::ExpiredTick { .. } => SimpleRateLimitError::ExpiredTick,
            VerboseRateLimitError::ContentionFailure => SimpleRateLimitError::ContentionFailure,
        }
    }

    /// Drops the diagnostics and keeps the kind of failure.
    pub fn simplify(&self) -> (r: SimpleRateLimitError)
        ensures
            r == self.simplified(),
    {
        match self {
            VerboseRateLimitError::InsufficientCapacity { .. } => SimpleRateLimitError::InsufficientCapacity,
            VerboseRateLimitError::BeyondCapacity { .. } => SimpleRateLimitError::BeyondCapacity,
            VerboseRateLimitError::ExpiredTick { .. } => SimpleRateLimitError::ExpiredTick,
            VerboseRateLimitError::ContentionFailure => SimpleRateLimitError::ContentionFailure,
        }
    }
}

/// The character of the digit `d`.
pub open spec fn digit_char(d: nat) -> char
    recommends
        d < 10,
{
    if d == 0 {
        '0'
    } else if d == 1 {
        '1'
    } else if d == 2 {
        '2'
    } else if d == 3 {
        '3'
    } else if d == 4 {
        '4'
    } else if d == 5 {
        '5'
    } else if d == 6 {
        '6'
    } else if d == 7 {
        '7'
    } else if d == 8 {
        '8'
    } else {
        '9'
    }
}

/// The digits of `n` in base ten, most significant first, without leading
/// zeros.
pub open spec fn decimal(n: nat) -> Seq<char>
    decreases n,
{
    if n < 10 {
        seq![digit_char(n)]
    } else {
        decimal(n / 10).push(digit_char(n % 10))
    }
}

/// The digit `d` as text.
fn digit_text(d: Uint) -> (text: &'static str)
    requires
        d < 10,
    ensures
        text@ == seq![digit_char(d as nat)],
{
    proof {
        reveal_strlit("0");
        reveal_strlit("1");
        reveal_strlit("2");
        reveal_strlit("3");
        reveal_strlit("4");
        reveal_strlit("5");
        reveal_strlit("6");
        reveal_strlit("7");
        reveal_strlit("8");
        reveal_strlit("9");
    }
    let text = if d == 0 {
        "0"
    } else if d == 1 {
        "1"
    } else if d == 2 {
        "2"
    } else if d == 3 {
        "3"
    } else if d == 4 {
        "4"
    } else if d == 5 {
        "5"
    } else if d == 6 {
        "6"
    } else if d == 7 {
        "7"
    } else if d == 8 {
        "8"
    } else {
        "9"
    };
    assert(text@ =~= seq![digit_char(d as nat)]);
    text
}

/// `n` written in base ten.
pub fn decimal_text(n: Uint) -> (text: String)
    ensures
        text@ == decimal(n as nat),
    decreases n,
{
    if n < 10 {
        String::from_str(digit_text(n))
    } else {
        let text = decimal_text(n / 10).concat(digit_text(n % 10));
        assert(text@ =~= decimal(n as nat));
        text
    }
}

impl SimpleRateLimitError {
    /// The message of this error.
    pub open spec fn message(self) -> Seq<char> {
        match self {
            SimpleRateLimitError::InsufficientCapacity => "Insufficient capacity (fast path)."@,
            SimpleRateLimitError::BeyondCapacity => "Request exceeds maximum capacity (fast path)."@,
            SimpleRateLimitError::ExpiredTick => "Expired tick (fast path)."@,
            SimpleRateLimitError::ContentionFailure => "Contention failure (fast path)."@,
        }
    }

    /// Puts this error into words.
    pub fn to_string(&self) -> (text: String)
        ensures
            text@ == self.message(),
    {
        match self {
            SimpleRateLimitError::InsufficientCapacity => String::from_str(
                "Insufficient capacity (fast path).",
            ),
            SimpleRateLimitError::BeyondCapacity => String::from_str(
                "Request exceeds maximum capacity (fast path).",
            ),
            SimpleRateLimitError::ExpiredTick => String::from_str("Expired tick (fast path)."),
            SimpleRateLimitError::ContentionFailure => String::from_str("Contention failure (fast path)."),
        }
    }
}

impl VerboseRateLimitError {
    /// The message of this error, with its figures in base ten.
    pub open spec fn message(self) -> Seq<char> {
        match self {
            VerboseRateLimitError::InsufficientCapacity { acquiring, available, retry_after_ticks } => {
                "Insufficient capacity: tried to acquire "@ + decimal(acquiring as nat) + ", available "@
                    + decimal(available as nat) + ", retry after "@ + decimal(retry_after_ticks as nat)
                    + " tick(s)."@
            },
            VerboseRateLimitError::BeyondCapacity { acquiring, capacity } => {
                "Request exceeds maximum capacity: tried to acquire "@ + decimal(acquiring as nat)
                    + ", capacity "@ + decimal(capacity as nat) + ". This request cannot succeed."@
            },
            VerboseRateLimitError::ExpiredTick { min_acceptable_tick } => {
                "Expired tick: minimum acceptable tick is "@ + decimal(min_acceptable_tick as nat) + "."@
            },
            VerboseRateLimitError::ContentionFailure => {
                "Contention failure: resource is locked by another operation. Please retry."@
            },
        }
    }

    /// Puts this error into words.
    pub fn to_string(&self) -> (text: String)
        ensures
            text@ == self.message(),
    {
        match self {
            VerboseRateLimitError::InsufficientCapacity { acquiring, available, retry_after_ticks } => {
                let mut text = String::from_str("Insufficient capacity: tried to acquire ");
                text.append(decimal_text(*acquiring).as_str());
                text.append(", available ");
                text.append(decimal_text(*available).as_str());
                text.append(", retry after ");
                text.append(decimal_text(*retry_after_ticks).as_str());
                text.append(" tick(s).");
                text
            },
            VerboseRateLimitError::BeyondCapacity { acquiring, capacity } => {
                let mut text = String::from_str("Request exceeds maximum capacity: tried to acquire ");
                text.append(decimal_text(*acquiring).as_str());
                text.append(", capacity ");
                text.append(decimal_text(*capacity).as_str());
                text.append(". This request cannot succeed.");
                text
            },
            VerboseRateLimitError::ExpiredTick { min_acceptable_tick } => {
                let mut text = String::from_str("Expired tick: minimum acceptable tick is ");
                text.append(decimal_text(*min_acceptable_tick).as_str());
                text.append(".");
                text
            },
            VerboseRateLimitError::ContentionFailure => String::from_str(
                "Contention failure: resource is locked by another operation. Please retry.",
            ),
        }
    }
}

} // verus!
