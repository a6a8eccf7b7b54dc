//! The unfair trailing-edge rate limiter whose permits hold a shared handle to its state.

use vstd::prelude::*;

verus! {

/// Errors that can occur when interacting with the [`RateLimiter`].
pub type Error = super::mutex_common::Error;

/// Internal state of the rate limiter.
pub type State = super::common::State;

/// A RAII permit for a single unit of concurrency.
pub type SinglePermit = super::mutex_common::SinglePermit;

/// A RAII permit for multiple units of concurrency.
pub type MultiPermit = super::mutex_common::MultiPermit;

/// A rate limiter that enforces a cooldown period after usage (return-time based).
pub type RateLimiter<const MAX_SIMULTANEOUS: usize> = super::mutex_common::RateLimiter<
    MAX_SIMULTANEOUS,
>;

} // verus!
