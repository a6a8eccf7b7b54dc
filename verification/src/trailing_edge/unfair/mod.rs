//! Trailing-edge rate limiters that do not guarantee fairness between callers.
//!
//! "Unfair" means there is no ordering guarantee: when a slot frees up, any waiting caller may
//! win it, rather than the one that has been waiting longest.

pub mod arc_mutex;
pub mod common;
pub mod mutex_common;
pub mod queue;

use vstd::prelude::*;

verus! {

/// The default unfair trailing-edge rate limiter.
pub type RateLimiter<const MAX_SIMULTANEOUS: usize> = arc_mutex::RateLimiter<MAX_SIMULTANEOUS>;

/// The error type for the default unfair trailing-edge rate limiter.
pub type Error = arc_mutex::Error;

} // verus!
