//! Rate limiters whose cooldown starts when a permit is returned.

pub mod unfair;

use vstd::prelude::*;

verus! {

/// The default trailing-edge rate limiter.
pub type RateLimiter<const MAX_SIMULTANEOUS: usize> = unfair::RateLimiter<MAX_SIMULTANEOUS>;

/// The error type for the default trailing-edge rate limiter.
pub type Error = unfair::Error;

} // verus!
