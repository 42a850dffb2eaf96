//! Client-side rate limiting of the listening service's API: the quota that
//! the last response reported decides how long to wait before the next call.
use vstd::prelude::*;

verus! {

/// Calls a fresh limiter assumes are left.
pub const INITIAL_REMAINING: u64 = 30;

/// Below this many remaining calls the limiter waits for the reset.
pub const LOW_REMAINING: u64 = 2;

/// Shortest wait, in milliseconds, once the limiter throttles.
pub const MIN_WAIT_MS: u64 = 100;

/// Remaining quota and the time (Unix seconds) at which it resets.
pub struct RateLimiter {
    pub remaining: u64,
    pub reset_at: i64,
}

/// Milliseconds to wait at `now`: none unless the quota is nearly spent and
/// the reset lies ahead; then until the reset, at least `MIN_WAIT_MS`, at
/// most `u64::MAX`.
pub open spec fn wait_for(remaining: u64, reset_at: int, now: int) -> int {
    if remaining < LOW_REMAINING && now < reset_at {
        let ms = (reset_at - now) * 1000;
        if ms > u64::MAX {
            u64::MAX as int
        } else if ms < MIN_WAIT_MS {
            MIN_WAIT_MS as int
        } else {
            ms
        }
    } else {
        0
    }
}

impl RateLimiter {
    pub fn new() -> (r: RateLimiter)
        ensures
            r.remaining == INITIAL_REMAINING,
            r.reset_at == 0,
    {
        RateLimiter { remaining: INITIAL_REMAINING, reset_at: 0 }
    }

    /// How long to wait before the next call at `now`, in milliseconds.
    pub fn should_throttle(&self, now: i64) -> (ms: u64)
        ensures
            ms as int == wait_for(self.remaining, self.reset_at as int, now as int),
    {
        if self.remaining < LOW_REMAINING && now < self.reset_at {
            let ms: i128 = (self.reset_at as i128 - now as i128) * 1000;
            if ms > u64::MAX as i128 {
                u64::MAX
            } else if ms < MIN_WAIT_MS as i128 {
                MIN_WAIT_MS
            } else {
                ms as u64
            }
        } else {
            0
        }
    }

    /// Takes in the quota headers of a response; a missing or unreadable
    /// header leaves its value as it was.
    pub fn observe(&mut self, remaining: Option<u64>, reset_at: Option<i64>)
        ensures
            final(self).remaining == match remaining {
                Some(v) => v,
                None => old(self).remaining,
            },
            final(self).reset_at == match reset_at {
                Some(v) => v,
                None => old(self).reset_at,
            },
    {
        if let Some(v) = remaining {
            self.remaining = v;
        }
        if let Some(v) = reset_at {
            self.reset_at = v;
        }
    }
}

} // verus!
