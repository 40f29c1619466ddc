//! Rate limits for the categories of HTTP endpoint.

use vstd::prelude::*;
use crate::security::RateLimitConfig;

verus! {

/// Health checks: 300 a minute, 50 in a burst.
pub fn health_check() -> (r: RateLimitConfig)
    ensures
        r == (RateLimitConfig { requests_per_minute: 300, burst_size: 50 }),
{
    RateLimitConfig { requests_per_minute: 300, burst_size: 50 }
}

/// Reads: 100 a minute, 20 in a burst.
pub fn api_read() -> (r: RateLimitConfig)
    ensures
        r == (RateLimitConfig { requests_per_minute: 100, burst_size: 20 }),
{
    RateLimitConfig { requests_per_minute: 100, burst_size: 20 }
}

/// Writes: 30 a minute, 5 in a burst.
pub fn api_write() -> (r: RateLimitConfig)
    ensures
        r == (RateLimitConfig { requests_per_minute: 30, burst_size: 5 }),
{
    RateLimitConfig { requests_per_minute: 30, burst_size: 5 }
}

/// Sensitive operations: 10 a minute, 2 in a burst.
pub fn api_sensitive() -> (r: RateLimitConfig)
    ensures
        r == (RateLimitConfig { requests_per_minute: 10, burst_size: 2 }),
{
    RateLimitConfig { requests_per_minute: 10, burst_size: 2 }
}

/// WebSocket traffic: 200 a minute, 30 in a burst.
pub fn websocket() -> (r: RateLimitConfig)
    ensures
        r == (RateLimitConfig { requests_per_minute: 200, burst_size: 30 }),
{
    RateLimitConfig { requests_per_minute: 200, burst_size: 30 }
}

/// Static files: 500 a minute, 100 in a burst.
pub fn static_files() -> (r: RateLimitConfig)
    ensures
        r == (RateLimitConfig { requests_per_minute: 500, burst_size: 100 }),
{
    RateLimitConfig { requests_per_minute: 500, burst_size: 100 }
}

} // verus!
