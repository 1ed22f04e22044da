//! Default values of configuration fields.
use crate::text::string_of;
use crate::types::{CacheCapacity, Duration, MaxConnections, MaxErrors};
use vstd::prelude::*;

verus! {

/// Connections that one health-check cycle looks at.
pub const MAX_CONNECTIONS_PER_HEALTH_CHECK_CYCLE: usize = 5;

/// How long a health check waits for a pooled connection, in milliseconds.
pub const HEALTH_CHECK_POOL_TIMEOUT_MS: u64 = 100;

/// Keep-alive intervals below this many seconds are not recommended.
pub const MIN_RECOMMENDED_KEEPALIVE_SECS: u64 = 30;

/// Keep-alive intervals above this many seconds are not recommended.
pub const MAX_RECOMMENDED_KEEPALIVE_SECS: u64 = 300;

/// Connections per server.
pub fn max_connections() -> (r: MaxConnections)
    ensures
        r@ == 10,
{
    MaxConnections::new(10).unwrap()
}

pub fn health_check_interval() -> (r: Duration)
    ensures
        r@ == 30_000_000_000,
{
    Duration::from_secs(30)
}

pub fn health_check_timeout() -> (r: Duration)
    ensures
        r@ == 5_000_000_000,
{
    Duration::from_secs(5)
}

pub fn unhealthy_threshold() -> (r: MaxErrors)
    ensures
        r@ == 3,
{
    MaxErrors::new(3).unwrap()
}

/// Number of articles that the cache holds.
pub fn cache_max_capacity() -> (r: CacheCapacity)
    ensures
        r@ == 10_000,
{
    CacheCapacity::new(10_000).unwrap()
}

/// One hour.
pub fn cache_ttl() -> (r: Duration)
    ensures
        r@ == 3600 * 1_000_000_000,
{
    Duration::from_secs(3600)
}

/// Article bodies are cached.
pub fn cache_articles() -> (r: bool)
    ensures
        r,
{
    true
}

/// Availability is not checked ahead of requests.
pub fn adaptive_precheck() -> (r: bool)
    ensures
        !r,
{
    false
}

/// Certificates are verified.
pub fn tls_verify_cert() -> (r: bool)
    ensures
        r,
{
    true
}

pub fn health_check_max_per_cycle() -> (r: usize)
    ensures
        r == MAX_CONNECTIONS_PER_HEALTH_CHECK_CYCLE,
        r == 5,
{
    MAX_CONNECTIONS_PER_HEALTH_CHECK_CYCLE
}

pub fn health_check_pool_timeout() -> (r: Duration)
    ensures
        r@ == HEALTH_CHECK_POOL_TIMEOUT_MS * 1_000_000,
        r@ == 100_000_000,
{
    Duration::from_millis(HEALTH_CHECK_POOL_TIMEOUT_MS)
}

/// Directory of the disk cache.
pub fn disk_cache_path() -> (r: String)
    ensures
        r@ == "/var/cache/nntp-proxy"@,
{
    string_of("/var/cache/nntp-proxy")
}

/// Ten binary gigabytes.
pub fn disk_cache_capacity() -> (r: CacheCapacity)
    ensures
        r@ == 10 * 1024 * 1024 * 1024,
{
    CacheCapacity::new(10_737_418_240).unwrap()
}

/// Disk entries are compressed.
pub fn disk_cache_compression() -> (r: bool)
    ensures
        r,
{
    true
}

pub fn disk_cache_shards() -> (r: usize)
    ensures
        r == 4,
{
    4
}

} // verus!
