//! Lifetimes of cache entries.
use nntp_proxy::cache::ttl::{
    clamp_millis, effective_ttl, is_expired, is_expired_at, now_millis, ttl_multiplier, CacheTier,
    CacheTimestampMillis, CacheTtlMillis,
};
use nntp_proxy::types::Duration;

fn effective_ttl_ms(base: u64, tier: CacheTier) -> u64 {
    effective_ttl(CacheTtlMillis::new(base), tier).get()
}

fn is_expired_ms(inserted: u64, base: u64, tier: CacheTier) -> bool {
    is_expired(CacheTimestampMillis::new(inserted), CacheTtlMillis::new(base), tier)
}

#[test]
fn effective_ttl_tier_0_is_base() {
    assert_eq!(effective_ttl_ms(1000, CacheTier::new(0)), 1000);
    assert_eq!(effective_ttl_ms(0, CacheTier::new(0)), 0);
    assert_eq!(effective_ttl_ms(1, CacheTier::new(0)), 1);
}

#[test]
fn effective_ttl_tier_1_is_2x() {
    assert_eq!(effective_ttl_ms(1000, CacheTier::new(1)), 2000);
    assert_eq!(effective_ttl_ms(500, CacheTier::new(1)), 1000);
}

#[test]
fn effective_ttl_tier_2_is_4x() {
    assert_eq!(effective_ttl_ms(1000, CacheTier::new(2)), 4000);
}

#[test]
fn effective_ttl_tier_3_is_8x() {
    assert_eq!(effective_ttl_ms(1000, CacheTier::new(3)), 8000);
}

#[test]
fn effective_ttl_tier_7_is_128x() {
    assert_eq!(effective_ttl_ms(1000, CacheTier::new(7)), 128_000);
}

#[test]
fn effective_ttl_tier_10_is_1024x() {
    assert_eq!(effective_ttl_ms(1000, CacheTier::new(10)), 1_024_000);
}

#[test]
fn effective_ttl_caps_at_tier_63() {
    let tier_63_result = effective_ttl_ms(1, CacheTier::new(63));
    assert_eq!(tier_63_result, 1u64 << 63);
    // Tiers above 63 should give same result
    assert_eq!(effective_ttl_ms(1, CacheTier::new(64)), tier_63_result);
    assert_eq!(effective_ttl_ms(1, CacheTier::new(100)), tier_63_result);
    assert_eq!(effective_ttl_ms(1, CacheTier::new(255)), tier_63_result);
}

#[test]
fn effective_ttl_saturates_on_overflow() {
    // Very large base TTL with high tier shouldn't overflow
    assert_eq!(effective_ttl_ms(u64::MAX, CacheTier::new(0)), u64::MAX);
    assert_eq!(effective_ttl_ms(u64::MAX, CacheTier::new(1)), u64::MAX);
    assert_eq!(effective_ttl_ms(u64::MAX, CacheTier::new(63)), u64::MAX);

    // Large value that would overflow without saturation
    // u64::MAX / 2 + 1 times 2 would overflow
    assert_eq!(
        effective_ttl_ms(u64::MAX / 2 + 1, CacheTier::new(1)),
        u64::MAX
    );
}

#[test]
fn effective_ttl_zero_base() {
    // Zero TTL should stay zero regardless of tier
    assert_eq!(effective_ttl_ms(0, CacheTier::new(0)), 0);
    assert_eq!(effective_ttl_ms(0, CacheTier::new(1)), 0);
    assert_eq!(effective_ttl_ms(0, CacheTier::new(63)), 0);
    assert_eq!(effective_ttl_ms(0, CacheTier::new(255)), 0);
}

#[test]
fn ttl_multiplier_values() {
    assert_eq!(ttl_multiplier(CacheTier::new(0)), 1);
    assert_eq!(ttl_multiplier(CacheTier::new(1)), 2);
    assert_eq!(ttl_multiplier(CacheTier::new(2)), 4);
    assert_eq!(ttl_multiplier(CacheTier::new(3)), 8);
    assert_eq!(ttl_multiplier(CacheTier::new(4)), 16);
    assert_eq!(ttl_multiplier(CacheTier::new(5)), 32);
    assert_eq!(ttl_multiplier(CacheTier::new(6)), 64);
    assert_eq!(ttl_multiplier(CacheTier::new(7)), 128);
    assert_eq!(ttl_multiplier(CacheTier::new(10)), 1024);
    assert_eq!(ttl_multiplier(CacheTier::new(63)), 1u64 << 63);
}

#[test]
fn ttl_multiplier_caps_at_tier_63() {
    let max = 1u64 << 63;
    assert_eq!(ttl_multiplier(CacheTier::new(64)), max);
    assert_eq!(ttl_multiplier(CacheTier::new(100)), max);
    assert_eq!(ttl_multiplier(CacheTier::new(255)), max);
}

#[test]
fn is_expired_fresh_entry() {
    let now = now_millis();
    assert!(!is_expired_ms(now, 1000, CacheTier::new(0))); // Just inserted, 1s TTL
    assert!(!is_expired_ms(now, 100, CacheTier::new(0))); // Just inserted, 100ms TTL (1ms too tight for test timing)
}

#[test]
fn is_expired_old_entry() {
    let old = now_millis().saturating_sub(2000);
    assert!(is_expired_ms(old, 1000, CacheTier::new(0))); // 2s ago, 1s TTL = expired
    assert!(is_expired_ms(old, 1999, CacheTier::new(0))); // 2s ago, 1.999s TTL = expired
}

#[test]
fn is_expired_boundary() {
    let inserted = now_millis().saturating_sub(1000);
    // Exactly at TTL boundary - should be expired (>= comparison)
    assert!(is_expired_ms(inserted, 1000, CacheTier::new(0)));
    // Well under TTL - not expired (use 2000ms to avoid test timing issues)
    assert!(!is_expired_ms(inserted, 2000, CacheTier::new(0)));
}

#[test]
fn is_expired_respects_tier() {
    let inserted = now_millis().saturating_sub(1500);
    // 1.5s ago with 1s base TTL
    assert!(is_expired_ms(inserted, 1000, CacheTier::new(0))); // 1s TTL - expired
    assert!(!is_expired_ms(inserted, 1000, CacheTier::new(1))); // 2s TTL - not expired
    assert!(!is_expired_ms(inserted, 1000, CacheTier::new(2))); // 4s TTL - not expired
}

#[test]
fn is_expired_high_tier_extends_ttl() {
    let inserted = now_millis().saturating_sub(100_000); // 100s ago
    // With 1s base TTL
    assert!(is_expired_ms(inserted, 1000, CacheTier::new(0))); // 1s TTL - expired
    assert!(is_expired_ms(inserted, 1000, CacheTier::new(1))); // 2s TTL - expired
    assert!(is_expired_ms(inserted, 1000, CacheTier::new(5))); // 32s TTL - expired
    assert!(is_expired_ms(inserted, 1000, CacheTier::new(6))); // 64s TTL - expired
    assert!(!is_expired_ms(inserted, 1000, CacheTier::new(7))); // 128s TTL - not expired
    assert!(!is_expired_ms(inserted, 1000, CacheTier::new(10))); // 1024s TTL - not expired
}

#[test]
fn is_expired_zero_ttl() {
    let now = now_millis();
    // Zero TTL = everything expires immediately
    assert!(is_expired_ms(now, 0, CacheTier::new(0)));
    assert!(is_expired_ms(now, 0, CacheTier::new(63))); // Even with tier 63, 0 * 2^63 = 0
}

#[test]
fn is_expired_future_timestamp() {
    // Edge case: timestamp in the future (clock skew)
    let future = now_millis().saturating_add(10000);
    // Should not be expired - elapsed would be 0 due to saturating_sub
    assert!(!is_expired_ms(future, 1000, CacheTier::new(0)));
}

#[test]
fn now_millis_is_reasonable() {
    let now = now_millis();
    // Sanity check: should be after 2024-01-01 (roughly 1704067200000 ms)
    // No upper bound to avoid time-bomb failures as years pass
    assert!(now > 1_700_000_000_000);
}

#[test]
fn now_millis_is_monotonic() {
    let t1 = now_millis();
    let t2 = now_millis();
    assert!(t2 >= t1);
}

#[test]
fn an_expired_entry_stays_expired() {
    let inserted = CacheTimestampMillis::new(1_000);
    let ttl = CacheTtlMillis::new(500);
    let tier = CacheTier::new(1);
    assert!(!is_expired_at(1_999, inserted, ttl, tier));
    assert!(is_expired_at(2_000, inserted, ttl, tier));
    assert!(is_expired_at(u64::MAX, inserted, ttl, tier));
}

#[test]
fn a_higher_tier_lives_at_least_as_long() {
    let ttl = CacheTtlMillis::new(700);
    for tier in 0..255u8 {
        assert!(
            effective_ttl(ttl, CacheTier::new(tier)) <= effective_ttl(ttl, CacheTier::new(tier + 1))
        );
    }
}

#[test]
fn a_lifetime_is_cut_to_whole_milliseconds() {
    assert_eq!(
        CacheTtlMillis::from_duration(Duration::from_millis(1_500)).get(),
        1_500
    );
    assert_eq!(
        CacheTtlMillis::from_duration(Duration::from_secs(2)).get(),
        2_000
    );
    assert_eq!(
        CacheTtlMillis::from_duration(Duration::max_value()).get(),
        u64::MAX
    );
}

#[test]
fn milliseconds_stop_at_the_largest_value() {
    assert_eq!(clamp_millis(0), 0);
    assert_eq!(clamp_millis(u64::MAX as u128), u64::MAX);
    assert_eq!(clamp_millis(u64::MAX as u128 + 1), u64::MAX);
    assert_eq!(clamp_millis(u128::MAX), u64::MAX);
}
