//! What is known of where articles are.
use nntp_proxy::cache::availability::{ArticleAvailability, BackendStatus};
use nntp_proxy::cache::location::{
    updated_availability, ArticleLocationCache, BackendAvailability,
};
use nntp_proxy::types::{BackendCount, BackendId, MessageId};

fn backend_count(count: usize) -> BackendCount {
    BackendCount::new(count)
}

#[test]
fn test_backend_availability_basic() {
    let mut avail = ArticleAvailability::new();
    let b0 = BackendId::from_index(0);
    let b1 = BackendId::from_index(1);

    // Default: assume all backends have it
    assert!(avail.should_try(b0));
    assert!(avail.should_try(b1));

    // Record b0 as missing (returned 430)
    avail.record_missing(b0);
    assert!(!avail.should_try(b0)); // Should not try again
    assert!(avail.should_try(b1)); // Still should try

    // Record b1 as missing too
    avail.record_missing(b1);
    assert!(!avail.should_try(b1));
}

#[test]
fn missing_backend_is_not_eligible() {
    let mut avail = ArticleAvailability::new();
    let b0 = BackendId::from_index(0);

    // First mark as missing
    avail.record_missing(b0);
    assert!(avail.is_missing(b0));

    assert!(avail.eligible_backend(b0).is_none());
}

#[test]
fn positive_proof_does_not_change_availability() {
    let mut cache_state = ArticleAvailability::new();
    let b0 = BackendId::from_index(0);
    let b1 = BackendId::from_index(1);

    cache_state.record_missing(b0);
    cache_state.record_missing(b1);
    assert!(cache_state.is_missing(b0));
    assert!(cache_state.is_missing(b1));

    let fresh = ArticleAvailability::new();
    let _positive_proof = fresh
        .eligible_backend(b0)
        .expect("backend is eligible before a 430");

    assert_eq!(cache_state.missing_bits(), 0b11);
}

#[test]
fn test_backend_availability_all_exhausted() {
    let mut avail = ArticleAvailability::new();

    // None missing yet
    assert!(!avail.all_exhausted(backend_count(2)));
    assert!(!avail.all_exhausted(backend_count(3)));

    // Record backends 0 and 1 as missing
    avail.record_missing(BackendId::from_index(0));
    avail.record_missing(BackendId::from_index(1));

    // All 2 backends exhausted
    assert!(avail.all_exhausted(backend_count(2)));

    // But not all 3 backends (backend 2 still untried)
    assert!(!avail.all_exhausted(backend_count(3)));
}

#[test]
fn test_backend_availability_empty() {
    let avail = BackendAvailability::new();
    assert_eq!(avail.as_u64(), 0);
    assert!(!avail.has_any());
    assert!(!avail.has_article(BackendId::from_index(0)));
}

#[test]
fn test_backend_availability_mark_available() {
    let mut avail = BackendAvailability::new();
    avail.mark_available(BackendId::from_index(0));
    avail.mark_available(BackendId::from_index(3));

    assert!(avail.has_any());
    assert!(avail.has_article(BackendId::from_index(0)));
    assert!(!avail.has_article(BackendId::from_index(1)));
    assert!(!avail.has_article(BackendId::from_index(2)));
    assert!(avail.has_article(BackendId::from_index(3)));

    assert_eq!(avail.as_u64(), 0b1001); // bits 0 and 3 set
}

#[test]
fn test_backend_availability_mark_unavailable() {
    let mut avail = BackendAvailability::new();
    avail.mark_available(BackendId::from_index(0));
    avail.mark_available(BackendId::from_index(1));
    avail.mark_unavailable(BackendId::from_index(0));

    assert!(avail.has_any());
    assert!(!avail.has_article(BackendId::from_index(0)));
    assert!(avail.has_article(BackendId::from_index(1)));
}

#[test]
fn test_backend_availability_available_backends() {
    let mut avail = BackendAvailability::new();
    avail.mark_available(BackendId::from_index(1));
    avail.mark_available(BackendId::from_index(3));
    avail.mark_available(BackendId::from_index(5));

    let backends = avail.available_backends(10);
    assert_eq!(backends.len(), 3);
    assert!(backends.contains(&BackendId::from_index(1)));
    assert!(backends.contains(&BackendId::from_index(3)));
    assert!(backends.contains(&BackendId::from_index(5)));
}

#[test]
fn test_cache_get_miss() {
    let cache = ArticleLocationCache::new(100, 3);
    let msg_id = MessageId::new("<test@example.com>".to_string()).unwrap();

    assert!(cache.get(&msg_id).is_none());
}

#[test]
fn test_cache_update() {
    let mut cache = ArticleLocationCache::new(100, 3);
    let msg_id = MessageId::new("<test@example.com>".to_string()).unwrap();

    // Update with backend 0 has it
    cache.update(&msg_id, BackendId::from_index(0), true);

    let avail = cache.get(&msg_id).unwrap();
    assert!(avail.has_article(BackendId::from_index(0)));
    assert!(!avail.has_article(BackendId::from_index(1)));

    // Update with backend 1 also has it
    cache.update(&msg_id, BackendId::from_index(1), true);

    let avail = cache.get(&msg_id).unwrap();
    assert!(avail.has_article(BackendId::from_index(0)));
    assert!(avail.has_article(BackendId::from_index(1)));
}

#[test]
fn test_cache_insert() {
    let mut cache = ArticleLocationCache::new(100, 3);
    let msg_id = MessageId::new("<test@example.com>".to_string()).unwrap();

    let mut avail = BackendAvailability::new();
    avail.mark_available(BackendId::from_index(0));
    avail.mark_available(BackendId::from_index(2));

    cache.insert(&msg_id, avail);

    let cached = cache.get(&msg_id).unwrap();
    assert!(cached.has_article(BackendId::from_index(0)));
    assert!(!cached.has_article(BackendId::from_index(1)));
    assert!(cached.has_article(BackendId::from_index(2)));
}

#[test]
fn test_cache_capacity() {
    let cache = ArticleLocationCache::new(1000, 3);
    assert_eq!(cache.capacity(), 1000);
    assert_eq!(cache.entry_count(), 0);
}

#[test]
fn test_cache_lru_eviction() {
    let mut cache = ArticleLocationCache::new(2, 3); // Only 2 entries

    let msg1 = MessageId::new("<msg1@example.com>".to_string()).unwrap();
    let msg2 = MessageId::new("<msg2@example.com>".to_string()).unwrap();
    let msg3 = MessageId::new("<msg3@example.com>".to_string()).unwrap();

    cache.update(&msg1, BackendId::from_index(0), true);
    cache.update(&msg2, BackendId::from_index(1), true);
    cache.update(&msg3, BackendId::from_index(2), true);

    // msg1 should be evicted (LRU)
    // Note: moka eviction may be async, so we can't strictly test this
    // but we can verify capacity is respected
    assert!(cache.entry_count() <= 2);
}

#[test]
fn a_location_cache_counts_no_more_than_was_put() {
    let mut cache = ArticleLocationCache::new(100, 3);
    assert_eq!(cache.entry_count(), 0);
    let id = MessageId::new("<same@example.com>".to_string()).unwrap();
    for backend in 0..3 {
        for _ in 0..200 {
            cache.update(&id, BackendId::from_index(backend), true);
        }
    }
    assert!(cache.entry_count() <= 1);
}

#[test]
fn merged_availability_misses_what_either_misses() {
    let mut a = ArticleAvailability::new();
    a.record_missing(BackendId::from_index(0));
    let mut b = ArticleAvailability::new();
    b.record_missing(BackendId::from_index(2));
    a.merge_from(&b);
    assert_eq!(a.missing_bits(), 0b101);
    assert!(a.has_availability_info());
    assert_eq!(a.status(BackendId::from_index(2)), BackendStatus::Missing);
    assert!(a.should_try(BackendId::from_index(1)));
}

#[test]
fn an_update_starts_from_what_is_known() {
    let fresh = updated_availability(None, BackendId::from_index(2), true);
    assert_eq!(fresh.as_u64(), 0b100);
    let known = BackendAvailability { bits: 0b101 };
    let less = updated_availability(Some(known), BackendId::from_index(0), false);
    assert_eq!(less.as_u64(), 0b100);
}

#[test]
fn a_location_cache_keeps_its_number_of_backends() {
    let cache = ArticleLocationCache::new(10, 7);
    assert_eq!(cache.num_backends(), 7);
}

#[test]
fn eligible_backends_are_the_ones_not_known_to_miss() {
    let mut facts = ArticleAvailability::new();
    facts.record_missing(BackendId::from_index(1));
    assert_eq!(facts.as_usize(), 0b10);
    assert!(facts.eligible_backend(BackendId::from_index(1)).is_none());
    let backend = facts.eligible_backend(BackendId::from_index(2)).unwrap();
    assert_eq!(backend.as_index(), 2);
    assert_eq!(backend.positive_observation().backend_id(), backend.backend_id());
}

#[test]
fn merging_joins_what_is_known() {
    let mut one = ArticleAvailability::from_bits(0b1, 0b1);
    one.merge_from(&ArticleAvailability::from_bits(0b100, 0b100));
    assert_eq!(one.missing_bits(), 0b101);
    assert_eq!(one.checked_bits(), 0b101);
    assert!(!one.any_backend_has_article());
}

#[test]
fn asking_one_backend_after_another_ends() {
    let count = BackendCount::new(3);
    let mut facts = ArticleAvailability::new();
    for asked in 0..3 {
        assert!(!facts.all_exhausted(count));
        let next = (0..3)
            .find_map(|i| facts.eligible_backend(BackendId::from_index(i)))
            .unwrap();
        assert_eq!(next.as_index(), asked);
        facts.record_missing(next.backend_id());
    }
    assert!(facts.all_exhausted(count));
}

#[test]
fn a_location_cache_with_room_forgets_nothing() {
    let mut cache = ArticleLocationCache::new(500, 8);
    for round in 0..4 {
        for i in 0..500 {
            let id = MessageId::new(format!("<{i}@example.com>")).unwrap();
            cache.update(&id, BackendId::from_index(round), true);
        }
    }
    for i in 0..500 {
        let id = MessageId::new(format!("<{i}@example.com>")).unwrap();
        assert_eq!(cache.get(&id).unwrap().as_u64(), 0b1111);
    }
    let other = MessageId::new("<other@example.com>".to_string()).unwrap();
    assert!(cache.get(&other).is_none());
}
