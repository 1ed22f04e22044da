//! The decisions of the cache with a memory and a disk tier.
use nntp_proxy::cache::availability::ArticleAvailability;
use nntp_proxy::cache::hybrid::{
    create_stub, hybrid_record_missing, hybrid_sync, hybrid_upsert, is_disk_full,
    judge_hybrid_lookup, tier_capacities, HybridCacheConfig, HybridCacheError, HybridLookup,
    StoredEntry,
};
use nntp_proxy::cache::hybrid_codec::HybridArticleEntry;
use nntp_proxy::cache::ttl::{CacheTier, CacheTimestampMillis};
use nntp_proxy::protocol::RequestKind;
use nntp_proxy::types::{BackendId, Duration, MessageId};
use std::collections::BTreeMap;

const NOW: CacheTimestampMillis = CacheTimestampMillis { value: 1_000 };

/// A cache of entries by message identifier, as they are stored.
struct Store {
    entries: BTreeMap<String, Vec<u8>>,
    hits: u64,
    misses: u64,
}

impl Store {
    fn new() -> Self {
        Store { entries: BTreeMap::new(), hits: 0, misses: 0 }
    }

    fn stored(&self, id: &MessageId) -> Option<StoredEntry> {
        let data = self.entries.get(id.without_brackets())?;
        Some(StoredEntry::decode(data).unwrap())
    }

    fn get(&mut self, id: &MessageId) -> Option<HybridArticleEntry> {
        match judge_hybrid_lookup(self.stored(id).map(|s| s.entry), 60_000, NOW.get()) {
            HybridLookup::Hit(entry) => {
                self.hits += 1;
                Some(entry)
            }
            HybridLookup::Miss => {
                self.misses += 1;
                None
            }
        }
    }

    fn put(&mut self, id: &MessageId, entry: StoredEntry) {
        self.entries
            .insert(id.without_brackets().to_string(), entry.encode().unwrap());
    }

    fn upsert(&mut self, id: &MessageId, response: &[u8], backend: usize) {
        let entry = hybrid_upsert(
            self.stored(id),
            true,
            response,
            BackendId::from_index(backend),
            CacheTier::new(0),
            NOW,
        );
        if let Some(entry) = entry {
            self.put(id, entry);
        }
    }

    fn record_missing(&mut self, id: &MessageId, backend: usize) {
        let entry = hybrid_record_missing(self.stored(id), BackendId::from_index(backend), NOW);
        self.put(id, entry);
    }
}

fn msgid(value: &str) -> MessageId {
    MessageId::from_borrowed(value).unwrap()
}

fn assert_article(entry: &HybridArticleEntry, message_id: &MessageId, expected: &[u8]) {
    let response = entry
        .response_parts_for_request_kind(RequestKind::Article, message_id.as_str())
        .unwrap();
    assert_eq!(response.to_bytes(), expected);
}

fn assert_availability(entry: &HybridArticleEntry, cases: &[(usize, bool)]) {
    for (backend_index, should_try) in cases {
        assert_eq!(
            entry.should_try_backend(BackendId::from_index(*backend_index)),
            *should_try,
            "backend {backend_index}"
        );
    }
}

#[test]
fn upsert_keeps_existing_semantic_payload_over_longer_metadata_only_response() {
    let mut cache = Store::new();
    let id = msgid("<mock-hybrid@example>");
    cache.upsert(
        &id,
        b"220 1 <mock-hybrid@example>\r\nH: V\r\n\r\nBody\r\n.\r\n",
        0,
    );
    cache.upsert(
        &id,
        b"220 1 <mock-hybrid@example> long status line without payload\r\n",
        1,
    );
    let entry = cache.get(&id).expect("entry remains cached");
    assert!(entry
        .response_parts_for_request_kind(RequestKind::Article, "<mock-hybrid@example>")
        .is_some());
    assert!(entry.should_try_backend(BackendId::from_index(1)));
}

#[test]
fn basic_ops() {
    let mut cache = Store::new();
    let message_id = msgid("<test@example.com>");
    let buffer = b"220 0 <test@example.com>\r\nSubject: Test\r\n\r\nBody\r\n.\r\n";
    cache.upsert(&message_id, buffer, 0);
    assert_article(&cache.get(&message_id).expect("Entry should exist"), &message_id, buffer);
    assert_eq!(cache.hits, 1);
    assert_eq!(cache.misses, 0);
}

#[test]
fn upsert_accepts_borrowed_backend_bytes() {
    let mut cache = Store::new();
    let message_id = msgid("<borrowed@example.com>");
    let buffer = b"220 0 <borrowed@example.com>\r\nSubject: Test\r\n\r\nBody\r\n.\r\n";
    cache.upsert(&message_id, buffer.as_slice(), 0);
    assert_article(&cache.get(&message_id).expect("cached entry"), &message_id, buffer);
}

#[test]
fn cache_miss_updates_stats() {
    let mut cache = Store::new();
    assert!(cache.get(&msgid("<nonexistent@example.com>")).is_none());
    assert_eq!(cache.hits, 0);
    assert_eq!(cache.misses, 1);
}

#[test]
fn upsert_preserves_larger_buffer() {
    let mut cache = Store::new();
    let message_id = msgid("<test@example.com>");
    let large_buffer =
        b"220 0 <test@example.com>\r\nSubject: Test\r\n\r\nLarge body content here\r\n.\r\n";
    cache.upsert(&message_id, large_buffer, 0);
    cache.upsert(&message_id, b"223 0 <test@example.com>\r\n", 1);
    let entry = cache.get(&message_id).unwrap();
    assert_article(&entry, &message_id, large_buffer);
    assert_availability(&entry, &[(0, true), (1, true)]);
}

#[test]
fn record_missing_creates_availability_entry() {
    let mut cache = Store::new();
    let message_id = msgid("<missing@example.com>");
    cache.record_missing(&message_id, 0);
    let entry = cache.get(&message_id).unwrap();
    assert_availability(&entry, &[(0, false), (1, true)]);
}

#[test]
fn tracks_availability() {
    let mut cache = Store::new();
    let message_id = msgid("<avail@example.com>");
    cache.upsert(&message_id, b"220 0 <avail@example.com>\r\nBody\r\n.\r\n", 0);
    cache.record_missing(&message_id, 1);
    cache.record_missing(&message_id, 2);
    let entry = cache.get(&message_id).unwrap();
    assert_availability(&entry, &[(0, true), (1, false), (2, false), (3, true)]);
}

#[test]
fn test_hybrid_cache_basic() {
    let mut cache = Store::new();
    let id = msgid("<test123@example.com>");
    let buffer = b"220 0 <test123@example.com>\r\nSubject: Test\r\n\r\nBody\r\n.\r\n";
    cache.upsert(&id, buffer, 0);
    let entry = cache.get(&msgid("<test123@example.com>")).unwrap();
    assert_article(&entry, &id, buffer);
    assert!(entry.should_try_backend(BackendId::from_index(0)));
    assert_eq!(cache.hits, 1);
    assert_eq!(cache.misses, 0);
}

#[test]
fn test_hybrid_cache_availability_tracking() {
    let mut cache = Store::new();
    let id = msgid("<missing@example.com>");
    cache.record_missing(&id, 0);
    let entry = cache.get(&id).unwrap();
    assert!(!entry.should_try_backend(BackendId::from_index(0)));
    assert!(entry.should_try_backend(BackendId::from_index(1)));
}

fn config(memory: u64, disk: u64) -> HybridCacheConfig {
    HybridCacheConfig {
        memory_capacity: memory,
        disk_capacity: disk,
        disk_path: "/var/cache/nntp".to_string(),
        ttl: Duration::from_secs(60),
        cache_articles: true,
        compression: true,
        shards: 4,
    }
}

#[test]
fn a_disk_without_room_is_refused() {
    let gigabyte = 1024 * 1024 * 1024;
    let cache = config(100, 10 * gigabyte);
    assert_eq!(tier_capacities(&cache, None), Ok((100, 10 * gigabyte as usize)));
    assert_eq!(
        tier_capacities(&cache, Some(10 * gigabyte)),
        Ok((100, 10 * gigabyte as usize))
    );
    let refusal = tier_capacities(&cache, Some(4 * gigabyte)).unwrap_err();
    assert_eq!(
        refusal,
        HybridCacheError::InsufficientSpace(10 * gigabyte, 4 * gigabyte)
    );
    let text = refusal.message("/var/cache/nntp");
    assert!(text.contains("Path: /var/cache/nntp\n"));
    assert!(text.contains("Required: 10 GB\nAvailable: 4 GB\n"));
    assert!(text.contains("Free up 6 GB"));
}

#[test]
fn a_full_disk_is_recognised_by_its_words() {
    assert!(is_disk_full("write: No space left on device"));
    assert!(is_disk_full("ENOSPC"));
    assert!(!is_disk_full("permission denied"));
}

#[test]
fn old_entries_are_not_served() {
    let entry = || {
        HybridArticleEntry::from_wire_response_at(
            b"223 0 <a@b>\r\n",
            CacheTier::new(1),
            NOW,
        )
    };
    assert!(matches!(
        judge_hybrid_lookup(entry(), 1_000, 2_999),
        HybridLookup::Hit(_)
    ));
    assert!(matches!(
        judge_hybrid_lookup(entry(), 1_000, 3_000),
        HybridLookup::Miss
    ));
    assert!(matches!(judge_hybrid_lookup(None, 1_000, 0), HybridLookup::Miss));
}

#[test]
fn stubs_hold_the_first_line() {
    assert_eq!(create_stub(b"220 0 <a@b>\r\nBody\r\n.\r\n"), b"220 0 <a@b>\r\n");
    assert_eq!(create_stub(b"220 no line end"), b"220\r\n");
    assert_eq!(create_stub(b"22"), b"22");
}

#[test]
fn without_bodies_an_article_is_only_known_to_be_there() {
    let entry = hybrid_upsert(
        None,
        false,
        b"220 0 <a@b>\r\nS: T\r\n\r\nBody\r\n.\r\n",
        BackendId::from_index(0),
        CacheTier::new(0),
        NOW,
    )
    .unwrap();
    assert!(!entry.entry.is_complete_article());
    assert_eq!(entry.response_len, 13);
    assert!(hybrid_upsert(
        None,
        true,
        b"200 hello\r\n",
        BackendId::from_index(0),
        CacheTier::new(0),
        NOW,
    )
    .is_none());
}

#[test]
fn gathered_facts_join_the_entry() {
    assert!(hybrid_sync(None, &ArticleAvailability::new(), NOW).is_none());
    let mut facts = ArticleAvailability::new();
    facts.record_missing(BackendId::from_index(2));
    let fresh = hybrid_sync(None, &facts, NOW).unwrap();
    assert_eq!(fresh.entry.availability().missing_bits(), 0b100);
    let stored = hybrid_record_missing(None, BackendId::from_index(0), NOW);
    let joined = hybrid_sync(Some(stored), &facts, NOW).unwrap();
    assert_eq!(joined.entry.availability().missing_bits(), 0b101);
}

#[test]
fn a_longer_response_is_not_overwritten_by_a_shorter_one() {
    let put = |old, response: &[u8], tier| {
        hybrid_upsert(
            old,
            true,
            response,
            BackendId::from_index(0),
            CacheTier::new(tier),
            NOW,
        )
    };
    let long = put(None, b"223 0 <a@b> ok\r\n", 2).unwrap();
    assert_eq!(long.response_len, 16);
    let kept = put(Some(long.clone()), b"223 0 <a@b>\r\n", 0).unwrap();
    assert_eq!(kept.entry.tier().get(), 2);
    assert_eq!(kept.response_len, 16);
    let replaced = put(Some(long.clone()), b"223 0 <a@b> fine\r\n", 0).unwrap();
    assert_eq!(replaced.entry.tier().get(), 0);
    assert_eq!(replaced.response_len, 18);
    assert!(long.stays(b"no answer"));
    // With nothing larger there, an answer that is not cached changes nothing.
    assert!(put(None, b"200 hello\r\n", 0).is_none());
    assert!(put(Some(long), b"200 a greeting that is long\r\n", 0).is_none());
}

#[test]
fn a_payload_stays_for_a_stub_only() {
    let put = |old, response: &[u8], tier| {
        hybrid_upsert(
            old,
            true,
            response,
            BackendId::from_index(0),
            CacheTier::new(tier),
            NOW,
        )
    };
    // Two responses of one length; the second has more of it in its status line.
    let old = put(None, b"222 0 <a@b> ok\r\nBody text\r\n.\r\n", 2).unwrap();
    assert_eq!(old.entry.payload_len().get(), 9);
    let text = b"222 0 <a@b> fine\r\nSmaller\r\n.\r\n";
    assert_eq!(text.len() as u64, old.response_len);
    assert!(!old.stays(text));
    let replaced = put(Some(old.clone()), text, 0).unwrap();
    assert_eq!(replaced.entry.payload_len().get(), 7);
    assert_eq!(replaced.entry.tier().get(), 0);
    // A stub does not replace it, however long its line is.
    let stub = b"223 0 <a@b> a line that is longer than the article\r\n";
    assert!(stub.len() as u64 > old.response_len);
    assert!(old.stays(stub));
    let kept = put(Some(old.clone()), stub, 0).unwrap();
    assert_eq!(kept.entry.payload_len().get(), 9);
    assert_eq!(kept.entry.tier().get(), 2);
    // What is no answer that is cached is no stub, and changes nothing.
    let greeting = b"200 a greeting that is longer than the article\r\n";
    assert!(!old.stays(greeting));
    assert!(put(Some(old), greeting, 0).is_none());
}

#[test]
fn the_stored_record_is_exact() {
    let mut record = hybrid_record_missing(None, BackendId::from_index(1), NOW);
    record.response_len = 0x0102;
    let data = record.encode().unwrap();
    assert_eq!(data[..8], [2, 1, 0, 0, 0, 0, 0, 0]);
    assert_eq!(data[8..], record.entry.encode().unwrap());
    let read = StoredEntry::decode(&data).unwrap();
    assert_eq!(read.response_len, 0x0102);
    assert!(!read.entry.should_try_backend(BackendId::from_index(1)));
    assert!(StoredEntry::decode(&data[..7]).is_err());
    assert!(StoredEntry::decode(&data[..20]).is_err());
    assert_eq!(hybrid_record_missing(None, BackendId::from_index(0), NOW).response_len, 5);
}
