//! Cache entries of articles and the decisions about them.
use nntp_proxy::cache::article::{
    entry_template, entry_weight, judge_lookup, merge_response, record_missing, record_status,
    sync_facts, CacheLookup, CachedArticle, SyncAction,
};
use nntp_proxy::cache::availability::ArticleAvailability;
use nntp_proxy::cache::ingest::{CacheIngestBytes, ChunkedResponse, InlineBytes};
use nntp_proxy::cache::payload::{CachedPayload, CachedPayloadKind};
use nntp_proxy::cache::ttl::{CacheTier, CacheTimestampMillis, CacheTtlMillis};
use nntp_proxy::protocol::{RequestKind, ResponseWireLen, StatusCode};
use nntp_proxy::types::{BackendCount, BackendId, MessageId};
use std::collections::BTreeMap;
use std::sync::Arc;

fn cached_article_from_backend_response(buffer: impl AsRef<[u8]>) -> CachedArticle {
    CachedArticle::from_backend_response_with_tier(buffer.as_ref(), CacheTier::new(0))
}

fn create_test_cached_article(msgid: &str) -> CachedArticle {
    let buffer = format!("220 0 {msgid}\r\nSubject: Test\r\n\r\nBody\r\n.\r\n").into_bytes();
    cached_article_from_backend_response(buffer)
}

fn rendered(entry: &CachedArticle, request_kind: RequestKind, msgid: &str) -> Vec<u8> {
    let response = entry.cached_response_for(request_kind, msgid).unwrap();
    let out = response.to_bytes();
    assert_eq!(out.len(), response.wire_len().get());
    out
}

fn serves(entry: &CachedArticle, request_kind: RequestKind, msgid: &str) -> bool {
    entry.cached_response_for(request_kind, msgid).is_some()
}

fn assert_serves(entry: &CachedArticle, cases: &[(RequestKind, bool)]) {
    cases.iter().for_each(|(request_kind, expected)| {
        assert_eq!(
            serves(entry, *request_kind, "<test@example.com>"),
            *expected,
            "serve decision for {request_kind:?}"
        );
    });
}

#[test]
fn cached_article_response_exposes_typed_wire_len() {
    let entry = create_test_cached_article("<test@example.com>");
    let response = entry
        .cached_response_for(RequestKind::Stat, "<test@example.com>")
        .unwrap();

    assert_eq!(
        response.wire_len(),
        ResponseWireLen::new(26)
    );
}

#[test]
fn body_payload_serves_body_and_stat_only() {
    let entry = cached_article_from_backend_response(
        b"222 0 <test@example.com>\r\nBody content only\r\n.\r\n",
    );

    assert_serves(
        &entry,
        &[
            (RequestKind::Article, false),
            (RequestKind::Body, true),
            (RequestKind::Head, false),
            (RequestKind::Stat, true),
        ],
    );
}

#[test]
fn article_payload_serves_article_head_body_and_stat() {
    let entry = cached_article_from_backend_response(
        b"220 0 <test@example.com>\r\nSubject: Test\r\n\r\nBody\r\n.\r\n",
    );

    assert_serves(
        &entry,
        &[
            (RequestKind::Article, true),
            (RequestKind::Body, true),
            (RequestKind::Head, true),
            (RequestKind::Stat, true),
        ],
    );
}

#[test]
fn head_payload_serves_head_and_stat_only() {
    let entry = cached_article_from_backend_response(
        b"221 0 <test@example.com>\r\nSubject: Test\r\n.\r\n",
    );

    assert_serves(
        &entry,
        &[
            (RequestKind::Article, false),
            (RequestKind::Body, false),
            (RequestKind::Head, true),
            (RequestKind::Stat, true),
        ],
    );
}

#[test]
fn body_payload_completeness_requires_semantic_body() {
    let complete = cached_article_from_backend_response(
        b"222 0 <test@example.com>\r\nBody content\r\n.\r\n",
    );
    let metadata_only =
        cached_article_from_backend_response(b"222 0 <test@example.com>\r\n".as_slice());

    assert!(complete.is_complete_article());
    assert!(!metadata_only.is_complete_article());
}

#[test]
fn test_cached_article_basic() {
    let buffer = b"220 0 <test@example.com>\r\nSubject: Test\r\n\r\nBody\r\n.\r\n".to_vec();
    let entry = cached_article_from_backend_response(buffer.clone());

    assert_eq!(entry.status_code(), StatusCode::new(220));
    assert_eq!(
        rendered(&entry, RequestKind::Article, "<test@example.com>"),
        buffer
    );

    // Default: should try all backends
    assert!(entry.should_try_backend(BackendId::from_index(0)));
    assert!(entry.should_try_backend(BackendId::from_index(1)));
}

#[test]
fn cached_article_ingests_backend_response_by_name() {
    let entry = cached_article_from_backend_response(
        b"220 0 <test@example.com>\r\nSubject: Test\r\n\r\nBody\r\n.\r\n",
    );

    assert_eq!(entry.status_code(), StatusCode::new(220));
    assert!(matches!(entry.payload(), CachedPayload::Article { .. }));
}

#[test]
fn cached_article_ingests_borrowed_backend_response() {
    let entry = cached_article_from_backend_response(
        b"220 0 <test@example.com>\r\nSubject: Test\r\n\r\nBody\r\n.\r\n".as_slice(),
    );

    assert_eq!(entry.status_code(), StatusCode::new(220));
    assert!(matches!(entry.payload(), CachedPayload::Article { .. }));
}

#[test]
fn cached_article_defaults_to_tier_zero() {
    let entry = cached_article_from_backend_response(b"220 0 <test@example.com>\r\n.\r\n");

    assert_eq!(entry.tier(), CacheTier::new(0));
}

#[test]
fn cached_article_can_ingest_with_tier_internally() {
    let entry = CachedArticle::from_backend_response_with_tier(
        b"220 0 <test@example.com>\r\n.\r\n",
        CacheTier::new(5),
    );

    assert_eq!(entry.tier(), CacheTier::new(5));
}

#[test]
fn cached_article_stores_payload_sections_as_shared_slices() {
    trait SharedSlice {}
    impl SharedSlice for Arc<[u8]> {}
    fn assert_shared_slice<T: SharedSlice>(_: &T) {}

    let entry = cached_article_from_backend_response(
        b"220 0 <test@example.com>\r\nSubject: Test\r\n\r\nBody\r\n.\r\n",
    );

    match entry.payload() {
        CachedPayload::Article { headers, body, .. } => {
            assert_shared_slice(headers);
            assert_shared_slice(body);
        }
        other => panic!("expected article payload, got {other:?}"),
    }
}

#[test]
fn cached_article_clone_shares_payload_sections() {
    let entry = cached_article_from_backend_response(
        b"220 0 <test@example.com>\r\nSubject: Test\r\n\r\nBody\r\n.\r\n",
    );
    let cloned = entry.clone();

    match (entry.payload(), cloned.payload()) {
        (
            CachedPayload::Article { headers, body, .. },
            CachedPayload::Article {
                headers: cloned_headers,
                body: cloned_body,
                ..
            },
        ) => {
            assert!(std::ptr::eq(headers.as_ptr(), cloned_headers.as_ptr()));
            assert!(std::ptr::eq(body.as_ptr(), cloned_body.as_ptr()));
        }
        other => panic!("expected cloned article payload, got {other:?}"),
    }
}

#[test]
fn cached_article_ingests_backend_response_bytes_without_required_vec() {
    let entry = CachedArticle::from_backend_response_bytes_with_tier(
        InlineBytes::from_slice(
            b"220 0 <test@example.com>\r\nSubject: Test\r\n\r\nBody\r\n.\r\n",
        )
        .into(),
        CacheTier::new(0),
    );

    assert_eq!(entry.status_code(), StatusCode::new(220));
    assert!(matches!(entry.payload(), CachedPayload::Article { .. }));
}

#[test]
fn cached_article_ingests_chunked_backend_response_bytes_without_flattening_response() {
    let mut response = ChunkedResponse::default();
    response.extend_from_slice(
        8,
        b"220 0 <test@example.com>\r\nSubject: Test\r\n\r\nBody\r\n.\r\n",
    );
    assert!(
        response.chunk_count() > 1,
        "test response must span chunks"
    );

    let entry = CachedArticle::from_backend_response_bytes_with_tier(
        response.into(),
        CacheTier::new(0),
    );

    assert_eq!(entry.status_code(), StatusCode::new(220));
    match entry.payload() {
        CachedPayload::Article { headers, body, .. } => {
            assert_eq!(headers.as_ref(), b"Subject: Test");
            assert_eq!(body.as_ref(), b"Body");
        }
        other => panic!("expected article payload, got {other:?}"),
    }
}

#[test]
fn test_is_complete_article() {
    // Metadata-only responses should NOT be complete articles
    let metadata_only_430 = cached_article_from_backend_response(b"430\r\n");
    assert!(!metadata_only_430.is_complete_article());

    let metadata_only_220 = cached_article_from_backend_response(b"220\r\n");
    assert!(!metadata_only_220.is_complete_article());

    let metadata_only_223 = cached_article_from_backend_response(b"223\r\n");
    assert!(!metadata_only_223.is_complete_article());

    // Full article SHOULD be complete
    let full = cached_article_from_backend_response(
        b"220 0 <test@example.com>\r\nSubject: Test\r\n\r\nBody\r\n.\r\n",
    );
    assert!(full.is_complete_article());

    // Wrong status code (not 220) should NOT be complete article
    let head_response = cached_article_from_backend_response(
        b"221 0 <test@example.com>\r\nSubject: Test\r\n.\r\n",
    );
    assert!(!head_response.is_complete_article());

    // Missing terminator should NOT be complete
    let no_terminator = cached_article_from_backend_response(
        b"220 0 <test@example.com>\r\nSubject: Test\r\n\r\nBody\r\n",
    );
    assert!(!no_terminator.is_complete_article());
}

#[test]
fn test_cached_article_record_backend_missing() {
    let backend0 = BackendId::from_index(0);
    let backend1 = BackendId::from_index(1);
    let mut entry = create_test_cached_article("<test@example.com>");

    // Initially should try both
    assert!(entry.should_try_backend(backend0));
    assert!(entry.should_try_backend(backend1));

    // Record backend1 as missing (430 response)
    entry.record_backend_missing(backend1);

    // Should still try backend0, but not backend1
    assert!(entry.should_try_backend(backend0));
    assert!(!entry.should_try_backend(backend1));
}

#[test]
fn test_cached_article_all_backends_exhausted() {
    let backend0 = BackendId::from_index(0);
    let backend1 = BackendId::from_index(1);
    let mut entry = create_test_cached_article("<test@example.com>");

    // Not all exhausted yet
    assert!(!entry.all_backends_exhausted(BackendCount::new(2)));

    // Record both as missing
    entry.record_backend_missing(backend0);
    entry.record_backend_missing(backend1);

    // Now all 2 backends are exhausted
    assert!(entry.all_backends_exhausted(BackendCount::new(2)));
}

const NOW: CacheTimestampMillis = CacheTimestampMillis { value: 5_000 };

#[test]
fn ingest_bytes_equality_spans_storage_forms() {
    let bytes = b"220 0 <test@example.com>\r\nBody\r\n.\r\n";
    let mut chunked = ChunkedResponse::default();
    chunked.extend_from_slice(8, bytes);
    let small = InlineBytes::from_slice(bytes);
    assert!(
        CacheIngestBytes::Boxed(bytes.to_vec()) == CacheIngestBytes::Pooled(bytes.to_vec())
    );
    assert!(CacheIngestBytes::Chunked(chunked) == CacheIngestBytes::Small(small));
    assert!(
        CacheIngestBytes::Boxed(bytes.to_vec()) != CacheIngestBytes::Boxed(bytes[1..].to_vec())
    );
}

#[test]
fn ingest_bytes_status_code_spans_storage_forms() {
    let bytes = b"220 0 <test@example.com>\r\nBody\r\n.\r\n";
    let mut chunked = ChunkedResponse::default();
    chunked.extend_from_slice(2, bytes);
    for buffer in [
        CacheIngestBytes::Boxed(bytes.to_vec()),
        CacheIngestBytes::Pooled(bytes.to_vec()),
        CacheIngestBytes::Chunked(chunked),
        CacheIngestBytes::Small(InlineBytes::from_slice(bytes)),
    ] {
        assert_eq!(buffer.status_code(), Some(StatusCode::new(220)));
        assert_eq!(buffer.len(), bytes.len());
        assert_eq!(buffer.flattened(), bytes);
    }
}

#[test]
fn ingest_bytes_from_short_slice_uses_inline_storage() {
    let buffer = CacheIngestBytes::from_slice(b"223\r\n".as_slice());

    assert!(matches!(buffer, CacheIngestBytes::Small(_)));
    assert_eq!(buffer.status_code(), Some(StatusCode::new(223)));
}

#[test]
fn ingest_bytes_from_vec_stores_tight_owned_slice() {
    let buffer = CacheIngestBytes::from(Vec::from(&b"220 1 <tight@example>\r\n.\r\n"[..]));

    assert!(matches!(buffer, CacheIngestBytes::Boxed(_)));
    assert_eq!(buffer.status_code(), Some(StatusCode::new(220)));
}

#[test]
fn a_long_slice_is_stored_on_the_heap() {
    let bytes = [b'2'; 129];
    assert!(matches!(
        CacheIngestBytes::from_slice(&bytes),
        CacheIngestBytes::Boxed(_)
    ));
    assert!(matches!(
        CacheIngestBytes::from_slice(&bytes[..128]),
        CacheIngestBytes::Small(_)
    ));
}

#[test]
fn cached_responses_are_rendered_in_pieces() {
    let entry = create_test_cached_article("<test@example.com>");
    let response = entry
        .cached_response_for(RequestKind::Article, "<test@example.com>")
        .unwrap();
    assert_eq!(response.status(), StatusCode::new(220));
    assert_eq!(
        response.parts(),
        vec![
            &b"220 0 <test@example.com>\r\n"[..],
            b"Subject: Test",
            b"\r\n\r\n",
            b"Body",
            b"\r\n.\r\n"
        ]
    );
    assert_eq!(
        rendered(&entry, RequestKind::Head, "<test@example.com>"),
        b"221 0 <test@example.com>\r\nSubject: Test\r\n.\r\n"
    );
    assert_eq!(
        rendered(&entry, RequestKind::Body, "<test@example.com>"),
        b"222 0 <test@example.com>\r\nBody\r\n.\r\n"
    );
    assert_eq!(
        rendered(&entry, RequestKind::Stat, "<test@example.com>"),
        b"223 0 <test@example.com>\r\n"
    );
}

#[test]
fn article_numbers_are_served_back() {
    let entry = cached_article_from_backend_response(b"223 42 <n@example>\r\n");
    assert_eq!(entry.article_number().unwrap().get(), 42);
    assert_eq!(entry.payload_kind(), CachedPayloadKind::Stat);
    assert_eq!(
        rendered(&entry, RequestKind::Stat, "<n@example>"),
        b"223 42 <n@example>\r\n"
    );
}

#[test]
fn a_lookup_is_judged_by_its_age() {
    let entry = CachedArticle::from_response_at(
        b"220 0 <a@b>\r\nS: T\r\n\r\nBody\r\n.\r\n",
        CacheTier::new(1),
        NOW,
    );
    let ttl = CacheTtlMillis::new(1_000);
    assert!(matches!(
        judge_lookup(Some(entry.clone()), ttl, 6_999),
        CacheLookup::Hit(_)
    ));
    assert!(matches!(
        judge_lookup(Some(entry), ttl, 7_000),
        CacheLookup::Expired
    ));
    assert!(matches!(judge_lookup(None, ttl, 7_000), CacheLookup::Miss));
}

#[test]
fn a_response_without_text_never_replaces_text() {
    let full = create_test_cached_article("<a@b>");
    let thin = cached_article_from_backend_response(b"220 0 <a@b> a rather long status line\r\n");
    let merged = merge_response(
        Some(full.clone()),
        &thin,
        BackendId::from_index(1),
        CacheTier::new(0),
        NOW,
    );
    assert!(merged.is_complete_article());
    assert_eq!(merged.payload_len(), full.payload_len());
    let better = merge_response(
        Some(thin),
        &full,
        BackendId::from_index(1),
        CacheTier::new(3),
        NOW,
    );
    assert!(better.is_complete_article());
    let counted = record_status(
        Some(full),
        StatusCode::new(223),
        BackendId::from_index(0),
        CacheTier::new(0),
        NOW,
    );
    assert!(counted.is_complete_article());
    assert_eq!(counted.inserted_at(), NOW);
}

#[test]
fn records_typed_availability_without_payload() {
    let entry = record_status(
        None,
        StatusCode::new(220),
        BackendId::from_index(1),
        CacheTier::new(2),
        NOW,
    );
    assert_eq!(entry.status_code(), StatusCode::new(220));
    assert_eq!(entry.payload_kind(), CachedPayloadKind::AvailabilityOnly);
    assert_eq!(entry.payload_len().get(), 0);
    assert!(entry.should_try_backend(BackendId::from_index(1)));
}

#[test]
fn a_missing_answer_is_remembered() {
    let entry = record_missing(None, BackendId::from_index(3), NOW);
    assert_eq!(entry.payload_kind(), CachedPayloadKind::Missing);
    assert!(!entry.should_try_backend(BackendId::from_index(3)));
    assert!(entry.should_try_backend(BackendId::from_index(2)));
    let more = record_missing(Some(entry), BackendId::from_index(2), NOW);
    assert_eq!(more.availability().missing_bits(), 0b1100);
}

#[test]
fn gathered_facts_are_joined_to_what_is_stored() {
    let nothing = ArticleAvailability::new();
    assert!(matches!(sync_facts(None, &nothing, NOW), SyncAction::Keep));
    let mut facts = ArticleAvailability::new();
    facts.record_missing(BackendId::from_index(0));
    let SyncAction::Put(fresh) = sync_facts(None, &facts, NOW) else {
        panic!("expected an entry");
    };
    assert_eq!(fresh.availability().missing_bits(), 0b1);
    let stored = record_missing(None, BackendId::from_index(4), NOW);
    let SyncAction::Put(joined) = sync_facts(Some(stored), &facts, NOW) else {
        panic!("expected an entry");
    };
    assert_eq!(joined.availability().missing_bits(), 0b10001);
}

#[test]
fn without_bodies_only_the_status_is_kept() {
    let buffer = CacheIngestBytes::from_slice(b"220 0 <a@b>\r\nS: T\r\n\r\nBody\r\n.\r\n");
    let kept = entry_template(true, &buffer, CacheTier::new(0), NOW).unwrap();
    assert!(kept.is_complete_article());
    let thin = entry_template(false, &buffer, CacheTier::new(0), NOW).unwrap();
    assert_eq!(thin.payload_kind(), CachedPayloadKind::AvailabilityOnly);
    let garbage = CacheIngestBytes::from_slice(b"x");
    assert!(entry_template(false, &garbage, CacheTier::new(0), NOW).is_none());
}

#[test]
fn small_entries_weigh_more() {
    let full = create_test_cached_article("<a@b>");
    assert_eq!(full.payload_len().get(), 17);
    assert_eq!(entry_weight(10, &full), 2160 + 10 + 17);
    let thin = record_missing(None, BackendId::from_index(0), NOW);
    assert_eq!(entry_weight(10, &thin), ((2160 + 10) * 3 + 1) / 2);
}

#[test]
fn chunked_and_flat_responses_make_the_same_entry() {
    let bytes = b"220 7 <a@b>\r\nSubject: T\r\n\r\nLine\r\nLine\r\n.\r\n";
    for size in 1..40 {
        let mut chunked = ChunkedResponse::new();
        chunked.extend_from_slice(size, bytes);
        let entry = CachedArticle::from_chunked_response_at(&chunked, CacheTier::new(0), NOW);
        assert_eq!(rendered(&entry, RequestKind::Article, "<a@b>"), bytes);
    }
}

/// A cache of entries by message identifier, for the decisions above.
struct Store {
    entries: BTreeMap<String, CachedArticle>,
    ttl: CacheTtlMillis,
    keep_bodies: bool,
}

impl Store {
    fn new(ttl_millis: u64, keep_bodies: bool) -> Self {
        Store { entries: BTreeMap::new(), ttl: CacheTtlMillis::new(ttl_millis), keep_bodies }
    }

    fn get(&mut self, id: &MessageId, now: u64) -> Option<CachedArticle> {
        let key = id.without_brackets().to_string();
        match judge_lookup(self.entries.get(&key).cloned(), self.ttl, now) {
            CacheLookup::Hit(entry) => Some(entry),
            CacheLookup::Expired => {
                self.entries.remove(&key);
                None
            }
            CacheLookup::Miss => None,
        }
    }

    fn insert(&mut self, id: &MessageId, entry: CachedArticle) {
        self.entries.insert(id.without_brackets().to_string(), entry);
    }

    fn upsert(&mut self, id: &MessageId, response: &[u8], backend: usize) {
        let buffer = CacheIngestBytes::from_slice(response);
        let tier = CacheTier::new(0);
        let Some(template) = entry_template(self.keep_bodies, &buffer, tier, NOW) else {
            return;
        };
        let old = self.get(id, NOW.get());
        let entry = merge_response(old, &template, BackendId::from_index(backend), tier, NOW);
        self.insert(id, entry);
    }

    fn record_backend_missing(&mut self, id: &MessageId, backend: usize) {
        let old = self.get(id, NOW.get());
        self.insert(id, record_missing(old, BackendId::from_index(backend), NOW));
    }
}

fn id(text: &str) -> MessageId {
    MessageId::from_borrowed(text).unwrap()
}

#[test]
fn cached_article_response_writes_wire_slices() {
    let entry = create_test_cached_article("<test@example.com>");
    assert_eq!(
        rendered(&entry, RequestKind::Article, "<test@example.com>"),
        b"220 0 <test@example.com>\r\nSubject: Test\r\n\r\nBody\r\n.\r\n"
    );
}

#[test]
fn cached_article_response_writes_derived_wire_shapes() {
    let entry = create_test_cached_article("<test@example.com>");
    let cases = [
        (
            RequestKind::Head,
            b"221 0 <test@example.com>\r\nSubject: Test\r\n.\r\n".as_slice(),
        ),
        (
            RequestKind::Body,
            b"222 0 <test@example.com>\r\nBody\r\n.\r\n".as_slice(),
        ),
        (
            RequestKind::Stat,
            b"223 0 <test@example.com>\r\n".as_slice(),
        ),
    ];
    for (request_kind, expected) in cases {
        assert_eq!(
            rendered(&entry, request_kind, "<test@example.com>"),
            expected,
            "{request_kind:?}"
        );
    }
}

#[test]
fn upsert_preserves_complete_body_over_metadata_only_response() {
    let mut cache = Store::new(300_000, true);
    let msg_id = MessageId::from_str_or_wrap("test@example.com");
    let complete = format!("222 0 <test@example.com>\r\n{}\r\n.\r\n", "X".repeat(750_000));

    cache.upsert(&msg_id, complete.as_bytes(), 0);
    cache.upsert(&msg_id, b"222 0 <test@example.com>\r\n", 0);

    let cached = cache.get(&msg_id, NOW.get()).expect("cached body");
    assert_eq!(
        rendered(&cached, RequestKind::Body, msg_id.as_str()),
        complete.as_bytes()
    );
}

#[test]
fn upsert_replaces_metadata_only_body_with_complete_body() {
    let mut cache = Store::new(300_000, true);
    let msg_id = MessageId::from_str_or_wrap("test@example.com");
    let complete = format!("222 0 <test@example.com>\r\n{}\r\n.\r\n", "X".repeat(750_000));

    cache.upsert(&msg_id, b"222 0 <test@example.com>\r\n", 0);
    assert!(cache
        .get(&msg_id, NOW.get())
        .expect("metadata entry")
        .cached_response_for(RequestKind::Body, msg_id.as_str())
        .is_none());

    cache.upsert(&msg_id, complete.as_bytes(), 0);
    let cached = cache.get(&msg_id, NOW.get()).expect("cached body");
    assert_eq!(
        rendered(&cached, RequestKind::Body, msg_id.as_str()),
        complete.as_bytes()
    );
}

#[test]
fn test_cache_hit_miss() {
    let mut cache = Store::new(300_000, true);
    assert!(
        cache.get(&id("<nonexistent@example.com>"), 0).is_none(),
        "Cache lookup for non-existent key should return None"
    );
}

#[test]
fn test_cache_insert_and_retrieve() {
    let mut cache = Store::new(300_000, true);
    let msgid = id("<article@example.com>");
    let article = create_test_cached_article("<article@example.com>");
    cache.insert(&msgid, article.clone());

    let retrieved = cache.get(&msgid, article.inserted_at().get()).unwrap();
    assert_eq!(
        rendered(&retrieved, RequestKind::Article, "<article@example.com>"),
        rendered(&article, RequestKind::Article, "<article@example.com>")
    );
}

#[test]
fn test_cache_upsert_new_entry() {
    let mut cache = Store::new(300_000, true);
    let msgid = id("<test@example.com>");
    let buffer = b"220 0 <test@example.com>\r\nSubject: Test\r\n\r\nBody\r\n.\r\n".to_vec();
    cache.upsert(&msgid, &buffer, 0);

    let retrieved = cache.get(&msgid, NOW.get()).unwrap();
    assert_eq!(
        rendered(&retrieved, RequestKind::Article, "<test@example.com>"),
        buffer
    );
    assert!(retrieved.should_try_backend(BackendId::from_index(0)));
    assert!(retrieved.should_try_backend(BackendId::from_index(1)));
}

#[test]
fn test_cache_upsert_existing_entry() {
    let mut cache = Store::new(300_000, true);
    let msgid = id("<test@example.com>");
    let buffer = b"220 0 <test@example.com>\r\nSubject: Test\r\n\r\nBody\r\n.\r\n".to_vec();
    cache.upsert(&msgid, &buffer, 0);
    cache.upsert(&msgid, &buffer, 1);

    let retrieved = cache.get(&msgid, NOW.get()).unwrap();
    assert!(retrieved.should_try_backend(BackendId::from_index(0)));
    assert!(retrieved.should_try_backend(BackendId::from_index(1)));
}

#[test]
fn test_record_backend_missing() {
    let mut cache = Store::new(300_000, true);
    let msgid = id("<test@example.com>");
    cache.insert(&msgid, create_test_cached_article("<test@example.com>"));
    cache.record_backend_missing(&msgid, 1);

    let retrieved = cache.get(&msgid, NOW.get()).unwrap();
    assert!(retrieved.should_try_backend(BackendId::from_index(0)));
    assert!(!retrieved.should_try_backend(BackendId::from_index(1)));
}

#[test]
fn test_record_backend_missing_creates_new_entry() {
    let mut cache = Store::new(300_000, true);
    let msgid = id("<missing@example.com>");
    assert!(cache.get(&msgid, NOW.get()).is_none());
    cache.record_backend_missing(&msgid, 0);

    let entry = cache
        .get(&msgid, NOW.get())
        .expect("Cache entry must exist after record_backend_missing");
    assert!(!entry.should_try_backend(BackendId::from_index(0)));
    assert!(entry.should_try_backend(BackendId::from_index(1)));
    assert!(matches!(entry.payload(), CachedPayload::Missing));
    assert_eq!(entry.payload_len().get(), 0);

    cache.record_backend_missing(&msgid, 1);
    let entry = cache.get(&msgid, NOW.get()).unwrap();
    assert!(!entry.should_try_backend(BackendId::from_index(0)));
    assert!(!entry.should_try_backend(BackendId::from_index(1)));
    assert!(entry.all_backends_exhausted(BackendCount::new(2)));
}

#[test]
fn test_cache_ttl_expiration() {
    let mut cache = Store::new(50, true);
    let msgid = id("<expire@example.com>");
    let article = create_test_cached_article("<expire@example.com>");
    let made = article.inserted_at().get();
    cache.insert(&msgid, article);

    assert!(cache.get(&msgid, made).is_some());
    assert!(cache.get(&msgid, made + 100).is_none());
    assert!(cache.entries.is_empty());
}

#[test]
fn test_insert_respects_cache_articles_flag() {
    let mut thin = Store::new(300_000, false);
    let msgid = id("<test@example.com>");
    let buffer = b"220 0 <test@example.com>\r\nSubject: Test\r\n\r\nBody\r\n.\r\n".to_vec();
    thin.upsert(&msgid, &buffer, 0);
    let retrieved = thin.get(&msgid, NOW.get()).unwrap();
    assert_eq!(
        retrieved.payload_kind(),
        CachedPayloadKind::AvailabilityOnly
    );
    assert_eq!(retrieved.payload_len().get(), 0);

    let mut full = Store::new(300_000, true);
    let msgid2 = id("<test2@example.com>");
    let buffer2 = b"220 0 <test2@example.com>\r\nSubject: Test2\r\n\r\nBody2\r\n.\r\n".to_vec();
    full.upsert(&msgid2, &buffer2, 0);
    let retrieved2 = full.get(&msgid2, NOW.get()).unwrap();
    assert_eq!(
        retrieved2.payload_len().get(),
        b"Subject: Test2".len() + b"Body2".len()
    );
}

#[test]
fn test_cached_article_clone() {
    let article = create_test_cached_article("<test@example.com>");
    let cloned = article.clone();
    assert_eq!(
        rendered(&article, RequestKind::Article, "<test@example.com>"),
        rendered(&cloned, RequestKind::Article, "<test@example.com>")
    );
}

#[test]
fn test_weigher_large_articles() {
    let response = format!("222 0 <test@example.com>\r\n{}\r\n.\r\n", "X".repeat(750_000));
    let article = cached_article_from_backend_response(response.as_bytes());
    let each = entry_weight("test@example.com".len(), &article) as u64;
    // Ten megabytes hold at least eleven of them.
    assert!(each * 11 <= 10 * 1024 * 1024);
    assert_eq!(each, 2160 + 16 + 750_000);
}

#[test]
fn test_weigher_small_metadata_only_responses() {
    let article = cached_article_from_backend_response(b"223 0 <test@example.com>\r\n");
    let each = entry_weight("metadata_only200@example.com".len(), &article) as u64;
    // A megabyte holds at least a hundred of them.
    assert!(each * 100 <= 1_000_000);
}

#[test]
fn test_cache_with_owned_message_id() {
    let mut cache = Store::new(300_000, true);
    let msgid = MessageId::new("<owned@example.com>".to_string()).unwrap();
    let article = create_test_cached_article("<owned@example.com>");
    let made = article.inserted_at().get();
    cache.insert(&msgid, article);
    assert!(cache.get(&id("<owned@example.com>"), made).is_some());
}

#[test]
fn an_entry_tells_what_is_known_of_the_first_backends() {
    let mut entry = create_test_cached_article("<a@b>");
    entry.record_backend_missing(BackendId::from_index(1));
    entry.record_backend_missing(BackendId::from_index(5));
    let facts = entry.to_availability(BackendCount::new(3));
    assert_eq!(facts.missing_bits(), 0b10);
    assert_eq!(entry.availability().missing_bits(), 0b10_0010);
}

#[test]
fn a_chunked_response_is_taken_in_now() {
    let mut chunked = ChunkedResponse::new();
    chunked.extend_from_slice(7, b"222 3 <a@b>\r\nText\r\n.\r\n");
    let entry = CachedArticle::from_chunked_response_with_tier(&chunked, CacheTier::new(2));
    assert_eq!(entry.tier().get(), 2);
    assert_eq!(
        rendered(&entry, RequestKind::Body, "<a@b>"),
        b"222 3 <a@b>\r\nText\r\n.\r\n"
    );
    assert!(!entry.is_expired(CacheTtlMillis::new(60_000)));
    assert!(entry.is_expired(CacheTtlMillis::new(0)));
}
