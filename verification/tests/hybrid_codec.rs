//! The stored form of cache entries.
use nntp_proxy::cache::hybrid_codec::{
    CacheableStatusCode, CachedSectionLen, CodecError, HybridArticleEntry,
};
use nntp_proxy::cache::ingest::{ChunkedResponse, InlineBytes};
use nntp_proxy::cache::payload::CachedPayload;
use nntp_proxy::cache::ttl::{CacheTier, CacheTimestampMillis};
use nntp_proxy::protocol::RequestKind;
use nntp_proxy::types::BackendId;

fn assert_entry_eq(original: &HybridArticleEntry, decoded: &HybridArticleEntry) {
    assert_eq!(original.status_code(), decoded.status_code());
    assert_eq!(
        original.availability().missing_bits(),
        decoded.availability().missing_bits()
    );
    assert_eq!(original.timestamp(), decoded.timestamp());
    assert_eq!(original.tier(), decoded.tier());
    assert_eq!(original.payload(), decoded.payload());
}

fn render_response(entry: &HybridArticleEntry, verb: &[u8], message_id: &str) -> Option<Vec<u8>> {
    let response = entry.response_parts_for_request_kind(verb_to_kind(verb)?, message_id)?;
    Some(response.to_bytes())
}

fn verb_to_kind(verb: &[u8]) -> Option<RequestKind> {
    match verb {
        verb if verb.eq_ignore_ascii_case(b"ARTICLE") => Some(RequestKind::Article),
        verb if verb.eq_ignore_ascii_case(b"HEAD") => Some(RequestKind::Head),
        verb if verb.eq_ignore_ascii_case(b"BODY") => Some(RequestKind::Body),
        verb if verb.eq_ignore_ascii_case(b"STAT") => Some(RequestKind::Stat),
        _ => None,
    }
}

#[test]
fn test_cacheable_status_code_as_u16() {
    assert_eq!(CacheableStatusCode::Article.as_u16(), 220);
    assert_eq!(CacheableStatusCode::Head.as_u16(), 221);
    assert_eq!(CacheableStatusCode::Body.as_u16(), 222);
    assert_eq!(CacheableStatusCode::Stat.as_u16(), 223);
    assert_eq!(CacheableStatusCode::Missing.as_u16(), 430);
}

#[test]
fn test_cacheable_status_code_try_from_valid() {
    assert_eq!(
        CacheableStatusCode::try_from(220),
        Ok(CacheableStatusCode::Article)
    );
    assert_eq!(
        CacheableStatusCode::try_from(221),
        Ok(CacheableStatusCode::Head)
    );
    assert_eq!(
        CacheableStatusCode::try_from(222),
        Ok(CacheableStatusCode::Body)
    );
    assert_eq!(
        CacheableStatusCode::try_from(223),
        Ok(CacheableStatusCode::Stat)
    );
    assert_eq!(
        CacheableStatusCode::try_from(430),
        Ok(CacheableStatusCode::Missing)
    );
}

#[test]
fn test_cacheable_status_code_try_from_invalid() {
    assert_eq!(CacheableStatusCode::try_from(219), Err(219));
    assert_eq!(CacheableStatusCode::try_from(224), Err(224));
    assert_eq!(CacheableStatusCode::try_from(429), Err(429));
    assert_eq!(CacheableStatusCode::try_from(431), Err(431));
    assert_eq!(CacheableStatusCode::try_from(200), Err(200));
    assert_eq!(CacheableStatusCode::try_from(201), Err(201));
    assert_eq!(CacheableStatusCode::try_from(211), Err(211));
    assert_eq!(CacheableStatusCode::try_from(411), Err(411));
    assert_eq!(CacheableStatusCode::try_from(480), Err(480));
    assert_eq!(CacheableStatusCode::try_from(500), Err(500));
    assert_eq!(CacheableStatusCode::try_from(0), Err(0));
    assert_eq!(CacheableStatusCode::try_from(u16::MAX), Err(u16::MAX));
}

#[test]
fn test_cacheable_status_code_roundtrip() {
    for code in [
        CacheableStatusCode::Article,
        CacheableStatusCode::Head,
        CacheableStatusCode::Body,
        CacheableStatusCode::Stat,
        CacheableStatusCode::Missing,
    ] {
        let raw = code.as_u16();
        let back = CacheableStatusCode::try_from(raw).unwrap();
        assert_eq!(code, back);
    }
}

#[test]
fn test_cacheable_status_code_clone_copy() {
    let a = CacheableStatusCode::Article;
    let b = a; // Copy
    assert_eq!(a, b);
}

#[test]
fn test_cacheable_status_code_debug() {
    let dbg = format!("{:?}", CacheableStatusCode::Article);
    assert!(dbg.contains("Article"));
    let dbg = format!("{:?}", CacheableStatusCode::Missing);
    assert!(dbg.contains("Missing"));
}

#[test]
fn test_cacheable_status_code_eq() {
    assert_eq!(CacheableStatusCode::Article, CacheableStatusCode::Article);
    assert_ne!(CacheableStatusCode::Article, CacheableStatusCode::Body);
    assert_ne!(CacheableStatusCode::Head, CacheableStatusCode::Missing);
}

#[test]
fn test_cached_section_len_rejects_oversized_sections() {
    assert_eq!(
        CachedSectionLen::try_from_usize(u32::MAX as usize)
            .unwrap()
            .get(),
        u32::MAX
    );
    assert!(CachedSectionLen::try_from_usize(u32::MAX as usize + 1).is_err());
}

#[test]
fn test_hybrid_entry_basic() {
    let buffer = b"220 0 <test@example.com>\r\nSubject: Test\r\n\r\nBody\r\n.\r\n".to_vec();
    let mut entry =
        HybridArticleEntry::from_wire_response(&buffer).expect("valid status code");

    assert_eq!(
        render_response(&entry, b"ARTICLE", "<test@example.com>").unwrap(),
        buffer
    );
    assert_eq!(entry.status_code().as_u16(), 220);

    entry.record_backend_has(BackendId::from_index(0));
    assert!(entry.should_try_backend(BackendId::from_index(0)));
    assert!(entry.should_try_backend(BackendId::from_index(1)));

    entry.record_backend_missing(BackendId::from_index(1));
    assert!(entry.should_try_backend(BackendId::from_index(0)));
    assert!(!entry.should_try_backend(BackendId::from_index(1)));
}

#[test]
fn hybrid_entry_ingests_wire_response_by_name() {
    let entry = HybridArticleEntry::from_wire_response(
        b"220 0 <test@example.com>\r\nSubject: Test\r\n\r\nBody\r\n.\r\n",
    )
    .expect("valid status code");

    assert_eq!(entry.status_code().as_u16(), 220);
    assert!(matches!(entry.payload(), CachedPayload::Article { .. }));
}

#[test]
fn hybrid_entry_ingests_borrowed_wire_response_bytes() {
    let entry = HybridArticleEntry::from_wire_response(
        b"220 0 <test@example.com>\r\nSubject: Test\r\n\r\nBody\r\n.\r\n".as_slice(),
    )
    .expect("valid status code");

    assert_eq!(entry.status_code().as_u16(), 220);
    assert!(matches!(entry.payload(), CachedPayload::Article { .. }));
}

#[test]
fn hybrid_entry_ingests_cache_buffer_without_required_vec() {
    let entry = HybridArticleEntry::from_cache_buffer_with_tier(
        InlineBytes::from_slice(
            b"220 0 <test@example.com>\r\nSubject: Test\r\n\r\nBody\r\n.\r\n",
        )
        .into(),
        CacheTier::new(0),
    )
    .expect("valid status code");

    assert_eq!(entry.status_code().as_u16(), 220);
    assert!(matches!(entry.payload(), CachedPayload::Article { .. }));
}

#[test]
fn hybrid_entry_ingests_chunked_cache_buffer_without_flattening_wire_response() {
    let mut response = ChunkedResponse::default();
    response.extend_from_slice(
        8,
        b"220 0 <test@example.com>\r\nSubject: Test\r\n\r\nBody\r\n.\r\n",
    );
    assert!(
        response.chunk_count() > 1,
        "test response must span chunks"
    );

    let entry = HybridArticleEntry::from_cache_buffer_with_tier(
        response.into(),
        CacheTier::new(0),
    )
    .expect("valid status code");

    assert_eq!(entry.status_code().as_u16(), 220);
    match entry.payload() {
        CachedPayload::Article { headers, body, .. } => {
            assert_eq!(headers.as_ref(), b"Subject: Test");
            assert_eq!(body.as_ref(), b"Body");
        }
        other => panic!("expected article payload, got {other:?}"),
    }
}

#[test]
fn test_hybrid_entry_response_parts_do_not_clone_payload() {
    let buffer = b"220 7 <test@example.com>\r\nSubject: Test\r\n\r\nBody\r\n.\r\n".to_vec();
    let entry =
        HybridArticleEntry::from_wire_response(&buffer).expect("valid status code");

    let response = entry
        .response_parts_for_request_kind(RequestKind::Head, "<test@example.com>")
        .expect("article cache entry can serve HEAD");

    let rendered = response.to_bytes();
    assert_eq!(rendered.len(), response.wire_len().get());
    assert_eq!(
        rendered,
        b"221 7 <test@example.com>\r\nSubject: Test\r\n.\r\n"
    );
}

#[test]
fn test_hybrid_entry_availability() {
    let mut entry = HybridArticleEntry::from_wire_response(b"220 ok\r\n").expect("valid");

    for i in 0..8 {
        assert!(entry.should_try_backend(BackendId::from_index(i)));
    }

    entry.record_backend_missing(BackendId::from_index(0));
    entry.record_backend_missing(BackendId::from_index(2));
    entry.record_backend_missing(BackendId::from_index(4));

    assert!(!entry.should_try_backend(BackendId::from_index(0)));
    assert!(entry.should_try_backend(BackendId::from_index(1)));
    assert!(!entry.should_try_backend(BackendId::from_index(2)));
    assert!(entry.should_try_backend(BackendId::from_index(3)));
    assert!(!entry.should_try_backend(BackendId::from_index(4)));

    let avail = entry.availability();
    assert!(avail.is_missing(BackendId::from_index(0)));
    assert!(!avail.is_missing(BackendId::from_index(1)));
}

#[test]
fn test_hybrid_entry_command_matching() {
    let article =
        HybridArticleEntry::from_wire_response(b"220 0 <id>\r\nH: V\r\n\r\nB\r\n.\r\n")
            .expect("valid");
    assert!(
        article
            .response_parts_for_request_kind(RequestKind::Article, "<id>")
            .is_some()
    );
    assert!(
        article
            .response_parts_for_request_kind(RequestKind::Body, "<id>")
            .is_some()
    );
    assert!(
        article
            .response_parts_for_request_kind(RequestKind::Head, "<id>")
            .is_some()
    );

    let body =
        HybridArticleEntry::from_wire_response(b"222 0 <id>\r\nB\r\n.\r\n").expect("valid");
    assert!(
        body.response_parts_for_request_kind(RequestKind::Article, "<id>")
            .is_none()
    );
    assert!(
        body.response_parts_for_request_kind(RequestKind::Body, "<id>")
            .is_some()
    );
    assert!(
        body.response_parts_for_request_kind(RequestKind::Head, "<id>")
            .is_none()
    );

    let head =
        HybridArticleEntry::from_wire_response(b"221 0 <id>\r\nH: V\r\n.\r\n").expect("valid");
    assert!(
        head.response_parts_for_request_kind(RequestKind::Article, "<id>")
            .is_none()
    );
    assert!(
        head.response_parts_for_request_kind(RequestKind::Body, "<id>")
            .is_none()
    );
    assert!(
        head.response_parts_for_request_kind(RequestKind::Head, "<id>")
            .is_some()
    );
}

#[test]
fn test_hybrid_entry_rejects_invalid() {
    assert!(HybridArticleEntry::from_wire_response(b"999 invalid\r\n").is_none());
    assert!(HybridArticleEntry::from_wire_response(&[]).is_none());
    assert!(HybridArticleEntry::from_wire_response(b"20").is_none());
    assert!(HybridArticleEntry::from_wire_response(b"abc\r\n").is_none());

    assert!(HybridArticleEntry::from_wire_response(b"220 article\r\n").is_some());
    assert!(HybridArticleEntry::from_wire_response(b"221 head\r\n").is_some());
    assert!(HybridArticleEntry::from_wire_response(b"222 body\r\n").is_some());
    assert!(HybridArticleEntry::from_wire_response(b"223 stat\r\n").is_some());
    assert!(HybridArticleEntry::from_wire_response(b"430 not found\r\n").is_some());
}

#[test]
fn test_entry_status_code_returns_protocol_status_code() {
    let entry = HybridArticleEntry::from_wire_response(b"220 0 <id>\r\n").unwrap();
    let sc = entry.status_code();
    assert_eq!(sc.as_u16(), 220);

    let entry = HybridArticleEntry::from_wire_response(b"430 not found\r\n").unwrap();
    let sc = entry.status_code();
    assert_eq!(sc.as_u16(), 430);
}

#[test]
fn test_entry_each_cacheable_code() {
    let cases: &[(&[u8], u16)] = &[
        (b"220 article\r\n", 220),
        (b"221 head\r\n", 221),
        (b"222 body\r\n", 222),
        (b"223 stat\r\n", 223),
        (b"430 missing\r\n", 430),
    ];
    for (buf, expected) in cases {
        let entry = HybridArticleEntry::from_wire_response(buf)
            .unwrap_or_else(|| panic!("should accept code {expected}"));
        assert_eq!(entry.status_code().as_u16(), *expected);
    }
}

#[test]
fn test_entry_rejects_non_cacheable_nntp_codes() {
    for code in [200, 201, 211, 411, 480, 500, 502] {
        let buf = format!("{code} response\r\n").into_bytes();
        assert!(
            HybridArticleEntry::from_wire_response(&buf).is_none(),
            "code {code} should be rejected"
        );
    }
}

#[test]
fn test_code_encode_decode_roundtrip_article() {
    let entry = HybridArticleEntry::from_wire_response(
        b"220 0 <t@x>\r\nSubject: T\r\n\r\nBody\r\n.\r\n",
    )
    .unwrap();
    let buf = entry.encode().unwrap();
    let decoded = HybridArticleEntry::decode(&buf).unwrap();

    assert_eq!(decoded.status_code().as_u16(), 220);
    assert_entry_eq(&entry, &decoded);
}

#[test]
fn test_code_encode_decode_roundtrip_all_codes() {
    let buffers: &[&[u8]] = &[
        b"220 article\r\n",
        b"221 head\r\n",
        b"222 body\r\n",
        b"223 stat\r\n",
        b"430 missing\r\n",
    ];
    for raw in buffers {
        let entry = HybridArticleEntry::from_wire_response(raw).unwrap();
        let encoded = entry.encode().unwrap();
        let decoded = HybridArticleEntry::decode(&encoded).unwrap();
        assert_eq!(decoded.status_code().as_u16(), entry.status_code().as_u16());
        assert_entry_eq(&entry, &decoded);
    }
}

#[test]
fn test_code_decode_rejects_invalid_status() {
    let mut buf = Vec::new();
    buf.extend_from_slice(&999u16.to_le_bytes());
    buf.extend_from_slice(&[0u8; 2]);
    buf.extend_from_slice(&0u64.to_le_bytes());
    buf.push(0);
    buf.extend_from_slice(&5u32.to_le_bytes());
    buf.extend_from_slice(b"hello");

    let result = HybridArticleEntry::decode(&buf);
    assert!(result.is_err());
}

#[test]
fn test_code_encode_decode_preserves_tier() {
    let entry = HybridArticleEntry::from_wire_response_with_tier(
        b"220 article\r\n",
        CacheTier::new(3),
    )
    .unwrap();
    assert_eq!(entry.tier().get(), 3);

    let encoded = entry.encode().unwrap();
    let decoded = HybridArticleEntry::decode(&encoded).unwrap();
    assert_eq!(decoded.tier().get(), 3);
}

#[test]
fn test_code_encode_decode_preserves_availability() {
    let mut entry = HybridArticleEntry::from_wire_response(b"220 ok\r\n").unwrap();
    entry.record_backend_has(BackendId::from_index(0));
    entry.record_backend_missing(BackendId::from_index(2));

    let encoded = entry.encode().unwrap();
    let decoded = HybridArticleEntry::decode(&encoded).unwrap();

    assert!(decoded.should_try_backend(BackendId::from_index(0)));
    assert!(decoded.should_try_backend(BackendId::from_index(1)));
    assert!(!decoded.should_try_backend(BackendId::from_index(2)));
}

#[test]
fn test_code_estimated_size() {
    let entry = HybridArticleEntry::from_wire_response(b"220 article\r\n").unwrap();
    let expected = 4 + 2 + 2 + 8 + 1 + 1;
    assert_eq!(entry.estimated_size(), expected);
}

#[test]
fn test_is_complete_article_220() {
    let entry = HybridArticleEntry::from_wire_response(
        b"220 0 <t@x>\r\nSubject: T\r\n\r\nBody\r\n.\r\n",
    )
    .unwrap();
    assert!(entry.is_complete_article());
}

#[test]
fn test_is_complete_article_222() {
    let entry =
        HybridArticleEntry::from_wire_response(b"222 0 <t@x>\r\n\r\nBody content\r\n.\r\n")
            .unwrap();
    assert!(entry.is_complete_article());
}

#[test]
fn test_is_complete_article_false_for_head() {
    let entry =
        HybridArticleEntry::from_wire_response(b"221 0 <t@x>\r\nSubject: T\r\n.\r\n").unwrap();
    assert!(!entry.is_complete_article());
}

#[test]
fn test_is_complete_article_false_for_stat() {
    let entry = HybridArticleEntry::from_wire_response(b"223 0 <t@x>\r\n").unwrap();
    assert!(!entry.is_complete_article());
}

#[test]
fn test_is_complete_article_false_for_430() {
    let entry = HybridArticleEntry::from_wire_response(b"430 not found\r\n").unwrap();
    assert!(!entry.is_complete_article());
}

#[test]
fn test_is_complete_article_false_for_too_small_buffer() {
    let entry = HybridArticleEntry::from_wire_response(b"220 ok\r\n.\r\n").unwrap();
    assert!(!entry.is_complete_article());
}

#[test]
fn test_response_for_command_stat_from_220() {
    let entry = HybridArticleEntry::from_wire_response(
        b"220 0 <t@x>\r\nSubject: T\r\n\r\nBody\r\n.\r\n",
    )
    .unwrap();
    let resp = render_response(&entry, b"STAT", "<t@x>").expect("should serve STAT");
    assert_eq!(resp, b"223 0 <t@x>\r\n");
}

#[test]
fn test_response_for_command_stat_from_221() {
    let entry =
        HybridArticleEntry::from_wire_response(b"221 0 <t@x>\r\nSubject: T\r\n.\r\n").unwrap();
    let resp = render_response(&entry, b"STAT", "<t@x>").expect("should serve STAT from head");
    assert_eq!(resp, b"223 0 <t@x>\r\n");
}

#[test]
fn test_response_for_command_stat_from_222() {
    let entry =
        HybridArticleEntry::from_wire_response(b"222 0 <t@x>\r\n\r\nBody content\r\n.\r\n")
            .unwrap();
    let resp = render_response(&entry, b"STAT", "<t@x>").expect("should serve STAT from body");
    assert_eq!(resp, b"223 0 <t@x>\r\n");
}

#[test]
fn test_response_for_command_stat_not_from_430() {
    let entry = HybridArticleEntry::from_wire_response(b"430 not found\r\n").unwrap();
    assert!(render_response(&entry, b"STAT", "<t@x>").is_none());
}

#[test]
fn test_response_for_command_article_direct() {
    let buf = b"220 0 <t@x>\r\nSubject: T\r\n\r\nBody\r\n.\r\n".to_vec();
    let entry = HybridArticleEntry::from_wire_response(&buf).unwrap();
    let resp = render_response(&entry, b"ARTICLE", "<t@x>").expect("should serve ARTICLE");
    assert_eq!(resp, buf);

    let response = entry
        .response_parts_for_request_kind(RequestKind::Article, "<t@x>")
        .expect("should serve ARTICLE by request kind");
    let out = response.to_bytes();
    assert_eq!(out.len(), response.wire_len().get());
    assert_eq!(out, buf);
}

#[test]
fn test_response_for_command_body_from_220() {
    let buf = b"220 0 <t@x>\r\nSubject: T\r\n\r\nBody\r\n.\r\n".to_vec();
    let entry = HybridArticleEntry::from_wire_response(&buf).unwrap();
    let resp = render_response(&entry, b"BODY", "<t@x>").expect("220 can serve BODY");
    assert_eq!(resp, b"222 0 <t@x>\r\nBody\r\n.\r\n");
}

#[test]
fn test_response_for_command_head_from_220() {
    let buf = b"220 0 <t@x>\r\nSubject: T\r\n\r\nBody\r\n.\r\n".to_vec();
    let entry = HybridArticleEntry::from_wire_response(&buf).unwrap();
    let resp = render_response(&entry, b"HEAD", "<t@x>").expect("220 can serve HEAD");
    assert_eq!(resp, b"221 0 <t@x>\r\nSubject: T\r\n.\r\n");
}

#[test]
fn test_response_for_command_body_cannot_serve_article() {
    let entry =
        HybridArticleEntry::from_wire_response(b"222 0 <t@x>\r\n\r\nBody content\r\n.\r\n")
            .unwrap();
    assert!(render_response(&entry, b"ARTICLE", "<t@x>").is_none());
}

#[test]
fn test_response_for_command_head_cannot_serve_body() {
    let entry =
        HybridArticleEntry::from_wire_response(b"221 0 <t@x>\r\nSubject: T\r\n.\r\n").unwrap();
    assert!(render_response(&entry, b"BODY", "<t@x>").is_none());
}

#[test]
fn test_response_for_command_unknown_verb() {
    let entry = HybridArticleEntry::from_wire_response(
        b"220 0 <t@x>\r\nSubject: T\r\n\r\nBody\r\n.\r\n",
    )
    .unwrap();
    assert!(render_response(&entry, b"LIST", "<t@x>").is_none());
    assert!(render_response(&entry, b"GROUP", "<t@x>").is_none());
    assert!(render_response(&entry, b"QUIT", "<t@x>").is_none());
}

#[test]
fn test_with_tier_sets_tier() {
    let entry =
        HybridArticleEntry::from_wire_response_with_tier(b"220 ok\r\n", CacheTier::new(5))
            .unwrap();
    assert_eq!(entry.tier().get(), 5);
}

#[test]
fn test_with_tier_zero_default() {
    let entry = HybridArticleEntry::from_wire_response(b"220 ok\r\n").unwrap();
    assert_eq!(entry.tier().get(), 0);
}

#[test]
fn test_with_tier_rejects_invalid_code() {
    assert!(
        HybridArticleEntry::from_wire_response_with_tier(
            b"999 bad\r\n",
            CacheTier::new(0)
        )
        .is_none()
    );
}

#[test]
fn prop_hybrid_article_encode_decode_roundtrip_220() {
    let original = HybridArticleEntry::from_wire_response(
        b"220 article\r\nMid: <test@example.com>\r\n\r\nbody\r\n.\r\n",
    )
    .unwrap();

    let buffer = original.encode().unwrap();

    let decoded = HybridArticleEntry::decode(&buffer).unwrap();

    assert_entry_eq(&original, &decoded);
    assert_eq!(original.tier().get(), decoded.tier().get());
}

#[test]
fn prop_hybrid_article_encode_decode_roundtrip_221() {
    let original = HybridArticleEntry::from_wire_response(
        b"221 headers\r\nMid: <test@example.com>\r\n\r\n.\r\n",
    )
    .unwrap();

    let buffer = original.encode().unwrap();

    let decoded = HybridArticleEntry::decode(&buffer).unwrap();

    assert_entry_eq(&original, &decoded);
}

#[test]
fn prop_hybrid_article_encode_decode_roundtrip_222() {
    let original =
        HybridArticleEntry::from_wire_response(b"222 body\r\n\r\nbody content\r\n.\r\n")
            .unwrap();

    let buffer = original.encode().unwrap();

    let decoded = HybridArticleEntry::decode(&buffer).unwrap();

    assert_entry_eq(&original, &decoded);
}

#[test]
fn prop_hybrid_article_encode_decode_roundtrip_223() {
    let original = HybridArticleEntry::from_wire_response(b"223 stat\r\n.\r\n").unwrap();

    let buffer = original.encode().unwrap();

    let decoded = HybridArticleEntry::decode(&buffer).unwrap();

    assert_entry_eq(&original, &decoded);
}

#[test]
fn prop_hybrid_article_encode_decode_roundtrip_430() {
    let original = HybridArticleEntry::from_wire_response(b"430 missing\r\n.\r\n").unwrap();

    let buffer = original.encode().unwrap();

    let decoded = HybridArticleEntry::decode(&buffer).unwrap();

    assert_entry_eq(&original, &decoded);
}

#[test]
fn prop_hybrid_article_estimated_size_matches_encoded() {
    let codes: Vec<&[u8]> = vec![
        b"220 article\r\nMid: <test@example.com>\r\n\r\nbody\r\n.\r\n",
        b"221 headers\r\nMid: <test@example.com>\r\n\r\n.\r\n",
        b"222 body\r\nbody content\r\n.\r\n",
        b"223 stat\r\n.\r\n",
        b"430 missing\r\n.\r\n",
    ];

    for code in &codes {
        let entry = HybridArticleEntry::from_wire_response(code).unwrap();
        let estimated = entry.estimated_size();

        let buffer = entry.encode().unwrap();

        assert_eq!(
            estimated,
            buffer.len(),
            "estimated_size mismatch for {:?}",
            std::str::from_utf8(code)
        );
    }
}

#[test]
fn prop_hybrid_article_decode_rejects_invalid_status_code() {
    // Create a valid encoding but with an invalid status code
    let mut buffer = Vec::new();

    // Write invalid status code (500)
    buffer.extend_from_slice(&500u16.to_le_bytes());
    // Write dummy header bytes
    buffer.extend_from_slice(&[0u8, 0u8]);
    // Write dummy timestamp
    buffer.extend_from_slice(&0u64.to_le_bytes());
    // Write dummy tier
    buffer.push(0u8);
    // Write dummy length
    buffer.extend_from_slice(&0u32.to_le_bytes());

    let result = HybridArticleEntry::decode(&buffer);

    assert!(result.is_err(), "Should reject invalid status code 500");
}

#[test]
fn prop_hybrid_article_preserves_tier() {
    for tier in [0u8, 1, 5, 10, 255] {
        let entry = HybridArticleEntry::from_wire_response_with_tier(
            b"220 article\r\nMid: <test@example.com>\r\n\r\nbody\r\n.\r\n",
            CacheTier::new(tier),
        )
        .unwrap();

        let buffer = entry.encode().unwrap();

        let decoded = HybridArticleEntry::decode(&buffer).unwrap();

        assert_eq!(tier, decoded.tier().get(), "Tier mismatch");
    }
}

#[test]
fn prop_hybrid_article_preserves_availability() {
    let entry = HybridArticleEntry::from_wire_response(
        b"220 article\r\nMid: <test@example.com>\r\n\r\nbody\r\n.\r\n",
    )
    .unwrap();

    let buffer = entry.encode().unwrap();

    let decoded = HybridArticleEntry::decode(&buffer).unwrap();

    // Compare the bitset representation
    assert_eq!(
        entry.availability().checked_bits(),
        decoded.availability().checked_bits(),
        "Checked bits mismatch"
    );
    assert_eq!(
        entry.availability().missing_bits(),
        decoded.availability().missing_bits(),
        "Missing bits mismatch"
    );
}

const NOW: CacheTimestampMillis = CacheTimestampMillis { value: 0x0102_0304_0506_0708 };

fn small_article() -> HybridArticleEntry {
    HybridArticleEntry::from_wire_response_at(
        b"220 9 <a@b>\r\nS: T\r\n\r\nHi\r\n.\r\n",
        CacheTier::new(3),
        NOW,
    )
    .unwrap()
}

#[test]
fn the_stored_form_is_exact() {
    let mut entry = small_article();
    entry.record_backend_missing(BackendId::from_index(2));
    let expected = [
        b"3CPN".as_slice(),
        &[220, 0, 0b100, 0b100],
        &[8, 7, 6, 5, 4, 3, 2, 1],
        &[3, 2],
        &[9, 0, 0, 0, 0, 0, 0, 0],
        &[4, 0, 0, 0],
        b"S: T",
        &[2, 0, 0, 0],
        b"Hi",
    ]
    .concat();
    assert_eq!(entry.encode().unwrap(), expected);
    assert_eq!(entry.estimated_size(), expected.len());
}

#[test]
fn faulty_bytes_are_told_apart() {
    let good = small_article().encode().unwrap();
    let error = |data: &[u8]| HybridArticleEntry::decode(data).unwrap_err();

    assert_eq!(error(b"3CP"), CodecError::UnexpectedEnd);
    assert_eq!(error(&good[..20]), CodecError::UnexpectedEnd);
    assert_eq!(error(b"2CPN and more"), CodecError::OldFormat);

    let mut status = good.clone();
    status[4] = 200;
    assert_eq!(error(&status), CodecError::InvalidStatus(200));

    let mut kind = good.clone();
    kind[17] = 6;
    assert_eq!(error(&kind), CodecError::InvalidPayloadKind(6));

    let mut large = good.clone();
    large[29] = 0x10;
    assert_eq!(error(&large), CodecError::SectionTooLarge(0x1000_0004));

    assert_eq!(error(&good[..good.len() - 1]), CodecError::TruncatedSection(2, 1));
}

#[test]
fn an_entry_with_too_many_backends_is_not_stored() {
    let mut entry = small_article();
    entry.record_backend_missing(BackendId::from_index(8));
    assert_eq!(entry.encode().unwrap_err(), CodecError::BitmapTooWide);
}

#[test]
fn codec_errors_have_their_words() {
    assert_eq!(CodecError::OldFormat.message(), "old hybrid cache entry format");
    assert_eq!(
        CodecError::InvalidStatus(200).message(),
        "Invalid cached status code: 200"
    );
    assert_eq!(
        CodecError::InvalidPayloadKind(6).message(),
        "Invalid cached payload kind: 6"
    );
    assert_eq!(
        CodecError::SectionTooLarge(7).message(),
        "Cached article section too large: 7 bytes"
    );
    assert_eq!(
        CodecError::TruncatedSection(2, 1).message(),
        "Expected 2 bytes, got 1"
    );
}

#[test]
fn what_follows_an_entry_is_left_alone() {
    let entry = small_article();
    let mut data = entry.encode().unwrap();
    data.extend_from_slice(b"more");
    assert_entry_eq(&entry, &HybridArticleEntry::decode(&data).unwrap());
}

#[test]
fn an_article_stays_when_only_its_status_is_seen() {
    let later = CacheTimestampMillis { value: NOW.value + 5 };
    let mut full = small_article();
    full.record_backend_has_status_at(
        CacheableStatusCode::Stat,
        BackendId::from_index(0),
        CacheTier::new(1),
        later,
    );
    assert!(full.is_complete_article());
    assert_eq!(full.timestamp(), later);
    assert_eq!(full.tier(), CacheTier::new(3));

    let mut thin = HybridArticleEntry::missing_at(NOW);
    thin.record_backend_missing(BackendId::from_index(4));
    thin.record_backend_has_status_at(
        CacheableStatusCode::Stat,
        BackendId::from_index(0),
        CacheTier::new(1),
        later,
    );
    assert_eq!(thin.status_code().as_u16(), 223);
    assert_eq!(thin.tier(), CacheTier::new(1));
    assert!(!thin.should_try_backend(BackendId::from_index(4)));
}

#[test]
fn facts_of_an_entry_do_not_grow_stale() {
    let mut entry = small_article();
    entry.record_backend_missing(BackendId::from_index(2));
    assert!(!entry.is_availability_stale(0));
    entry.clear_stale_availability(0);
    assert!(!entry.should_try_backend(BackendId::from_index(2)));
}

#[test]
fn an_entry_keeps_everything_in_memory() {
    let mut entry = small_article();
    entry.record_backend_missing(BackendId::from_index(2));
    let article = entry.to_article_entry();
    assert_eq!(article.status_code(), entry.status_code());
    assert_eq!(article.tier(), entry.tier());
    assert_eq!(article.inserted_at(), NOW);
    assert_eq!(article.payload(), entry.payload());
    assert_eq!(article.availability().missing_bits(), 0b100);
}
