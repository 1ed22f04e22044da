//! Cache entries of articles, and the decisions of the article cache.
use crate::bits::{bit, bit_set};
use crate::bytes::first_occurrence;
use crate::cache::availability::ArticleAvailability;
use crate::cache::availability_identity::AvailabilitySlot;
use crate::cache::ingest::{CacheIngestBytes, ChunkedResponse};
use crate::cache::payload::{
    cached_response_for_payload, law_article_is_served_as_stored, lemma_article_payload,
    lemma_payload_size, lemma_status_of_line, number_view, one_line, parse_payload,
    parse_payload_chunked_response, payload_of, served, status_line_of, CachedArticleNumber,
    CachedPayload, CachedPayloadKind, CachedPayloadLen, CachedResponseWire, PayloadModel,
    MAX_STATUS_LINE_BYTES,
};
use crate::cache::ttl::{
    expired_at, is_expired_at, CacheTier, CacheTimestampMillis, CacheTtlMillis,
};
use crate::protocol::{
    blank_line, law_status_is_read, starts_with_status, status_of, terminator, RequestKind,
    StatusCode,
};
use crate::types::{max_backends, BackendCount, BackendId};
use vstd::prelude::*;
use vstd::string::*;

verus! {

/// What an entry says.
#[verifier::ext_equal]
pub struct ArticleModel {
    /// Bitmap of the backends known to miss the article.
    pub missing: usize,
    pub status: u16,
    pub payload: PayloadModel,
    pub tier: CacheTier,
    pub inserted_at: u64,
}

impl ArticleModel {
    /// Backends known to miss the article.
    pub open spec fn missing_set(self) -> Set<nat> {
        bit_set(self.missing)
    }

    /// Does the entry hold the text of the article?
    pub open spec fn complete(self) -> bool {
        self.payload.complete(self.status)
    }

    pub open spec fn valid(self) -> bool {
        self.payload.size() <= usize::MAX
    }
}

/// An entry that says only that some backend gave this status.
pub open spec fn availability_entry(status: u16, tier: CacheTier, now: u64) -> ArticleModel {
    ArticleModel {
        missing: 0,
        status,
        payload: PayloadModel::AvailabilityOnly,
        tier,
        inserted_at: now,
    }
}

/// An entry for an article that no backend is known to have.
pub open spec fn missing_entry(tier: CacheTier, now: u64) -> ArticleModel {
    ArticleModel {
        missing: 0,
        status: 430,
        payload: PayloadModel::Missing,
        tier,
        inserted_at: now,
    }
}

/// The entry for a response: its status, or 430 where it has none, and what is
/// kept of it.
pub open spec fn response_entry(response: Seq<u8>, tier: CacheTier, now: u64) -> ArticleModel {
    let status = match status_of(response) {
        Some(s) => s.code,
        None => 430u16,
    };
    ArticleModel {
        missing: 0,
        status,
        payload: payload_of(status, response),
        tier,
        inserted_at: now,
    }
}

/// A cached article.
#[derive(Debug)]
pub struct CachedArticle {
    backend_availability: ArticleAvailability,
    status_code: StatusCode,
    payload: CachedPayload,
    tier: CacheTier,
    inserted_at: CacheTimestampMillis,
}

impl View for CachedArticle {
    type V = ArticleModel;

    closed spec fn view(&self) -> ArticleModel {
        ArticleModel {
            missing: self.backend_availability.bits(),
            status: self.status_code.code,
            payload: self.payload@,
            tier: self.tier,
            inserted_at: self.inserted_at.value,
        }
    }
}

impl Clone for CachedArticle {
    fn clone(&self) -> (r: Self)
        ensures
            r@ == self@,
    {
        proof {
            use_type_invariant(self);
        }
        CachedArticle {
            backend_availability: self.backend_availability,
            status_code: self.status_code,
            payload: self.payload.clone(),
            tier: self.tier,
            inserted_at: self.inserted_at,
        }
    }
}

impl CachedArticle {
    #[verifier::type_invariant]
    spec fn fits(self) -> bool {
        self.payload@.size() <= usize::MAX
    }

    /// An entry of availability alone, made at `now`.
    pub fn availability_only_at(
        status_code: StatusCode,
        tier: CacheTier,
        now: CacheTimestampMillis,
    ) -> (r: Self)
        ensures
            r@ == availability_entry(status_code.code, tier, now.value),
    {
        CachedArticle {
            backend_availability: ArticleAvailability::new(),
            status_code,
            payload: CachedPayload::AvailabilityOnly,
            tier,
            inserted_at: now,
        }
    }

    /// An entry of availability alone, made now.
    pub fn availability_only(status_code: StatusCode, tier: CacheTier) -> (r: Self)
        ensures
            r@ == availability_entry(status_code.code, tier, r@.inserted_at),
    {
        Self::availability_only_at(status_code, tier, CacheTimestampMillis::now())
    }

    /// An entry for an article that is missing, made at `now`.
    pub fn missing_at(tier: CacheTier, now: CacheTimestampMillis) -> (r: Self)
        ensures
            r@ == missing_entry(tier, now.value),
    {
        CachedArticle {
            backend_availability: ArticleAvailability::new(),
            status_code: StatusCode { code: 430 },
            payload: CachedPayload::Missing,
            tier,
            inserted_at: now,
        }
    }

    /// An entry for an article that is missing, made now.
    pub fn missing(tier: CacheTier) -> (r: Self)
        ensures
            r@ == missing_entry(tier, r@.inserted_at),
    {
        Self::missing_at(tier, CacheTimestampMillis::now())
    }

    /// An entry of nothing but missing bits, such as an availability index
    /// gives.
    pub fn negative_only(missing_bits: usize) -> (r: Self)
        ensures
            r@ == (ArticleModel {
                missing: missing_bits,
                ..missing_entry(CacheTier { value: 0 }, r@.inserted_at)
            }),
    {
        CachedArticle {
            backend_availability: ArticleAvailability::from_bits(missing_bits, missing_bits),
            status_code: StatusCode { code: 430 },
            payload: CachedPayload::Missing,
            tier: CacheTier { value: 0 },
            inserted_at: CacheTimestampMillis::now(),
        }
    }

    pub fn from_parts(
        status_code: StatusCode,
        payload: CachedPayload,
        backend_availability: ArticleAvailability,
        tier: CacheTier,
        inserted_at: u64,
    ) -> (r: Self)
        requires
            payload@.size() <= usize::MAX,
        ensures
            r@ == (ArticleModel {
                missing: backend_availability.bits(),
                status: status_code.code,
                payload: payload@,
                tier,
                inserted_at,
            }),
    {
        CachedArticle {
            backend_availability,
            status_code,
            payload,
            tier,
            inserted_at: CacheTimestampMillis { value: inserted_at },
        }
    }

    /// The entry for a response, made at `now`.
    pub fn from_response_at(response: &[u8], tier: CacheTier, now: CacheTimestampMillis) -> (r: Self)
        ensures
            r@ == response_entry(response@, tier, now.value),
    {
        let status_code = match StatusCode::parse(response) {
            Some(s) => s,
            None => StatusCode { code: 430 },
        };
        let payload = parse_payload(status_code, response);
        proof {
            lemma_payload_size(status_code.code, response@);
            assert(response@.len() == response.len());
        }
        CachedArticle {
            backend_availability: ArticleAvailability::new(),
            status_code,
            payload,
            tier,
            inserted_at: now,
        }
    }

    /// The entry for a response, made now.
    pub fn from_backend_response_with_tier(response: &[u8], tier: CacheTier) -> (r: Self)
        ensures
            r@ == response_entry(response@, tier, r@.inserted_at),
    {
        Self::from_response_at(response, tier, CacheTimestampMillis::now())
    }

    /// The entry for a response in whatever form, made at `now`: the form makes
    /// no difference.
    pub fn from_ingest_at(buffer: &CacheIngestBytes, tier: CacheTier, now: CacheTimestampMillis) -> (r:
        Self)
        ensures
            r@ == response_entry(buffer@, tier, now.value),
    {
        match buffer {
            CacheIngestBytes::Boxed(b) => Self::from_response_at(b.as_slice(), tier, now),
            CacheIngestBytes::Pooled(b) => Self::from_response_at(b.as_slice(), tier, now),
            CacheIngestBytes::Small(s) => Self::from_response_at(s.as_slice(), tier, now),
            CacheIngestBytes::Chunked(c) => Self::from_chunked_response_at(c, tier, now),
        }
    }

    /// The entry for a response in chunks, made at `now`.
    pub fn from_chunked_response_at(
        buffer: &ChunkedResponse,
        tier: CacheTier,
        now: CacheTimestampMillis,
    ) -> (r: Self)
        ensures
            r@ == response_entry(buffer@, tier, now.value),
    {
        let prefix = buffer.prefix(3);
        let status_code = match StatusCode::parse(prefix.as_slice()) {
            Some(s) => s,
            None => StatusCode { code: 430 },
        };
        let payload = parse_payload_chunked_response(status_code, buffer);
        proof {
            lemma_payload_size(status_code.code, buffer@);
        }
        let total = buffer.len();
        CachedArticle {
            backend_availability: ArticleAvailability::new(),
            status_code,
            payload,
            tier,
            inserted_at: now,
        }
    }

    /// The entry for a response in chunks, made now.
    pub fn from_chunked_response_with_tier(buffer: &ChunkedResponse, tier: CacheTier) -> (r: Self)
        ensures
            r@ == response_entry(buffer@, tier, r@.inserted_at),
    {
        Self::from_chunked_response_at(buffer, tier, CacheTimestampMillis::now())
    }

    /// The entry for a response in whatever form, made now.
    pub fn from_backend_response_bytes_with_tier(buffer: CacheIngestBytes, tier: CacheTier) -> (r:
        Self)
        ensures
            r@ == response_entry(buffer@, tier, r@.inserted_at),
    {
        Self::from_ingest_at(&buffer, tier, CacheTimestampMillis::now())
    }

    /// Has the entry outlived its lifetime at `now`?
    pub fn is_expired_at(&self, base_ttl: CacheTtlMillis, now: u64) -> (r: bool)
        ensures
            r == expired_at(now, self@.inserted_at, base_ttl.value, self@.tier),
    {
        is_expired_at(now, self.inserted_at, base_ttl, self.tier)
    }

    /// Has the entry outlived its lifetime now?
    pub fn is_expired(&self, base_ttl: CacheTtlMillis) -> (r: bool)
        ensures
            exists|now: u64|
                r == #[trigger] expired_at(
                    now,
                    self@.inserted_at,
                    base_ttl.value,
                    self@.tier,
                ),
    {
        let now = CacheTimestampMillis::now().value;
        let r = self.is_expired_at(base_ttl, now);
        assert(r == expired_at(now, self@.inserted_at, base_ttl.value, self@.tier));
        r
    }

    pub fn tier(&self) -> (r: CacheTier)
        ensures
            r == self@.tier,
    {
        self.tier
    }

    pub fn inserted_at(&self) -> (r: CacheTimestampMillis)
        ensures
            r.value == self@.inserted_at,
    {
        self.inserted_at
    }

    pub fn payload(&self) -> (r: &CachedPayload)
        ensures
            r@ == self@.payload,
    {
        &self.payload
    }

    pub fn payload_kind(&self) -> (r: CachedPayloadKind)
        ensures
            r == self@.payload.kind(),
    {
        self.payload.kind()
    }

    pub fn article_number(&self) -> (r: Option<CachedArticleNumber>)
        ensures
            number_view(r) == self@.payload.article_number(),
    {
        self.payload.article_number()
    }

    pub fn status_code(&self) -> (r: StatusCode)
        ensures
            r.code == self@.status,
    {
        self.status_code
    }

    /// May this backend have the article?
    pub fn should_try_backend(&self, backend_id: BackendId) -> (r: bool)
        ensures
            r == !self@.missing_set().contains(backend_id@),
    {
        self.backend_availability.should_try(backend_id)
    }

    /// May the provider in this slot have the article?
    pub fn should_try_slot(&self, slot: AvailabilitySlot) -> (r: bool)
        ensures
            r == !self@.missing_set().contains(slot@),
    {
        let b = slot.bit();
        self.backend_availability.missing_bits() & b == 0
    }

    /// Records that a backend answered 430.
    pub fn record_backend_missing(&mut self, backend_id: BackendId)
        ensures
            final(self)@.missing_set() == old(self)@.missing_set().insert(backend_id@),
            final(self)@ == (ArticleModel { missing: final(self)@.missing, ..old(self)@ }),
    {
        proof {
            use_type_invariant(&*self);
        }
        let mut availability = self.backend_availability;
        availability.record_missing(backend_id);
        self.backend_availability = availability;
    }

    /// Records that a backend gave the article. Nothing is kept of it: a
    /// positive answer proves nothing for later, and never takes back a 430.
    pub fn record_backend_has(&mut self, backend_id: BackendId)
        ensures
            *final(self) == *old(self),
    {
    }

    /// Is every one of the first `total_backends` backends known to miss the
    /// article?
    pub fn all_backends_exhausted(&self, total_backends: BackendCount) -> (r: bool)
        ensures
            r == (forall|i: nat| i < total_backends@ ==> self@.missing_set().contains(i)),
    {
        let availability = self.availability();
        assert(availability@ == self@.missing_set());
        availability.all_exhausted(total_backends)
    }

    /// Is any backend known to miss the article?
    pub fn has_availability_info(&self) -> (r: bool)
        ensures
            r == (self@.missing != 0),
    {
        self.backend_availability.has_availability_info()
    }

    pub fn availability(&self) -> (r: ArticleAvailability)
        ensures
            r.bits() == self@.missing,
            r@ == self@.missing_set(),
    {
        self.backend_availability
    }

    /// Does the entry hold the text of an article or of a body?
    pub fn is_complete_article(&self) -> (r: bool)
        ensures
            r == self@.complete(),
    {
        self.payload.is_complete(self.status_code.as_u16())
    }

    /// The facts of this entry about the first `total_backends` backends.
    pub fn to_availability(&self, total_backends: BackendCount) -> (r: ArticleAvailability)
        ensures
            r@ == self@.missing_set().filter(|i: nat| i < total_backends@),
    {
        let n = total_backends.get();
        let mut availability = ArticleAvailability::new();
        assert(availability@ =~= self@.missing_set().filter(|i: nat| i < 0));
        for index in 0..n
            invariant
                n <= max_backends(),
                availability@ == self@.missing_set().filter(|i: nat| i < index),
        {
            let backend_id = BackendId::from_index(index);
            let ghost before = availability@;
            if !self.should_try_backend(backend_id) {
                availability.record_missing(backend_id);
            }
            assert(availability@ =~= self@.missing_set().filter(|i: nat| i < index + 1));
        }
        availability
    }

    pub fn payload_len(&self) -> (r: CachedPayloadLen)
        ensures
            r.value == self@.payload.size(),
    {
        proof {
            use_type_invariant(self);
        }
        self.payload.len()
    }

    /// The response that answers a request from this entry.
    pub fn cached_response_for(&self, request_kind: RequestKind, message_id: &str) -> (r: Option<
        CachedResponseWire<'_>,
    >)
        ensures
            match r {
                Some(w) => served(request_kind, self@.payload, message_id.spec_bytes()) == Some(
                    (w.spec_status().code, w@),
                ),
                None => served(request_kind, self@.payload, message_id.spec_bytes()) is None,
            },
    {
        cached_response_for_payload(&self.payload, request_kind, message_id)
    }
}

// ---------------------------------------------------------------------------
// Decisions of the cache
// ---------------------------------------------------------------------------

/// Number of entries and their weight.
#[derive(Clone, Copy, Debug, PartialEq, Eq)]
pub struct CacheStats {
    pub entry_count: u64,
    pub weighted_size: u64,
}

/// Bytes that an entry accounts for besides its key and payload: its key's
/// control block, the entry itself, the control blocks of its parts, and the
/// cache's own structures.
pub const ENTRY_OVERHEAD: u64 = 2160;

/// Weight of an entry under a key of this many bytes: what it takes in memory.
/// Small entries weigh half as much again, for what allocators lose on them.
pub open spec fn weight_of(key_len: nat, entry: ArticleModel) -> u32 {
    let base = ENTRY_OVERHEAD + key_len + entry.payload.size();
    let weight = if entry.complete() {
        base
    } else {
        (base * 3 + 1) / 2
    };
    if weight > u32::MAX {
        u32::MAX
    } else {
        weight as u32
    }
}

/// Weight of an entry under a key of this many bytes.
pub fn entry_weight(key_len: usize, entry: &CachedArticle) -> (r: u32)
    ensures
        r == weight_of(key_len as nat, entry@),
{
    let base: u128 = ENTRY_OVERHEAD as u128 + key_len as u128 + entry.payload_len().get() as u128;
    let weight: u128 = if entry.is_complete_article() {
        base
    } else {
        (base * 3 + 1) / 2
    };
    if weight > u32::MAX as u128 {
        u32::MAX
    } else {
        weight as u32
    }
}

/// What a lookup found.
#[derive(Debug)]
pub enum CacheLookup {
    /// An entry to serve.
    Hit(CachedArticle),
    /// An entry past its lifetime, to be removed.
    Expired,
    Miss,
}

/// Judges what a cache held under a key, at `now`.
pub fn judge_lookup(found: Option<CachedArticle>, base_ttl: CacheTtlMillis, now: u64) -> (r:
    CacheLookup)
    ensures
        match found {
            Some(e) => if expired_at(now, e@.inserted_at, base_ttl.value, e@.tier) {
                r == CacheLookup::Expired
            } else {
                r == CacheLookup::Hit(e)
            },
            None => r == CacheLookup::Miss,
        },
{
    match found {
        Some(entry) => {
            if entry.is_expired_at(base_ttl, now) {
                CacheLookup::Expired
            } else {
                CacheLookup::Hit(entry)
            }
        },
        None => CacheLookup::Miss,
    }
}

/// The entry that a response would make: with its payload where bodies are
/// kept, else its availability alone, which takes a status.
pub open spec fn template_of(keep_bodies: bool, response: Seq<u8>, tier: CacheTier, now: u64) -> Option<
    ArticleModel,
> {
    if keep_bodies {
        Some(response_entry(response, tier, now))
    } else {
        match status_of(response) {
            Some(s) => Some(availability_entry(s.code, tier, now)),
            None => None,
        }
    }
}

/// The entry that a response would make.
pub fn entry_template(
    keep_bodies: bool,
    buffer: &CacheIngestBytes,
    tier: CacheTier,
    now: CacheTimestampMillis,
) -> (r: Option<CachedArticle>)
    ensures
        match r {
            Some(e) => template_of(keep_bodies, buffer@, tier, now.value) == Some(e@),
            None => template_of(keep_bodies, buffer@, tier, now.value) is None,
        },
{
    if keep_bodies {
        Some(CachedArticle::from_ingest_at(buffer, tier, now))
    } else {
        match buffer.status_code() {
            Some(s) => Some(CachedArticle::availability_only_at(s, tier, now)),
            None => None,
        }
    }
}

/// Does a new entry take the place of an old one? Text of an article is never
/// given up for less; between equals the longer payload wins.
pub open spec fn replaces(old_entry: ArticleModel, new_entry: ArticleModel) -> bool {
    if old_entry.complete() != new_entry.complete() {
        new_entry.complete()
    } else {
        new_entry.payload.size() > old_entry.payload.size()
    }
}

/// The entry after a response: what was known stays known, the better payload
/// is kept, and the lifetime starts anew.
pub open spec fn merged(
    existing: Option<ArticleModel>,
    template: ArticleModel,
    tier: CacheTier,
    now: u64,
) -> ArticleModel {
    match existing {
        Some(e) => if replaces(e, template) {
            ArticleModel {
                missing: e.missing,
                status: template.status,
                payload: template.payload,
                tier,
                inserted_at: now,
            }
        } else {
            ArticleModel { inserted_at: now, ..e }
        },
        None => template,
    }
}

pub open spec fn entry_view(e: Option<CachedArticle>) -> Option<ArticleModel> {
    match e {
        Some(a) => Some(a@),
        None => None,
    }
}

/// The entry to store after a backend gave a response.
pub fn merge_response(
    existing: Option<CachedArticle>,
    template: &CachedArticle,
    backend_id: BackendId,
    tier: CacheTier,
    now: CacheTimestampMillis,
) -> (r: CachedArticle)
    ensures
        r@ == merged(entry_view(existing), template@, tier, now.value),
{
    match existing {
        Some(existing_entry) => {
            let mut entry = existing_entry;
            let old_complete = entry.is_complete_article();
            let new_complete = template.is_complete_article();
            let take_new = if old_complete != new_complete {
                new_complete
            } else {
                template.payload_len().get() > entry.payload_len().get()
            };
            let payload = if take_new {
                template.payload.clone()
            } else {
                entry.payload.clone()
            };
            proof {
                use_type_invariant(template);
                use_type_invariant(&entry);
            }
            let mut next = CachedArticle {
                backend_availability: entry.backend_availability,
                status_code: if take_new {
                    template.status_code
                } else {
                    entry.status_code
                },
                payload,
                tier: if take_new {
                    tier
                } else {
                    entry.tier
                },
                inserted_at: now,
            };
            next.record_backend_has(backend_id);
            next
        },
        None => {
            let mut entry = template.clone();
            entry.record_backend_has(backend_id);
            entry
        },
    }
}

/// The entry after a backend was seen to have the article, without its bytes:
/// the text of an article is kept, anything less gives way.
pub open spec fn with_status(
    existing: Option<ArticleModel>,
    status: u16,
    tier: CacheTier,
    now: u64,
) -> ArticleModel {
    match existing {
        Some(e) => if e.complete() {
            ArticleModel { inserted_at: now, ..e }
        } else {
            ArticleModel { missing: e.missing, ..availability_entry(status, tier, now) }
        },
        None => availability_entry(status, tier, now),
    }
}

/// The entry to store after a backend was seen to have the article.
pub fn record_status(
    existing: Option<CachedArticle>,
    status_code: StatusCode,
    backend_id: BackendId,
    tier: CacheTier,
    now: CacheTimestampMillis,
) -> (r: CachedArticle)
    ensures
        r@ == with_status(entry_view(existing), status_code.code, tier, now.value),
{
    match existing {
        Some(entry) => {
            if entry.is_complete_article() {
                proof {
                    use_type_invariant(&entry);
                }
                CachedArticle {
                    backend_availability: entry.backend_availability,
                    status_code: entry.status_code,
                    payload: entry.payload,
                    tier: entry.tier,
                    inserted_at: now,
                }
            } else {
                CachedArticle {
                    backend_availability: entry.backend_availability,
                    status_code,
                    payload: CachedPayload::AvailabilityOnly,
                    tier,
                    inserted_at: now,
                }
            }
        },
        None => CachedArticle::availability_only_at(status_code, tier, now),
    }
}

/// The entry after a 430: the fact joins what is known; without an entry there
/// is now one for a missing article.
pub fn record_missing(
    existing: Option<CachedArticle>,
    backend_id: BackendId,
    now: CacheTimestampMillis,
) -> (r: CachedArticle)
    ensures
        ({
            let before = match entry_view(existing) {
                Some(e) => e,
                None => missing_entry(CacheTier { value: 0 }, now.value),
            };
            &&& r@.missing_set() == before.missing_set().insert(backend_id@)
            &&& r@ == (ArticleModel { missing: r@.missing, ..before })
        }),
{
    let mut entry = match existing {
        Some(e) => e,
        None => CachedArticle::missing_at(CacheTier { value: 0 }, now),
    };
    entry.record_backend_missing(backend_id);
    entry
}

/// What to do with the facts that a request gathered.
#[derive(Debug)]
pub enum SyncAction {
    /// Nothing was learnt.
    Keep,
    /// Store this entry.
    Put(CachedArticle),
}

/// Joins the facts that a request gathered to what is stored. Without an entry
/// there is one now, since every backend that was checked misses the article.
pub fn sync_facts(
    existing: Option<CachedArticle>,
    availability: &ArticleAvailability,
    now: CacheTimestampMillis,
) -> (r: SyncAction)
    ensures
        if availability.bits() == 0 {
            r == SyncAction::Keep
        } else {
            match entry_view(existing) {
                Some(e) => match r {
                    SyncAction::Put(p) => p@ == (ArticleModel {
                        missing: e.missing | availability.bits(),
                        ..e
                    }) && p@.missing_set() == e.missing_set().union(availability@),
                    SyncAction::Keep => false,
                },
                None => match r {
                    SyncAction::Put(p) => p@ == (ArticleModel {
                        missing: availability.bits(),
                        ..missing_entry(CacheTier { value: 0 }, now.value)
                    }),
                    SyncAction::Keep => false,
                },
            }
        },
{
    if availability.checked_bits() == 0 {
        return SyncAction::Keep;
    }
    match existing {
        Some(entry) => {
            let mut facts = entry.backend_availability;
            facts.merge_from(availability);
            proof {
                use_type_invariant(&entry);
            }
            SyncAction::Put(
                CachedArticle {
                    backend_availability: facts,
                    status_code: entry.status_code,
                    payload: entry.payload,
                    tier: entry.tier,
                    inserted_at: entry.inserted_at,
                },
            )
        },
        None => {
            if availability.any_backend_has_article() {
                SyncAction::Keep
            } else {
                SyncAction::Put(
                    CachedArticle {
                        backend_availability: *availability,
                        status_code: StatusCode { code: 430 },
                        payload: CachedPayload::Missing,
                        tier: CacheTier { value: 0 },
                        inserted_at: now,
                    },
                )
            }
        },
    }
}

// ---------------------------------------------------------------------------
// Laws
// ---------------------------------------------------------------------------

/// Text of an article that is cached is never lost to a response without one,
/// and a response with text replaces an entry without.
pub proof fn law_text_is_never_lost(e: ArticleModel, template: ArticleModel, tier: CacheTier, now: u64)
    ensures
        e.complete() && !template.complete() ==> merged(Some(e), template, tier, now).payload
            == e.payload,
        !e.complete() && template.complete() ==> merged(Some(e), template, tier, now).payload
            == template.payload,
        e.complete() ==> merged(Some(e), template, tier, now).complete(),
        e.complete() ==> with_status(Some(e), template.status, tier, now).payload == e.payload,
{
}

/// A payload never shrinks under responses of its own sort.
pub proof fn law_payload_never_shrinks(e: ArticleModel, template: ArticleModel, tier: CacheTier, now: u64)
    requires
        e.complete() == template.complete(),
    ensures
        merged(Some(e), template, tier, now).payload.size() >= e.payload.size(),
{
}

/// Between two entries with text, and between two without, the longer payload
/// wins and brings its status and its tier; one that is no longer changes
/// nothing of them. So the payload is never smaller than either.
pub proof fn law_longer_payload_wins(e: ArticleModel, template: ArticleModel, tier: CacheTier, now: u64)
    requires
        e.complete() == template.complete(),
    ensures
        ({
            let after = merged(Some(e), template, tier, now);
            &&& template.payload.size() > e.payload.size() ==> {
                &&& after.payload == template.payload
                &&& after.status == template.status
                &&& after.tier == tier
            }
            &&& template.payload.size() <= e.payload.size() ==> {
                &&& after.payload == e.payload
                &&& after.status == e.status
                &&& after.tier == e.tier
            }
            &&& after.payload.size() >= e.payload.size()
            &&& after.payload.size() >= template.payload.size()
        }),
{
}

/// Text takes the place of anything without text, with its status and its tier,
/// and gives way to nothing without text.
pub proof fn law_text_wins(e: ArticleModel, template: ArticleModel, tier: CacheTier, now: u64)
    requires
        e.complete() != template.complete(),
    ensures
        ({
            let after = merged(Some(e), template, tier, now);
            &&& template.complete() ==> {
                &&& after.payload == template.payload
                &&& after.status == template.status
                &&& after.tier == tier
            }
            &&& e.complete() ==> {
                &&& after.payload == e.payload
                &&& after.status == e.status
                &&& after.tier == e.tier
            }
            &&& after.complete()
        }),
{
}

/// A first response is stored as it is.
pub proof fn law_first_response_is_stored(template: ArticleModel, tier: CacheTier, now: u64)
    ensures
        merged(None, template, tier, now) == template,
{
}

/// An article that comes after less of it is served from then on: whole, and its
/// headers alone.
pub proof fn law_later_article_is_served(
    e: ArticleModel,
    number: u64,
    message_id: Seq<u8>,
    headers: Seq<u8>,
    body: Seq<u8>,
    tier: CacheTier,
    now: u64,
)
    requires
        one_line(message_id),
        status_line_of(220, number, message_id).len() <= MAX_STATUS_LINE_BYTES,
        first_occurrence(headers + blank_line() + body, blank_line()) == Some(
            headers.len() as int,
        ),
        e.payload.size() < headers.len() + body.len(),
    ensures
        ({
            let response = status_line_of(220, number, message_id) + headers + blank_line() + body
                + terminator();
            let after = merged(Some(e), response_entry(response, tier, now), tier, now);
            &&& after.status == 220
            &&& served(RequestKind::Article, after.payload, message_id) == Some((220u16, response))
            &&& served(RequestKind::Head, after.payload, message_id) == Some(
                (221u16, status_line_of(221, number, message_id) + headers + terminator()),
            )
            &&& served(RequestKind::Body, after.payload, message_id) == Some(
                (222u16, status_line_of(222, number, message_id) + body + terminator()),
            )
        }),
{
    let line = status_line_of(220, number, message_id);
    let response = line + headers + blank_line() + body + terminator();
    law_article_is_served_as_stored(number, message_id, headers, body);
    lemma_article_payload(number, message_id, headers, body);
    lemma_status_of_line(220, number, message_id, headers + blank_line() + body + terminator());
    assert(line + (headers + blank_line() + body + terminator()) =~= response);
    assert(response_entry(response, tier, now).complete());
}

/// A 430 stays known whatever is stored after it: no response, no positive
/// answer and no gathering of facts takes it back.
pub proof fn law_missing_is_authoritative(
    e: ArticleModel,
    template: ArticleModel,
    status: u16,
    tier: CacheTier,
    now: u64,
    backend: nat,
    gathered: usize,
)
    requires
        e.missing_set().contains(backend),
    ensures
        merged(Some(e), template, tier, now).missing_set().contains(backend),
        with_status(Some(e), status, tier, now).missing_set().contains(backend),
        bit_set(e.missing | gathered).contains(backend),
{
    crate::bits::lemma_or(e.missing, gathered);
}

/// Every response that is stored starts the lifetime of its entry anew.
pub proof fn law_storing_refreshes(
    e: ArticleModel,
    template: ArticleModel,
    status: u16,
    tier: CacheTier,
    now: u64,
)
    ensures
        merged(Some(e), template, tier, now).inserted_at == now,
        with_status(Some(e), status, tier, now).inserted_at == now,
{
}

/// A response without a status is taken for a 430.
pub proof fn law_no_status_counts_as_missing(response: Seq<u8>, tier: CacheTier, now: u64)
    requires
        status_of(response) is None,
    ensures
        response_entry(response, tier, now).status == 430,
        response_entry(response, tier, now).payload == PayloadModel::Missing,
        response_entry(response, tier, now).missing == 0,
        response_entry(response, tier, now).tier == tier,
        response_entry(response, tier, now).inserted_at == now,
{
}

/// Where bodies are not kept, a response leaves its status and nothing of its
/// payload, and one without a status leaves nothing at all. Where they are, it
/// leaves both.
pub proof fn law_what_a_response_leaves(response: Seq<u8>, code: int, tier: CacheTier, now: u64)
    requires
        starts_with_status(response, code),
    ensures
        ({
            let kept = template_of(true, response, tier, now);
            let lean = template_of(false, response, tier, now);
            &&& kept is Some && lean is Some
            &&& kept->0.status == code && lean->0.status == code
            &&& kept->0.payload == payload_of(code as u16, response)
            &&& lean->0.payload == PayloadModel::AvailabilityOnly
            &&& kept->0.tier == tier && lean->0.tier == tier
            &&& kept->0.inserted_at == now && lean->0.inserted_at == now
            &&& kept->0.missing == 0 && lean->0.missing == 0
        }),
        status_of(Seq::<u8>::empty()) is None,
        template_of(false, Seq::<u8>::empty(), tier, now) is None,
{
    law_status_is_read(response, code);
}

/// A backend that is seen to have an article replaces what has no text by its
/// status alone, and refreshes what has.
pub proof fn law_seen_articles(e: ArticleModel, status: u16, tier: CacheTier, now: u64)
    ensures
        ({
            let after = with_status(Some(e), status, tier, now);
            let first = with_status(None, status, tier, now);
            &&& e.complete() ==> after.payload == e.payload && after.status == e.status
                && after.tier == e.tier
            &&& !e.complete() ==> after.payload == PayloadModel::AvailabilityOnly && after.status
                == status && after.tier == tier
            &&& after.missing == e.missing
            &&& first.payload == PayloadModel::AvailabilityOnly && first.status == status
                && first.tier == tier && first.missing == 0 && first.inserted_at == now
        }),
{
}

/// An entry weighs what its key, its payload and 2160 bytes around them come to,
/// and half as much again where it has no text, rounded up; the largest weight
/// stands for every larger one.
pub proof fn law_weights(key_len: nat, e: ArticleModel)
    ensures
        ({
            let bytes = 2160 + key_len + e.payload.size();
            let weight = weight_of(key_len, e);
            &&& e.complete() && bytes <= u32::MAX ==> weight == bytes
            &&& !e.complete() && 3 * bytes <= u32::MAX ==> 3 * bytes <= 2 * weight <= 3 * bytes + 1
            &&& bytes > u32::MAX ==> weight == u32::MAX
        }),
{
}

} // verus!
