//! Decisions of the cache with a memory tier and a disk tier.
use crate::bytes::{
    law_le_round_trip, le_bytes, le_field, lemma_le_bounds, lemma_le_bytes_len, push_bytes, push_u64,
    to_vec, u64_at,
};
use crate::cache::article::{missing_entry, ArticleModel};
use crate::cache::availability::ArticleAvailability;
use crate::cache::hybrid_codec::{
    cacheable, decoded, entry_wire, hybrid_entry, law_entry_of_a_response, law_entry_round_trip,
    restorable, store_refusal, CacheableStatusCode, CodecError, HybridArticleEntry,
};
use crate::cache::payload::payload_of;
use crate::cache::ttl::{expired_at, CacheTier, CacheTimestampMillis};
use crate::protocol::{
    crlf, crlf_bytes, law_status_is_read, starts_with_status, status_of, StatusCode,
};
use crate::text::{concat3, decimal_text, number_string, string_of};
use crate::types::{BackendId, Duration};
use vstd::prelude::*;
use vstd::string::*;
use vstd::utf8::*;

verus! {

/// Shape of the cache.
#[derive(Debug)]
pub struct HybridCacheConfig {
    /// Bytes of the memory tier.
    pub memory_capacity: u64,
    /// Bytes of the disk tier.
    pub disk_capacity: u64,
    pub disk_path: String,
    pub ttl: Duration,
    /// Keep whole articles, or only what is known of them.
    pub cache_articles: bool,
    pub compression: bool,
    pub shards: usize,
}

impl Clone for HybridCacheConfig {
    fn clone(&self) -> (r: Self)
        ensures
            r.memory_capacity == self.memory_capacity,
            r.disk_capacity == self.disk_capacity,
            r.disk_path@ == self.disk_path@,
            r.ttl == self.ttl,
            r.cache_articles == self.cache_articles,
            r.compression == self.compression,
            r.shards == self.shards,
    {
        HybridCacheConfig {
            memory_capacity: self.memory_capacity,
            disk_capacity: self.disk_capacity,
            disk_path: self.disk_path.clone(),
            ttl: self.ttl,
            cache_articles: self.cache_articles,
            compression: self.compression,
            shards: self.shards,
        }
    }
}

impl Default for HybridCacheConfig {
    fn default() -> (r: Self)
        ensures
            r.memory_capacity == 256 * 1024 * 1024,
            r.disk_capacity == 10 * 1024 * 1024 * 1024,
            r.disk_path@ == "/var/cache/nntp-proxy"@,
            r.ttl@ == 3600 * 1_000_000_000,
            r.cache_articles,
            r.compression,
            r.shards == 16,
    {
        HybridCacheConfig {
            memory_capacity: 268_435_456,
            disk_capacity: 10_737_418_240,
            disk_path: string_of("/var/cache/nntp-proxy"),
            ttl: Duration::from_secs(3600),
            cache_articles: true,
            compression: true,
            shards: 16,
        }
    }
}

/// Counts of the cache.
#[derive(Clone, Copy, Debug, PartialEq, Eq, Structural)]
pub struct HybridCacheStats {
    pub hits: u64,
    pub misses: u64,
    pub disk_hits: u64,
    pub memory_capacity: u64,
    pub disk_capacity: u64,
    pub disk_write_bytes: u64,
    pub disk_read_bytes: u64,
    pub disk_write_ios: u64,
    pub disk_read_ios: u64,
}

// ---------------------------------------------------------------------------
// Starting
// ---------------------------------------------------------------------------

/// Bytes of a binary gigabyte.
pub const GIGABYTE: u64 = 1_073_741_824;

/// Bytes of a binary megabyte.
pub const MEGABYTE: u64 = 1_048_576;

/// Why the cache cannot start.
#[derive(Clone, Copy, Debug, PartialEq, Eq, Structural)]
pub enum HybridCacheError {
    /// The disk has fewer bytes free than the cache may use: wanted, and free.
    InsufficientSpace(u64, u64),
    /// The disk tier is larger than the machine can address.
    DiskTooLarge(u64),
    /// The memory tier is larger than the machine can address.
    MemoryTooLarge,
}

impl HybridCacheError {
    /// The words for the error, for a cache at this path.
    pub open spec fn text(self, path: Seq<char>) -> Seq<char> {
        match self {
            HybridCacheError::InsufficientSpace(wanted, free) => {
                let head = "Insufficient disk space for cache:\nPath: "@ + path + "\nRequired: "@;
                let a = head + decimal_text((wanted / GIGABYTE) as nat) + " GB\nAvailable: "@;
                let b = a + decimal_text((free / GIGABYTE) as nat) + " GB\nSolution: Free up "@;
                b + decimal_text(((wanted - free) as u64 / GIGABYTE) as nat)
                    + " GB or reduce 'disk_capacity' in config."@
            },
            HybridCacheError::DiskTooLarge(bytes) => {
                let head = "Disk capacity "@ + decimal_text(bytes as nat)
                    + " bytes too large for platform (max "@;
                head + decimal_text(usize::MAX as nat) + " bytes)"@
            },
            HybridCacheError::MemoryTooLarge => "Memory capacity too large for platform"@,
        }
    }

    /// The words for the error, for a cache at this path.
    pub fn message(&self, path: &str) -> (r: String)
        requires
            match *self {
                HybridCacheError::InsufficientSpace(wanted, free) => free <= wanted,
                _ => true,
            },
        ensures
            r@ == self.text(path@),
    {
        match self {
            HybridCacheError::InsufficientSpace(wanted, free) => {
                let head = concat3("Insufficient disk space for cache:\nPath: ", path, "\nRequired: ");
                let w = number_string(*wanted / GIGABYTE);
                let a = concat3(head.as_str(), w.as_str(), " GB\nAvailable: ");
                let f = number_string(*free / GIGABYTE);
                let b = concat3(a.as_str(), f.as_str(), " GB\nSolution: Free up ");
                let d = number_string((*wanted - *free) / GIGABYTE);
                concat3(b.as_str(), d.as_str(), " GB or reduce 'disk_capacity' in config.")
            },
            HybridCacheError::DiskTooLarge(bytes) => {
                let n = number_string(*bytes);
                let head = concat3(
                    "Disk capacity ",
                    n.as_str(),
                    " bytes too large for platform (max ",
                );
                let m = number_string(usize::MAX as u64);
                concat3(head.as_str(), m.as_str(), " bytes)")
            },
            HybridCacheError::MemoryTooLarge => string_of("Memory capacity too large for platform"),
        }
    }
}

/// Why a cache of this shape cannot start, if it cannot, on a disk with this
/// many bytes free; none where that is not known.
pub open spec fn start_refusal(config: HybridCacheConfig, available: Option<u64>) -> Option<
    HybridCacheError,
> {
    if available is Some && available->0 < config.disk_capacity {
        Some(HybridCacheError::InsufficientSpace(config.disk_capacity, available->0))
    } else if config.disk_capacity > usize::MAX {
        Some(HybridCacheError::DiskTooLarge(config.disk_capacity))
    } else if config.memory_capacity > usize::MAX {
        Some(HybridCacheError::MemoryTooLarge)
    } else {
        None
    }
}

/// The capacities of the two tiers, memory first, as the machine counts bytes.
pub fn tier_capacities(config: &HybridCacheConfig, available: Option<u64>) -> (r: Result<
    (usize, usize),
    HybridCacheError,
>)
    ensures
        match r {
            Ok((memory, disk)) => start_refusal(*config, available) is None && memory
                == config.memory_capacity && disk == config.disk_capacity,
            Err(e) => start_refusal(*config, available) == Some(e),
        },
{
    if let Some(free) = available {
        if free < config.disk_capacity {
            return Err(HybridCacheError::InsufficientSpace(config.disk_capacity, free));
        }
    }
    if config.disk_capacity > usize::MAX as u64 {
        return Err(HybridCacheError::DiskTooLarge(config.disk_capacity));
    }
    if config.memory_capacity > usize::MAX as u64 {
        return Err(HybridCacheError::MemoryTooLarge);
    }
    Ok((config.memory_capacity as usize, config.disk_capacity as usize))
}

/// An error text says that the disk is full.
pub open spec fn tells_of_full_disk(text: Seq<u8>) -> bool {
    crate::bytes::first_occurrence(text, "No space left".spec_bytes()) is Some
        || crate::bytes::first_occurrence(text, "ENOSPC".spec_bytes()) is Some
}

/// Does an error text say that the disk is full?
pub fn is_disk_full(text: &str) -> (r: bool)
    ensures
        r == tells_of_full_disk(text.spec_bytes()),
{
    crate::bytes::find(text.as_bytes(), "No space left".as_bytes()).is_some() || crate::bytes::find(
        text.as_bytes(),
        "ENOSPC".as_bytes(),
    ).is_some()
}

// ---------------------------------------------------------------------------
// Entries
// ---------------------------------------------------------------------------

/// What a lookup found.
#[derive(Debug)]
pub enum HybridLookup {
    Hit(HybridArticleEntry),
    /// Nothing, or an entry past its lifetime. An entry is not removed for its
    /// age: the cache drops it when it needs the room.
    Miss,
}

/// Judges what the cache held under a key, at `now`.
pub fn judge_hybrid_lookup(found: Option<HybridArticleEntry>, ttl_millis: u64, now: u64) -> (r:
    HybridLookup)
    ensures
        match found {
            Some(e) => if expired_at(now, e@.inserted_at, ttl_millis, e@.tier) {
                r == HybridLookup::Miss
            } else {
                r == HybridLookup::Hit(e)
            },
            None => r == HybridLookup::Miss,
        },
{
    match found {
        Some(entry) => {
            if entry.is_expired_at(ttl_millis, now) {
                HybridLookup::Miss
            } else {
                HybridLookup::Hit(entry)
            }
        },
        None => HybridLookup::Miss,
    }
}

/// Can a stub be cut from the response? A carriage return as its last byte is
/// left out.
pub open spec fn stub_cut(buffer: Seq<u8>) -> bool {
    crate::bytes::first_byte(buffer, 0x0d) + 2 <= buffer.len() || crate::bytes::first_byte(
        buffer,
        0x0d,
    ) == buffer.len()
}

/// What is left of a response whose text is not kept: its status line, or its
/// status where no line ends.
pub open spec fn stub_of(buffer: Seq<u8>) -> Seq<u8> {
    let pos = crate::bytes::first_byte(buffer, 0x0d) as int;
    if pos < buffer.len() {
        buffer.subrange(0, pos + 2)
    } else if buffer.len() >= 3 {
        buffer.subrange(0, 3) + crlf()
    } else {
        buffer
    }
}

/// What is left of a response whose text is not kept.
pub fn create_stub(buffer: &[u8]) -> (r: Vec<u8>)
    requires
        stub_cut(buffer@),
    ensures
        r@ == stub_of(buffer@),
{
    let pos = crate::bytes::find_first(0x0d, buffer);
    if pos < buffer.len() {
        to_vec(&buffer[0..pos + 2])
    } else if buffer.len() >= 3 {
        let mut stub = to_vec(&buffer[0..3]);
        push_bytes(&mut stub, crlf_bytes());
        stub
    } else {
        to_vec(buffer)
    }
}

/// The response is an answer that is cached and has no payload: it says no more
/// than a stub does.
pub open spec fn says_no_more_than_stub(response: Seq<u8>) -> bool {
    match status_of(response) {
        Some(s) => cacheable(s.code) is Some && payload_of(s.code, response).size() == 0,
        None => false,
    }
}

/// What the cache keeps under a key: an entry, and the length of the response
/// that it was made from.
#[derive(Clone, Debug)]
pub struct StoredEntry {
    pub entry: HybridArticleEntry,
    pub response_len: u64,
}

/// What the cache keeps, as contracts speak of it.
#[verifier::ext_equal]
pub struct StoredModel {
    pub entry: ArticleModel,
    pub response_len: nat,
}

impl View for StoredEntry {
    type V = StoredModel;

    open spec fn view(&self) -> StoredModel {
        StoredModel { entry: self.entry@, response_len: self.response_len as nat }
    }
}

pub open spec fn stored_view(e: Option<StoredEntry>) -> Option<StoredModel> {
    match e {
        Some(s) => Some(s@),
        None => None,
    }
}

/// Bytes of `430` and a line end, the least response that says that an article
/// is missing.
pub const MISSING_RESPONSE_BYTES: u64 = 5;

/// What is kept of an article that is missing: as if a bare 430 had come.
pub open spec fn stored_missing(now: u64) -> StoredModel {
    StoredModel {
        entry: missing_entry(CacheTier { value: 0 }, now),
        response_len: MISSING_RESPONSE_BYTES as nat,
    }
}

fn missing_record(now: CacheTimestampMillis) -> (r: StoredEntry)
    ensures
        r@ == stored_missing(now.value),
{
    StoredEntry {
        entry: HybridArticleEntry::missing_at(now),
        response_len: MISSING_RESPONSE_BYTES,
    }
}

/// The stored form: the length of the response, then the entry.
pub open spec fn record_wire(e: StoredModel) -> Seq<u8> {
    le_bytes(e.response_len, 8) + entry_wire(e.entry)
}

/// What stored bytes stand for.
pub open spec fn record_of(data: Seq<u8>) -> Result<StoredModel, CodecError> {
    if data.len() < 8 {
        Err(CodecError::UnexpectedEnd)
    } else {
        match decoded(data.subrange(8, data.len() as int)) {
            Ok(entry) => Ok(StoredModel { entry, response_len: le_field(data, 0, 8)->0 }),
            Err(e) => Err(e),
        }
    }
}

impl StoredEntry {
    /// The stored form.
    pub fn encode(&self) -> (r: Result<Vec<u8>, CodecError>)
        ensures
            match r {
                Ok(bytes) => store_refusal(self@.entry) is None && bytes@ == record_wire(self@),
                Err(e) => store_refusal(self@.entry) == Some(e),
            },
    {
        match self.entry.encode() {
            Ok(bytes) => {
                let mut out: Vec<u8> = Vec::new();
                push_u64(&mut out, self.response_len);
                push_bytes(&mut out, bytes.as_slice());
                assert(out@ =~= record_wire(self@));
                Ok(out)
            },
            Err(e) => Err(e),
        }
    }

    /// Reads a stored form.
    pub fn decode(data: &[u8]) -> (r: Result<Self, CodecError>)
        ensures
            match r {
                Ok(e) => record_of(data@) == Ok::<StoredModel, CodecError>(e@),
                Err(e) => record_of(data@) == Err::<StoredModel, CodecError>(e),
            },
    {
        assert(data@.len() == data.len());
        let response_len = match u64_at(data, 0) {
            Some(n) => n,
            None => {
                return Err(CodecError::UnexpectedEnd);
            },
        };
        match HybridArticleEntry::decode(&data[8..data.len()]) {
            Ok(entry) => Ok(StoredEntry { entry, response_len }),
            Err(e) => Err(e),
        }
    }
}

/// What is kept stays when this response comes. It does where the response that
/// it was made from was longer, and where it has a payload and the response says
/// no more than a stub.
pub open spec fn keeps_old(existing: Option<StoredModel>, response: Seq<u8>) -> bool {
    existing is Some && (existing->0.response_len > response.len()
        || existing->0.entry.payload.size() > 0 && says_no_more_than_stub(response))
}

impl StoredEntry {
    /// Does this stay when a response comes?
    pub fn stays(&self, response: &[u8]) -> (r: bool)
        ensures
            r == keeps_old(Some(self@), response@),
    {
        assert(response@.len() == response.len());
        self.response_len > response.len() as u64 || (self.entry.payload_len().get() > 0
            && is_no_more_than_stub(response))
    }
}

/// What to keep after a response; nothing where the response is no answer that
/// is cached. What stays has its lifetime start anew.
pub open spec fn hybrid_upserted(
    existing: Option<StoredModel>,
    keep_bodies: bool,
    response: Seq<u8>,
    tier: CacheTier,
    now: u64,
) -> Option<StoredModel> {
    if keeps_old(existing, response) {
        Some(
            StoredModel {
                entry: ArticleModel { inserted_at: now, ..existing->0.entry },
                ..existing->0
            },
        )
    } else {
        let kept = if keep_bodies {
            response
        } else {
            stub_of(response)
        };
        match hybrid_entry(kept, tier, now) {
            Some(entry) => Some(StoredModel { entry, response_len: kept.len() }),
            None => None,
        }
    }
}

/// What to keep after a backend gave a response.
pub fn hybrid_upsert(
    existing: Option<StoredEntry>,
    keep_bodies: bool,
    response: &[u8],
    backend_id: BackendId,
    tier: CacheTier,
    now: CacheTimestampMillis,
) -> (r: Option<StoredEntry>)
    requires
        keep_bodies || stub_cut(response@) || keeps_old(stored_view(existing), response@),
    ensures
        stored_view(r) == hybrid_upserted(
            stored_view(existing),
            keep_bodies,
            response@,
            tier,
            now.value,
        ),
{
    if let Some(mut old_one) = existing {
        if old_one.stays(response) {
            old_one.entry.refresh(now);
            old_one.entry.record_backend_has(backend_id);
            return Some(old_one);
        }
    }
    if keep_bodies {
        stored_response(response, backend_id, tier, now)
    } else {
        let stub = create_stub(response);
        stored_response(stub.as_slice(), backend_id, tier, now)
    }
}

fn stored_response(
    kept: &[u8],
    backend_id: BackendId,
    tier: CacheTier,
    now: CacheTimestampMillis,
) -> (r: Option<StoredEntry>)
    ensures
        stored_view(r) == (match hybrid_entry(kept@, tier, now.value) {
            Some(entry) => Some(StoredModel { entry, response_len: kept@.len() }),
            None => None,
        }),
{
    assert(kept@.len() == kept.len());
    match HybridArticleEntry::from_wire_response_at(kept, tier, now) {
        Some(mut entry) => {
            entry.record_backend_has(backend_id);
            Some(StoredEntry { entry, response_len: kept.len() as u64 })
        },
        None => None,
    }
}

fn is_no_more_than_stub(response: &[u8]) -> (r: bool)
    ensures
        r == says_no_more_than_stub(response@),
{
    let status = match StatusCode::parse(response) {
        Some(s) => s,
        None => {
            return false;
        },
    };
    if CacheableStatusCode::from_code(status.as_u16()).is_none() {
        return false;
    }
    let payload = crate::cache::payload::parse_payload(status, response);
    proof {
        crate::cache::payload::lemma_payload_size(status.code, response@);
        assert(response@.len() == response.len());
    }
    payload.len().get() == 0
}

/// What to keep after a 430: the fact joins what is known; where nothing was,
/// the article is now known to be missing.
pub fn hybrid_record_missing(
    existing: Option<StoredEntry>,
    backend_id: BackendId,
    now: CacheTimestampMillis,
) -> (r: StoredEntry)
    ensures
        ({
            let before = match stored_view(existing) {
                Some(e) => e,
                None => stored_missing(now.value),
            };
            &&& r@.entry.missing_set() == before.entry.missing_set().insert(backend_id@)
            &&& r@ == (StoredModel {
                entry: ArticleModel { missing: r@.entry.missing, ..before.entry },
                ..before
            })
        }),
{
    let mut record = match existing {
        Some(e) => e,
        None => missing_record(now),
    };
    record.entry.record_backend_missing(backend_id);
    record
}

/// What to keep after a request gathered facts; nothing new where it gathered
/// none.
pub fn hybrid_sync(
    existing: Option<StoredEntry>,
    availability: &ArticleAvailability,
    now: CacheTimestampMillis,
) -> (r: Option<StoredEntry>)
    ensures
        if availability.bits() == 0 {
            r is None
        } else {
            let before = match stored_view(existing) {
                Some(e) => e,
                None => stored_missing(now.value),
            };
            r is Some && r->0@ == (StoredModel {
                entry: ArticleModel {
                    missing: before.entry.missing | availability.bits(),
                    ..before.entry
                },
                ..before
            })
        },
{
    if availability.checked_bits() == 0 {
        return None;
    }
    let mut record = match existing {
        Some(e) => e,
        None => {
            if availability.any_backend_has_article() {
                return None;
            }
            missing_record(now)
        },
    };
    record.entry.merge_availability(availability);
    Some(record)
}

/// A longer response is never given up for a shorter one, nor a payload for a
/// stub: payload, status and tier stay as they were.
pub proof fn law_larger_response_stays(
    existing: StoredModel,
    keep_bodies: bool,
    response: Seq<u8>,
    tier: CacheTier,
    now: u64,
)
    requires
        response.len() < existing.response_len || (existing.entry.payload.size() > 0
            && says_no_more_than_stub(response)),
    ensures
        hybrid_upserted(Some(existing), keep_bodies, response, tier, now) == Some(
            StoredModel {
                entry: ArticleModel { inserted_at: now, ..existing.entry },
                ..existing
            },
        ),
{
}

/// What was stored is read back, with the length of its response. What cannot be
/// read back of an entry is left out here too.
pub proof fn law_record_round_trip(e: StoredModel)
    requires
        restorable(e.entry),
        e.response_len <= u64::MAX,
    ensures
        record_of(record_wire(e)) == Ok::<StoredModel, CodecError>(e),
{
    lemma_le_bounds();
    lemma_le_bytes_len(e.response_len, 8);
    law_le_round_trip(e.response_len, 8);
    let data = record_wire(e);
    assert(data.subrange(0, 8) =~= le_bytes(e.response_len, 8));
    assert(data.subrange(8, data.len() as int) =~= entry_wire(e.entry) + Seq::<u8>::empty());
    law_entry_round_trip(e.entry, Seq::empty());
}

/// A response of a status that is cached is kept, with its length, where nothing
/// was, and where what was came of a response that was no longer and does not have
/// to stay for a stub. Without bodies only its status line is kept.
pub proof fn law_new_response_is_kept(
    existing: Option<StoredModel>,
    response: Seq<u8>,
    code: int,
    tier: CacheTier,
    now: u64,
)
    requires
        starts_with_status(response, code),
        220 <= code <= 223 || code == 430,
        existing is Some ==> existing->0.response_len <= response.len() && (
        existing->0.entry.payload.size() == 0 || payload_of(code as u16, response).size() > 0),
    ensures
        ({
            let kept = hybrid_upserted(existing, true, response, tier, now);
            &&& kept is Some
            &&& kept->0.response_len == response.len()
            &&& kept->0.entry.status == code
            &&& kept->0.entry.payload == payload_of(code as u16, response)
            &&& kept->0.entry.tier == tier
            &&& kept->0.entry.inserted_at == now
        }),
        ({
            let kept = hybrid_upserted(existing, false, response, tier, now);
            &&& kept == (match hybrid_entry(stub_of(response), tier, now) {
                Some(entry) => Some(StoredModel { entry, response_len: stub_of(response).len() }),
                None => None,
            })
        }),
{
    law_status_is_read(response, code);
    law_entry_of_a_response(response, code, tier, now);
}

/// A response of another status changes nothing where what was came of a response
/// that was no longer.
pub proof fn law_other_statuses_are_not_kept(
    existing: Option<StoredModel>,
    response: Seq<u8>,
    code: int,
    tier: CacheTier,
    now: u64,
)
    requires
        starts_with_status(response, code),
        !(220 <= code <= 223 || code == 430),
        existing is Some ==> existing->0.response_len <= response.len(),
    ensures
        hybrid_upserted(existing, true, response, tier, now) is None,
{
    law_status_is_read(response, code);
    law_entry_of_a_response(response, code, tier, now);
    crate::cache::hybrid_codec::law_cacheable_statuses(code as u16);
}

/// A stub is the first line of a response, with its line end.
pub proof fn law_stub_is_the_first_line(line: Seq<u8>, rest: Seq<u8>)
    requires
        forall|i: int| 0 <= i < line.len() ==> #[trigger] line[i] != 0x0d,
    ensures
        stub_of(line + seq![0x0du8, 0x0a] + rest) == line + seq![0x0du8, 0x0a],
        line.len() >= 3 ==> stub_of(line) == line.subrange(0, 3) + seq![0x0du8, 0x0a],
        line.len() < 3 ==> stub_of(line) == line,
{
    let all = line + seq![0x0du8, 0x0a] + rest;
    let n = line.len() as int;
    crate::bytes::lemma_first_byte(all, 0x0d, n);
    assert(all.subrange(0, n + 2) =~= line + seq![0x0du8, 0x0a]);
    crate::bytes::lemma_first_byte(line, 0x0d, n);
    assert(crlf() =~= seq![0x0du8, 0x0a]);
}

/// A cache starts where the disk has room for it and the machine can count its
/// bytes, and only there. A disk of which the room is not known is not asked.
pub proof fn law_room_for_the_cache(config: HybridCacheConfig, free: u64)
    ensures
        (start_refusal(config, Some(free)) is None) == (config.disk_capacity <= free
            && config.disk_capacity <= usize::MAX && config.memory_capacity <= usize::MAX),
        free < config.disk_capacity ==> start_refusal(config, Some(free)) == Some(
            HybridCacheError::InsufficientSpace(config.disk_capacity, free),
        ),
        (start_refusal(config, None) is None) == (config.disk_capacity <= usize::MAX
            && config.memory_capacity <= usize::MAX),
{
}

/// An error tells of a full disk where the words of the system or the name of its
/// error stand anywhere in it.
pub proof fn law_full_disk(before: Seq<char>, after: Seq<char>)
    ensures
        tells_of_full_disk(encode_utf8(before + "No space left"@ + after)),
        tells_of_full_disk(encode_utf8(before + "ENOSPC"@ + after)),
{
    lemma_contains(before, "No space left"@, after);
    lemma_contains(before, "ENOSPC"@, after);
}

proof fn lemma_contains(before: Seq<char>, word: Seq<char>, after: Seq<char>)
    ensures
        crate::bytes::first_occurrence(
            encode_utf8(before + word + after),
            encode_utf8(word),
        ) is Some,
{
    crate::text::lemma_encode_concat(before + word, after);
    crate::text::lemma_encode_concat(before, word);
    let text = encode_utf8(before + word + after);
    let w = encode_utf8(word);
    let at = encode_utf8(before).len() as int;
    assert(text.subrange(at, at + w.len()) =~= w);
    assert(crate::bytes::occurs_at(text, w, at));
    reveal(crate::bytes::first_occurrence);
}

/// An article that is missing is kept as if a bare 430 had come of it.
pub proof fn law_missing_is_kept(now: u64, tier: CacheTier)
    requires
        tier.value == 0,
    ensures
        Some(stored_missing(now)) == hybrid_upserted(
            None,
            true,
            seq![0x34u8, 0x33, 0x30, 0x0d, 0x0a],
            tier,
            now,
        ),
{
    let bare = seq![0x34u8, 0x33, 0x30, 0x0d, 0x0a];
    assert(status_of(bare)->0.code == 430);
    assert(hybrid_upserted(None, true, bare, tier, now)->0 =~= stored_missing(now));
}

/// The refusal for want of room tells how much was wanted, how much there is and
/// how much is to be freed, in whole binary gigabytes.
pub proof fn law_room_is_told_in_gigabytes(wanted: nat, free: nat, path: Seq<char>)
    requires
        free <= wanted,
        wanted * 1024 * 1024 * 1024 <= u64::MAX,
    ensures
        (HybridCacheError::InsufficientSpace(
            (wanted * 1024 * 1024 * 1024) as u64,
            (free * 1024 * 1024 * 1024) as u64,
        )).text(path) == "Insufficient disk space for cache:\nPath: "@ + path + "\nRequired: "@
            + decimal_text(wanted) + " GB\nAvailable: "@ + decimal_text(free)
            + " GB\nSolution: Free up "@ + decimal_text((wanted - free) as nat)
            + " GB or reduce 'disk_capacity' in config."@,
{
    let w = (wanted * 1024 * 1024 * 1024) as u64;
    let f = (free * 1024 * 1024 * 1024) as u64;
    assert(w as int / 1_073_741_824 == wanted);
    assert(f as int / 1_073_741_824 == free);
    assert((w - f) / 1_073_741_824 == wanted - free);
}

} // verus!
