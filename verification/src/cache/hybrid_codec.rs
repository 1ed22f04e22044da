//! Entries of the disk cache, and their stored form.
//!
//! An entry is stored as a magic number, the status, the bitmaps of checked and
//! missing backends, the moment of insertion, the tier and the payload. Numbers
//! are little-endian.
use crate::bytes::{
    field, field_at, le_bytes, le_field, lemma_field_between, lemma_le_bounds, lemma_le_bytes_len,
    lemma_le_field_between, push_bytes, push_u16, push_u32, push_u64, to_vec, u16_at, u32_at,
    u64_at,
};
use crate::cache::article::{
    availability_entry, missing_entry, response_entry, with_status, ArticleModel, CachedArticle,
};
use crate::cache::availability::ArticleAvailability;
use crate::cache::ingest::CacheIngestBytes;
use crate::cache::payload::{
    cached_response_for_payload, lemma_payload_size, number_view, parse_payload,
    parse_payload_chunked_response, served, shared, CachedArticleNumber, CachedPayload,
    CachedPayloadLen, CachedResponseWire, PayloadModel,
};
use crate::cache::ttl::{
    expired_at, is_expired_at, now_millis, CacheTier, CacheTimestampMillis, CacheTtlMillis,
};
use crate::protocol::{status_of, RequestKind, StatusCode};
use crate::text::{concat3, decimal_text, number_string};
use crate::types::{BackendCount, BackendId};
use vstd::prelude::*;
use vstd::string::*;

verus! {

/// First four bytes of an entry, as a number.
pub const ENTRY_MAGIC: u32 = 0x4e50_4333;

/// Stands for an article without a number.
pub const NO_ARTICLE_NUMBER: u64 = u64::MAX;

/// Longest section that is read back, in bytes.
pub const MAX_SECTION_BYTES: usize = 104_857_600;

// ---------------------------------------------------------------------------
// Statuses
// ---------------------------------------------------------------------------

/// Statuses of the responses that are cached.
#[derive(Clone, Copy, Debug, PartialEq, Eq, Structural)]
pub enum CacheableStatusCode {
    /// 220: a whole article.
    Article,
    /// 221: headers.
    Head,
    /// 222: a body.
    Body,
    /// 223: the article exists.
    Stat,
    /// 430: there is no such article.
    Missing,
}

pub open spec fn cacheable(code: u16) -> Option<CacheableStatusCode> {
    if code == 220 {
        Some(CacheableStatusCode::Article)
    } else if code == 221 {
        Some(CacheableStatusCode::Head)
    } else if code == 222 {
        Some(CacheableStatusCode::Body)
    } else if code == 223 {
        Some(CacheableStatusCode::Stat)
    } else if code == 430 {
        Some(CacheableStatusCode::Missing)
    } else {
        None
    }
}

impl CacheableStatusCode {
    pub open spec fn code(self) -> u16 {
        match self {
            CacheableStatusCode::Article => 220,
            CacheableStatusCode::Head => 221,
            CacheableStatusCode::Body => 222,
            CacheableStatusCode::Stat => 223,
            CacheableStatusCode::Missing => 430,
        }
    }

    pub fn as_u16(self) -> (r: u16)
        ensures
            r == self.code(),
            cacheable(r) == Some(self),
    {
        match self {
            CacheableStatusCode::Article => 220,
            CacheableStatusCode::Head => 221,
            CacheableStatusCode::Body => 222,
            CacheableStatusCode::Stat => 223,
            CacheableStatusCode::Missing => 430,
        }
    }

    pub(crate) fn from_code(code: u16) -> (r: Option<Self>)
        ensures
            r == cacheable(code),
            match r {
                Some(s) => s.code() == code,
                None => true,
            },
    {
        if code == 220 {
            Some(CacheableStatusCode::Article)
        } else if code == 221 {
            Some(CacheableStatusCode::Head)
        } else if code == 222 {
            Some(CacheableStatusCode::Body)
        } else if code == 223 {
            Some(CacheableStatusCode::Stat)
        } else if code == 430 {
            Some(CacheableStatusCode::Missing)
        } else {
            None
        }
    }
}

impl TryFrom<u16> for CacheableStatusCode {
    type Error = u16;

    fn try_from(code: u16) -> (r: Result<Self, u16>) {
        match CacheableStatusCode::from_code(code) {
            Some(s) => Ok(s),
            None => Err(code),
        }
    }
}

impl vstd::std_specs::convert::TryFromSpecImpl<u16> for CacheableStatusCode {
    open spec fn obeys_try_from_spec() -> bool {
        true
    }

    open spec fn try_from_spec(v: u16) -> Result<Self, u16> {
        match cacheable(v) {
            Some(s) => Ok(s),
            None => Err(v),
        }
    }
}

// ---------------------------------------------------------------------------
// Errors
// ---------------------------------------------------------------------------

/// Why bytes are no entry, or an entry cannot be stored.
#[derive(Clone, Copy, Debug, PartialEq, Eq, Structural)]
pub enum CodecError {
    /// The bytes end within a number.
    UnexpectedEnd,
    OldFormat,
    InvalidStatus(u16),
    InvalidPayloadKind(u8),
    SectionTooLarge(u64),
    /// The bytes end within a section: how many it has, and how many are there.
    TruncatedSection(u64, u64),
    /// A backend has no bit in the stored bitmap.
    BitmapTooWide,
}

impl CodecError {
    pub open spec fn text(self) -> Seq<char> {
        match self {
            CodecError::UnexpectedEnd => "failed to fill whole buffer"@,
            CodecError::OldFormat => "old hybrid cache entry format"@,
            CodecError::InvalidStatus(code) => "Invalid cached status code: "@ + decimal_text(
                code as nat,
            ) + ""@,
            CodecError::InvalidPayloadKind(kind) => "Invalid cached payload kind: "@
                + decimal_text(kind as nat) + ""@,
            CodecError::SectionTooLarge(size) => "Cached article section too large: "@
                + decimal_text(size as nat) + " bytes"@,
            CodecError::TruncatedSection(expected, found) => ("Expected "@ + decimal_text(
                expected as nat,
            ) + " bytes, got "@) + decimal_text(found as nat) + ""@,
            CodecError::BitmapTooWide => "availability bitmap exceeds one byte"@,
        }
    }

    pub fn message(&self) -> (r: String)
        ensures
            r@ == self.text(),
    {
        match self {
            CodecError::UnexpectedEnd => "failed to fill whole buffer".to_string(),
            CodecError::OldFormat => "old hybrid cache entry format".to_string(),
            CodecError::InvalidStatus(code) => {
                let n = number_string(*code as u64);
                concat3("Invalid cached status code: ", n.as_str(), "")
            },
            CodecError::InvalidPayloadKind(kind) => {
                let n = number_string(*kind as u64);
                concat3("Invalid cached payload kind: ", n.as_str(), "")
            },
            CodecError::SectionTooLarge(size) => {
                let n = number_string(*size);
                concat3("Cached article section too large: ", n.as_str(), " bytes")
            },
            CodecError::TruncatedSection(expected, found) => {
                let n = number_string(*expected);
                let head = concat3("Expected ", n.as_str(), " bytes, got ");
                let m = number_string(*found);
                concat3(head.as_str(), m.as_str(), "")
            },
            CodecError::BitmapTooWide => "availability bitmap exceeds one byte".to_string(),
        }
    }
}

/// Length of a section.
#[derive(Clone, Copy, Debug, PartialEq, Eq, PartialOrd, Ord, Structural)]
pub struct CachedSectionLen {
    pub value: u32,
}

impl CachedSectionLen {
    /// The length of a section to be written.
    pub fn try_from_usize(value: usize) -> (r: Result<Self, CodecError>)
        ensures
            match r {
                Ok(n) => value <= u32::MAX && n.value == value,
                Err(e) => value > u32::MAX && e == CodecError::SectionTooLarge(value as u64),
            },
    {
        if value as u64 > u32::MAX as u64 {
            Err(CodecError::SectionTooLarge(value as u64))
        } else {
            Ok(CachedSectionLen { value: value as u32 })
        }
    }

    /// The length of a section to be read.
    pub fn from_wire(value: u32) -> (r: Result<Self, CodecError>)
        ensures
            match r {
                Ok(n) => value <= MAX_SECTION_BYTES && n.value == value,
                Err(e) => value > MAX_SECTION_BYTES && e == CodecError::SectionTooLarge(
                    value as u64,
                ),
            },
    {
        if value as u64 > MAX_SECTION_BYTES as u64 {
            Err(CodecError::SectionTooLarge(value as u64))
        } else {
            Ok(CachedSectionLen { value })
        }
    }

    pub fn get(self) -> (r: u32)
        ensures
            r == self.value,
    {
        self.value
    }
}

// ---------------------------------------------------------------------------
// Stored form
// ---------------------------------------------------------------------------

pub open spec fn number_wire(number: Option<u64>) -> Seq<u8> {
    le_bytes(
        match number {
            Some(n) => n as nat,
            None => NO_ARTICLE_NUMBER as nat,
        },
        8,
    )
}

pub open spec fn section_wire(s: Seq<u8>) -> Seq<u8> {
    le_bytes(s.len(), 4) + s
}

pub open spec fn payload_wire(p: PayloadModel) -> Seq<u8> {
    match p {
        PayloadModel::Missing => seq![0u8],
        PayloadModel::AvailabilityOnly => seq![1u8],
        PayloadModel::Article { number, headers, body } => seq![2u8] + number_wire(number)
            + section_wire(headers) + section_wire(body),
        PayloadModel::Head { number, headers } => seq![3u8] + number_wire(number) + section_wire(
            headers,
        ),
        PayloadModel::Body { number, body } => seq![4u8] + number_wire(number) + section_wire(body),
        PayloadModel::Stat { number } => seq![5u8] + number_wire(number),
    }
}

/// The part of an entry before its payload.
pub open spec fn head_wire(e: ArticleModel) -> Seq<u8> {
    le_bytes(ENTRY_MAGIC as nat, 4) + le_bytes(e.status as nat, 2) + seq![
        e.missing as u8,
        e.missing as u8,
    ] + le_bytes(e.inserted_at as nat, 8) + seq![e.tier.value]
}

/// The stored form of an entry.
pub open spec fn entry_wire(e: ArticleModel) -> Seq<u8> {
    head_wire(e) + payload_wire(e.payload)
}

/// Why an entry cannot be stored, if it cannot.
pub open spec fn store_refusal(e: ArticleModel) -> Option<CodecError> {
    if e.missing > 0xff {
        Some(CodecError::BitmapTooWide)
    } else {
        match e.payload {
            PayloadModel::Article { headers, body, .. } => if headers.len() > u32::MAX {
                Some(CodecError::SectionTooLarge(headers.len() as u64))
            } else if body.len() > u32::MAX {
                Some(CodecError::SectionTooLarge(body.len() as u64))
            } else {
                None
            },
            PayloadModel::Head { headers, .. } => if headers.len() > u32::MAX {
                Some(CodecError::SectionTooLarge(headers.len() as u64))
            } else {
                None
            },
            PayloadModel::Body { body, .. } => if body.len() > u32::MAX {
                Some(CodecError::SectionTooLarge(body.len() as u64))
            } else {
                None
            },
            _ => None,
        }
    }
}

/// Bytes of the stored form.
pub open spec fn stored_size(e: ArticleModel) -> nat {
    17 + match e.payload {
        PayloadModel::Missing | PayloadModel::AvailabilityOnly => 1nat,
        PayloadModel::Stat { .. } => 9,
        PayloadModel::Article { headers, body, .. } => 17 + headers.len() + body.len(),
        PayloadModel::Head { headers, .. } => 13 + headers.len(),
        PayloadModel::Body { body, .. } => 13 + body.len(),
    }
}

pub open spec fn number_at(data: Seq<u8>, at: int) -> Result<(Option<u64>, int), CodecError> {
    match le_field(data, at, 8) {
        None => Err(CodecError::UnexpectedEnd),
        Some(n) => if n == NO_ARTICLE_NUMBER {
            Ok((None, at + 8))
        } else {
            Ok((Some(n as u64), at + 8))
        },
    }
}

pub open spec fn section_at(data: Seq<u8>, at: int) -> Result<(Seq<u8>, int), CodecError> {
    match le_field(data, at, 4) {
        None => Err(CodecError::UnexpectedEnd),
        Some(n) => if n > MAX_SECTION_BYTES {
            Err(CodecError::SectionTooLarge(n as u64))
        } else {
            match field(data, at + 4, n as int) {
                None => Err(CodecError::TruncatedSection(n as u64, (data.len() - at - 4) as u64)),
                Some(s) => Ok((s, at + 4 + n)),
            }
        },
    }
}

/// The payload at position `at`.
pub open spec fn payload_at(data: Seq<u8>, at: int) -> Result<PayloadModel, CodecError> {
    if at >= data.len() {
        Err(CodecError::UnexpectedEnd)
    } else if data[at] == 0 {
        Ok(PayloadModel::Missing)
    } else if data[at] == 1 {
        Ok(PayloadModel::AvailabilityOnly)
    } else if data[at] > 5 {
        Err(CodecError::InvalidPayloadKind(data[at]))
    } else {
        match number_at(data, at + 1) {
            Err(e) => Err(e),
            Ok((number, p)) => if data[at] == 5 {
                Ok(PayloadModel::Stat { number })
            } else {
                match section_at(data, p) {
                    Err(e) => Err(e),
                    Ok((first, q)) => if data[at] == 3 {
                        Ok(PayloadModel::Head { number, headers: first })
                    } else if data[at] == 4 {
                        Ok(PayloadModel::Body { number, body: first })
                    } else {
                        match section_at(data, q) {
                            Err(e) => Err(e),
                            Ok((second, _)) => Ok(
                                PayloadModel::Article { number, headers: first, body: second },
                            ),
                        }
                    },
                }
            },
        }
    }
}

/// The entry that bytes start with.
pub open spec fn decoded(data: Seq<u8>) -> Result<ArticleModel, CodecError> {
    if data.len() < 4 {
        Err(CodecError::UnexpectedEnd)
    } else if le_field(data, 0, 4)->0 != ENTRY_MAGIC {
        Err(CodecError::OldFormat)
    } else if data.len() < 6 {
        Err(CodecError::UnexpectedEnd)
    } else if cacheable(le_field(data, 4, 2)->0 as u16) is None {
        Err(CodecError::InvalidStatus(le_field(data, 4, 2)->0 as u16))
    } else if data.len() < 17 {
        Err(CodecError::UnexpectedEnd)
    } else {
        match payload_at(data, 17) {
            Err(e) => Err(e),
            Ok(payload) => Ok(
                ArticleModel {
                    missing: data[7] as usize,
                    status: le_field(data, 4, 2)->0 as u16,
                    payload,
                    tier: CacheTier { value: data[16] },
                    inserted_at: le_field(data, 8, 8)->0 as u64,
                },
            ),
        }
    }
}

fn push_number(out: &mut Vec<u8>, number: Option<CachedArticleNumber>)
    ensures
        final(out)@ == old(out)@ + number_wire(number_view(number)),
{
    let raw: u64 = match number {
        Some(n) => n.get(),
        None => NO_ARTICLE_NUMBER,
    };
    push_u64(out, raw);
}

fn push_section(out: &mut Vec<u8>, section: &[u8]) -> (r: Result<(), CodecError>)
    ensures
        match r {
            Ok(_) => section@.len() <= u32::MAX && final(out)@ == old(out)@ + section_wire(
                section@,
            ),
            Err(e) => section@.len() > u32::MAX && e == CodecError::SectionTooLarge(
                section@.len() as u64,
            ),
        },
{
    let len = CachedSectionLen::try_from_usize(section.len())?;
    push_u32(out, len.get());
    push_bytes(out, section);
    assert(out@ =~= old(out)@ + section_wire(section@));
    Ok(())
}

/// Writes the payload of an entry.
fn encode_payload(out: &mut Vec<u8>, payload: &CachedPayload) -> (r: Result<(), CodecError>)
    ensures
        ({
            let refusal = store_refusal(
                ArticleModel {
                    missing: 0,
                    status: 0,
                    payload: payload@,
                    tier: CacheTier { value: 0 },
                    inserted_at: 0,
                },
            );
            match r {
                Ok(_) => refusal is None && final(out)@ == old(out)@ + payload_wire(payload@),
                Err(e) => refusal == Some(e),
            }
        }),
{
    match payload {
        CachedPayload::Missing => {
            out.push(0);
            assert(out@ =~= old(out)@ + payload_wire(payload@));
            Ok(())
        },
        CachedPayload::AvailabilityOnly => {
            out.push(1);
            assert(out@ =~= old(out)@ + payload_wire(payload@));
            Ok(())
        },
        CachedPayload::Stat { article_number } => {
            out.push(5);
            push_number(out, *article_number);
            assert(out@ =~= old(out)@ + payload_wire(payload@));
            Ok(())
        },
        CachedPayload::Article { article_number, headers, body } => {
            out.push(2);
            push_number(out, *article_number);
            push_section(out, headers)?;
            push_section(out, body)?;
            assert(out@ =~= old(out)@ + payload_wire(payload@));
            Ok(())
        },
        CachedPayload::Head { article_number, headers } => {
            out.push(3);
            push_number(out, *article_number);
            push_section(out, headers)?;
            assert(out@ =~= old(out)@ + payload_wire(payload@));
            Ok(())
        },
        CachedPayload::Body { article_number, body } => {
            out.push(4);
            push_number(out, *article_number);
            push_section(out, body)?;
            assert(out@ =~= old(out)@ + payload_wire(payload@));
            Ok(())
        },
    }
}

fn read_number(data: &[u8], at: usize) -> (r: Result<(Option<CachedArticleNumber>, usize), CodecError>)
    requires
        at <= data@.len(),
    ensures
        match r {
            Ok((n, p)) => number_at(data@, at as int) == Ok::<(Option<u64>, int), CodecError>(
                (number_view(n), p as int),
            ) && p <= data@.len(),
            Err(e) => number_at(data@, at as int) == Err::<(Option<u64>, int), CodecError>(e),
        },
{
    match u64_at(data, at) {
        None => Err(CodecError::UnexpectedEnd),
        Some(n) => {
            assert(at + 8 <= data.len());
            if n == NO_ARTICLE_NUMBER {
                Ok((None, at + 8))
            } else {
                Ok((Some(CachedArticleNumber::new(n)), at + 8))
            }
        },
    }
}

fn read_section(data: &[u8], at: usize) -> (r: Result<(Vec<u8>, usize), CodecError>)
    requires
        at <= data@.len(),
    ensures
        match r {
            Ok((s, p)) => section_at(data@, at as int) == Ok::<(Seq<u8>, int), CodecError>(
                (s@, p as int),
            ) && p == at + 4 + s@.len() && p <= data@.len(),
            Err(e) => section_at(data@, at as int) == Err::<(Seq<u8>, int), CodecError>(e),
        },
{
    let len = match u32_at(data, at) {
        None => {
            return Err(CodecError::UnexpectedEnd);
        },
        Some(n) => CachedSectionLen::from_wire(n)?,
    };
    assert(at + 4 <= data.len());
    let n: usize = len.get() as usize;
    match field_at(data, at + 4, n) {
        None => Err(CodecError::TruncatedSection(n as u64, (data.len() - at - 4) as u64)),
        Some(s) => Ok((to_vec(s), at + 4 + n)),
    }
}

/// Reads the payload of an entry.
fn decode_payload(data: &[u8], at: usize) -> (r: Result<CachedPayload, CodecError>)
    requires
        at <= data@.len(),
    ensures
        match r {
            Ok(p) => payload_at(data@, at as int) == Ok::<PayloadModel, CodecError>(p@)
                && p@.size() <= usize::MAX,
            Err(e) => payload_at(data@, at as int) == Err::<PayloadModel, CodecError>(e),
        },
{
    assert(data@.len() == data.len());
    if at >= data.len() {
        return Err(CodecError::UnexpectedEnd);
    }
    let kind = data[at];
    if kind == 0 {
        return Ok(CachedPayload::Missing);
    }
    if kind == 1 {
        return Ok(CachedPayload::AvailabilityOnly);
    }
    if kind > 5 {
        return Err(CodecError::InvalidPayloadKind(kind));
    }
    let (article_number, p) = match read_number(data, at + 1) {
        Ok(x) => x,
        Err(e) => {
            return Err(e);
        },
    };
    if kind == 5 {
        return Ok(CachedPayload::Stat { article_number });
    }
    let (first, q) = match read_section(data, p) {
        Ok(x) => x,
        Err(e) => {
            return Err(e);
        },
    };
    if kind == 3 {
        return Ok(CachedPayload::Head { article_number, headers: shared(first) });
    }
    if kind == 4 {
        return Ok(CachedPayload::Body { article_number, body: shared(first) });
    }
    let (second, end) = match read_section(data, q) {
        Ok(x) => x,
        Err(e) => {
            return Err(e);
        },
    };
    Ok(CachedPayload::Article { article_number, headers: shared(first), body: shared(second) })
}

// ---------------------------------------------------------------------------
// Entries
// ---------------------------------------------------------------------------

/// An entry of the disk cache. Its status is always one that is cached.
#[derive(Debug)]
pub struct HybridArticleEntry {
    status_code: CacheableStatusCode,
    availability: ArticleAvailability,
    timestamp: CacheTimestampMillis,
    tier: CacheTier,
    payload: CachedPayload,
}

impl View for HybridArticleEntry {
    type V = ArticleModel;

    closed spec fn view(&self) -> ArticleModel {
        ArticleModel {
            missing: self.availability.bits(),
            status: self.status_code.code(),
            payload: self.payload@,
            tier: self.tier,
            inserted_at: self.timestamp.value,
        }
    }
}

impl Clone for HybridArticleEntry {
    fn clone(&self) -> (r: Self)
        ensures
            r@ == self@,
    {
        proof {
            use_type_invariant(self);
        }
        HybridArticleEntry {
            status_code: self.status_code,
            availability: self.availability,
            timestamp: self.timestamp,
            tier: self.tier,
            payload: self.payload.clone(),
        }
    }
}

/// The entry for a response whose status is one that is cached.
pub open spec fn hybrid_entry(response: Seq<u8>, tier: CacheTier, now: u64) -> Option<ArticleModel> {
    match status_of(response) {
        Some(s) => if cacheable(s.code) is Some {
            Some(response_entry(response, tier, now))
        } else {
            None
        },
        None => None,
    }
}

pub open spec fn hybrid_view(e: Option<HybridArticleEntry>) -> Option<ArticleModel> {
    match e {
        Some(h) => Some(h@),
        None => None,
    }
}

impl HybridArticleEntry {
    #[verifier::type_invariant]
    spec fn fits(self) -> bool {
        self.payload@.size() <= usize::MAX
    }

    /// The entry for a response, made at `now`.
    pub fn from_wire_response_at(buffer: &[u8], tier: CacheTier, now: CacheTimestampMillis) -> (r:
        Option<Self>)
        ensures
            hybrid_view(r) == hybrid_entry(buffer@, tier, now.value),
    {
        let status = match StatusCode::parse(buffer) {
            Some(s) => s,
            None => {
                return None;
            },
        };
        let status_code = match CacheableStatusCode::from_code(status.as_u16()) {
            Some(s) => s,
            None => {
                return None;
            },
        };
        let payload = parse_payload(status, buffer);
        proof {
            lemma_payload_size(status.code, buffer@);
            assert(buffer@.len() == buffer.len());
        }
        Some(
            HybridArticleEntry {
                status_code,
                availability: ArticleAvailability::new(),
                timestamp: now,
                tier,
                payload,
            },
        )
    }

    /// The entry for a response, made now for a backend of the first tier.
    pub fn from_wire_response(buffer: &[u8]) -> (r: Option<Self>)
        ensures
            exists|now: u64|
                hybrid_view(r) == #[trigger] hybrid_entry(buffer@, CacheTier { value: 0 }, now),
    {
        Self::from_wire_response_with_tier(buffer, CacheTier { value: 0 })
    }

    /// The entry for a response, made now.
    pub fn from_wire_response_with_tier(buffer: &[u8], tier: CacheTier) -> (r: Option<Self>)
        ensures
            exists|now: u64| hybrid_view(r) == #[trigger] hybrid_entry(buffer@, tier, now),
    {
        let now = now_millis();
        let r = Self::from_wire_response_at(buffer, tier, CacheTimestampMillis { value: now });
        assert(hybrid_view(r) == hybrid_entry(buffer@, tier, now));
        r
    }

    /// The entry for a response in whatever form, made at `now`: the form makes
    /// no difference.
    pub fn from_ingest_at(buffer: &CacheIngestBytes, tier: CacheTier, now: CacheTimestampMillis) -> (r:
        Option<Self>)
        ensures
            hybrid_view(r) == hybrid_entry(buffer@, tier, now.value),
    {
        match buffer {
            CacheIngestBytes::Boxed(b) => Self::from_wire_response_at(b.as_slice(), tier, now),
            CacheIngestBytes::Pooled(b) => Self::from_wire_response_at(b.as_slice(), tier, now),
            CacheIngestBytes::Small(s) => Self::from_wire_response_at(s.as_slice(), tier, now),
            CacheIngestBytes::Chunked(c) => {
                let status = match buffer.status_code() {
                    Some(s) => s,
                    None => {
                        return None;
                    },
                };
                let status_code = match CacheableStatusCode::from_code(status.as_u16()) {
                    Some(s) => s,
                    None => {
                        return None;
                    },
                };
                let payload = parse_payload_chunked_response(status, c);
                proof {
                    lemma_payload_size(status.code, c@);
                }
                let total = c.len();
                Some(
                    HybridArticleEntry {
                        status_code,
                        availability: ArticleAvailability::new(),
                        timestamp: now,
                        tier,
                        payload,
                    },
                )
            },
        }
    }

    /// The entry for a response in whatever form, made now.
    pub fn from_cache_buffer_with_tier(buffer: CacheIngestBytes, tier: CacheTier) -> (r: Option<Self>)
        ensures
            exists|now: u64| hybrid_view(r) == #[trigger] hybrid_entry(buffer@, tier, now),
    {
        let now = now_millis();
        let r = Self::from_ingest_at(&buffer, tier, CacheTimestampMillis { value: now });
        assert(hybrid_view(r) == hybrid_entry(buffer@, tier, now));
        r
    }

    /// An entry of availability alone, made at `now`.
    pub fn availability_only_at(
        status_code: CacheableStatusCode,
        tier: CacheTier,
        now: CacheTimestampMillis,
    ) -> (r: Self)
        ensures
            r@ == availability_entry(status_code.code(), tier, now.value),
    {
        HybridArticleEntry {
            status_code,
            availability: ArticleAvailability::new(),
            timestamp: now,
            tier,
            payload: CachedPayload::AvailabilityOnly,
        }
    }

    /// An entry of availability alone, made now.
    pub fn availability_only(status_code: CacheableStatusCode, tier: CacheTier) -> (r: Self)
        ensures
            r@ == availability_entry(status_code.code(), tier, r@.inserted_at),
    {
        Self::availability_only_at(status_code, tier, CacheTimestampMillis::now())
    }

    /// An entry for an article that is missing, made at `now`.
    pub fn missing_at(now: CacheTimestampMillis) -> (r: Self)
        ensures
            r@ == missing_entry(CacheTier { value: 0 }, now.value),
    {
        HybridArticleEntry {
            status_code: CacheableStatusCode::Missing,
            availability: ArticleAvailability::new(),
            timestamp: now,
            tier: CacheTier { value: 0 },
            payload: CachedPayload::Missing,
        }
    }

    /// Starts the lifetime of the entry anew.
    pub fn refresh(&mut self, now: CacheTimestampMillis)
        ensures
            final(self)@ == (ArticleModel { inserted_at: now.value, ..old(self)@ }),
    {
        proof {
            use_type_invariant(&*self);
        }
        self.timestamp = now;
    }

    /// Joins the facts that a request gathered to those of the entry.
    pub fn merge_availability(&mut self, other: &ArticleAvailability)
        ensures
            final(self)@ == (ArticleModel {
                missing: old(self)@.missing | other.bits(),
                ..old(self)@
            }),
    {
        proof {
            use_type_invariant(&*self);
        }
        let mut facts = self.availability;
        facts.merge_from(other);
        self.availability = facts;
    }

    /// Writes the entry down.
    pub fn encode(&self) -> (r: Result<Vec<u8>, CodecError>)
        ensures
            match r {
                Ok(bytes) => store_refusal(self@) is None && bytes@ == entry_wire(self@),
                Err(e) => store_refusal(self@) == Some(e),
            },
    {
        let bits = self.availability.missing_bits();
        if bits > 0xff {
            return Err(CodecError::BitmapTooWide);
        }
        let mut out: Vec<u8> = Vec::new();
        push_u32(&mut out, ENTRY_MAGIC);
        push_u16(&mut out, self.status_code.as_u16());
        out.push(self.availability.checked_bits() as u8);
        out.push(bits as u8);
        push_u64(&mut out, self.timestamp.get());
        out.push(self.tier.get());
        assert(out@ =~= head_wire(self@));
        match encode_payload(&mut out, &self.payload) {
            Ok(_) => Ok(out),
            Err(e) => Err(e),
        }
    }

    /// Reads the entry that bytes start with.
    pub fn decode(data: &[u8]) -> (r: Result<Self, CodecError>)
        ensures
            match r {
                Ok(e) => decoded(data@) == Ok::<ArticleModel, CodecError>(e@),
                Err(e) => decoded(data@) == Err::<ArticleModel, CodecError>(e),
            },
    {
        assert(data@.len() == data.len());
        if data.len() < 4 {
            return Err(CodecError::UnexpectedEnd);
        }
        if u32_at(data, 0).unwrap() != ENTRY_MAGIC {
            return Err(CodecError::OldFormat);
        }
        if data.len() < 6 {
            return Err(CodecError::UnexpectedEnd);
        }
        let raw = u16_at(data, 4).unwrap();
        let status_code = match CacheableStatusCode::from_code(raw) {
            Some(s) => s,
            None => {
                return Err(CodecError::InvalidStatus(raw));
            },
        };
        if data.len() < 17 {
            return Err(CodecError::UnexpectedEnd);
        }
        let timestamp = CacheTimestampMillis { value: u64_at(data, 8).unwrap() };
        let tier = CacheTier { value: data[16] };
        let payload = match decode_payload(data, 17) {
            Ok(p) => p,
            Err(e) => {
                return Err(e);
            },
        };
        let entry = HybridArticleEntry {
            status_code,
            availability: ArticleAvailability::from_bits(data[6] as usize, data[7] as usize),
            timestamp,
            tier,
            payload,
        };
        assert(decoded(data@)->Ok_0 =~= entry@);
        Ok(entry)
    }

    /// Bytes that the entry takes when it is written down.
    pub fn estimated_size(&self) -> (r: usize)
        requires
            stored_size(self@) <= usize::MAX,
        ensures
            r == stored_size(self@),
    {
        17 + match &self.payload {
            CachedPayload::Missing => 1,
            CachedPayload::AvailabilityOnly => 1,
            CachedPayload::Stat { .. } => 9,
            CachedPayload::Article { headers, body, .. } => 17 + headers.len() + body.len(),
            CachedPayload::Head { headers, .. } => 13 + headers.len(),
            CachedPayload::Body { body, .. } => 13 + body.len(),
        }
    }

    /// The response that answers a request from this entry.
    pub fn response_parts_for_request_kind(&self, request_kind: RequestKind, message_id: &str) -> (r:
        Option<CachedResponseWire<'_>>)
        ensures
            match r {
                Some(w) => served(request_kind, self@.payload, message_id.spec_bytes()) == Some(
                    (w.spec_status().code, w@),
                ),
                None => served(request_kind, self@.payload, message_id.spec_bytes()) is None,
            },
    {
        cached_response_for_payload(&self.payload, request_kind, message_id)
    }

    pub fn payload(&self) -> (r: &CachedPayload)
        ensures
            r@ == self@.payload,
    {
        &self.payload
    }

    pub fn payload_len(&self) -> (r: CachedPayloadLen)
        ensures
            r.value == self@.payload.size(),
    {
        proof {
            use_type_invariant(self);
        }
        self.payload.len()
    }

    /// The same entry for the memory cache. The payload is shared.
    pub fn to_article_entry(&self) -> (r: CachedArticle)
        ensures
            r@ == self@,
    {
        proof {
            use_type_invariant(self);
        }
        CachedArticle::from_parts(
            self.status_code(),
            self.payload.clone(),
            self.availability,
            self.tier,
            self.timestamp.get(),
        )
    }

    pub fn status_code(&self) -> (r: StatusCode)
        ensures
            r.code == self@.status,
            cacheable(r.code) is Some,
    {
        StatusCode { code: self.status_code.as_u16() }
    }

    /// May this backend have the article?
    pub fn should_try_backend(&self, backend_id: BackendId) -> (r: bool)
        ensures
            r == !self@.missing_set().contains(backend_id@),
    {
        self.availability.should_try(backend_id)
    }

    /// Records that a backend answered 430.
    pub fn record_backend_missing(&mut self, backend_id: BackendId)
        ensures
            final(self)@.missing_set() == old(self)@.missing_set().insert(backend_id@),
            final(self)@ == (ArticleModel { missing: final(self)@.missing, ..old(self)@ }),
    {
        proof {
            use_type_invariant(&*self);
        }
        let mut availability = self.availability;
        availability.record_missing(backend_id);
        self.availability = availability;
    }

    /// Records that a backend gave the article. Nothing is kept of it.
    pub fn record_backend_has(&mut self, backend_id: BackendId)
        ensures
            *final(self) == *old(self),
    {
    }

    /// Records at `now` that a backend was seen to have the article, without
    /// its bytes.
    pub fn record_backend_has_status_at(
        &mut self,
        status_code: CacheableStatusCode,
        backend_id: BackendId,
        tier: CacheTier,
        now: CacheTimestampMillis,
    )
        ensures
            final(self)@ == with_status(Some(old(self)@), status_code.code(), tier, now.value),
    {
        proof {
            use_type_invariant(&*self);
        }
        if !self.is_complete_article() {
            self.status_code = status_code;
            self.payload = CachedPayload::AvailabilityOnly;
            self.tier = tier;
        }
        self.timestamp = now;
        self.record_backend_has(backend_id);
    }

    /// Is every one of the first `total_backends` backends known to miss the
    /// article?
    pub fn all_backends_exhausted(&self, total_backends: BackendCount) -> (r: bool)
        ensures
            r == (forall|i: nat| i < total_backends@ ==> self@.missing_set().contains(i)),
    {
        let availability = self.availability();
        assert(availability@ == self@.missing_set());
        availability.all_exhausted(total_backends)
    }

    /// Does the entry hold the text of an article or of a body?
    pub fn is_complete_article(&self) -> (r: bool)
        ensures
            r == self@.complete(),
    {
        self.payload.is_complete(self.status_code.as_u16())
    }

    /// Every payload that an entry can hold is a valid one.
    pub fn is_valid_response(&self) -> (r: bool)
        ensures
            r,
    {
        true
    }

    pub fn availability(&self) -> (r: ArticleAvailability)
        ensures
            r.bits() == self@.missing,
            r@ == self@.missing_set(),
    {
        self.availability
    }

    /// Is any backend known to miss the article?
    pub fn has_availability_info(&self) -> (r: bool)
        ensures
            r == (self@.missing != 0),
    {
        self.availability.has_availability_info()
    }

    /// Facts of an entry do not grow stale by themselves: the cache drops whole
    /// entries.
    pub fn is_availability_stale(&self, ttl_millis: u64) -> (r: bool)
        ensures
            !r,
    {
        false
    }

    /// Facts of an entry are not cleared one by one either.
    pub fn clear_stale_availability(&mut self, ttl_millis: u64)
        ensures
            *final(self) == *old(self),
    {
    }

    /// Has the entry outlived its lifetime at `now`?
    pub fn is_expired_at(&self, base_ttl_millis: u64, now: u64) -> (r: bool)
        ensures
            r == expired_at(now, self@.inserted_at, base_ttl_millis, self@.tier),
    {
        is_expired_at(now, self.timestamp, CacheTtlMillis { value: base_ttl_millis }, self.tier)
    }

    /// Has the entry outlived its lifetime now?
    pub fn is_expired(&self, base_ttl_millis: u64) -> (r: bool)
        ensures
            exists|now: u64|
                r == #[trigger] expired_at(
                    now,
                    self@.inserted_at,
                    base_ttl_millis,
                    self@.tier,
                ),
    {
        let now = now_millis();
        let r = self.is_expired_at(base_ttl_millis, now);
        assert(r == expired_at(now, self@.inserted_at, base_ttl_millis, self@.tier));
        r
    }

    pub fn timestamp(&self) -> (r: CacheTimestampMillis)
        ensures
            r.value == self@.inserted_at,
    {
        self.timestamp
    }

    pub fn tier(&self) -> (r: CacheTier)
        ensures
            r == self@.tier,
    {
        self.tier
    }
}

// ---------------------------------------------------------------------------
// Laws
// ---------------------------------------------------------------------------

/// Can the entry be read back? It can be stored, its sections are not too long,
/// and its article number is not the one that stands for none.
pub open spec fn restorable(e: ArticleModel) -> bool {
    &&& store_refusal(e) is None
    &&& cacheable(e.status) is Some
    &&& e.payload.article_number() != Some(NO_ARTICLE_NUMBER)
    &&& match e.payload {
        PayloadModel::Article { headers, body, .. } => headers.len() <= MAX_SECTION_BYTES
            && body.len() <= MAX_SECTION_BYTES,
        PayloadModel::Head { headers, .. } => headers.len() <= MAX_SECTION_BYTES,
        PayloadModel::Body { body, .. } => body.len() <= MAX_SECTION_BYTES,
        _ => true,
    }
}

proof fn lemma_number_between(pre: Seq<u8>, number: Option<u64>, post: Seq<u8>)
    requires
        number != Some(NO_ARTICLE_NUMBER),
    ensures
        number_wire(number).len() == 8,
        number_at(pre + number_wire(number) + post, pre.len() as int) == Ok::<
            (Option<u64>, int),
            CodecError,
        >((number, pre.len() as int + 8)),
{
    lemma_le_bounds();
    let n = match number {
        Some(n) => n as nat,
        None => NO_ARTICLE_NUMBER as nat,
    };
    lemma_le_bytes_len(n, 8);
    lemma_le_field_between(pre, n, 8, post);
}

proof fn lemma_section_between(pre: Seq<u8>, s: Seq<u8>, post: Seq<u8>)
    requires
        s.len() <= MAX_SECTION_BYTES,
    ensures
        section_wire(s).len() == 4 + s.len(),
        section_at(pre + section_wire(s) + post, pre.len() as int) == Ok::<
            (Seq<u8>, int),
            CodecError,
        >((s, pre.len() as int + 4 + s.len())),
{
    lemma_le_bounds();
    let n = le_bytes(s.len(), 4);
    lemma_le_bytes_len(s.len(), 4);
    let data = pre + section_wire(s) + post;
    assert(data =~= pre + n + (s + post));
    lemma_le_field_between(pre, s.len(), 4, s + post);
    assert(data =~= (pre + n) + s + post);
    lemma_field_between(pre + n, s, post);
}

proof fn lemma_tagged(pre: Seq<u8>, kind: u8, number: Option<u64>, rest: Seq<u8>)
    requires
        number != Some(NO_ARTICLE_NUMBER),
    ensures
        ({
            let front = pre + seq![kind] + number_wire(number);
            &&& front.len() == pre.len() + 9
            &&& (front + rest)[pre.len() as int] == kind
            &&& number_at(front + rest, pre.len() as int + 1) == Ok::<(Option<u64>, int), CodecError>(
                (number, front.len() as int),
            )
        }),
{
    lemma_number_between(pre + seq![kind], number, rest);
}

proof fn lemma_article_between(
    pre: Seq<u8>,
    number: Option<u64>,
    headers: Seq<u8>,
    body: Seq<u8>,
    post: Seq<u8>,
)
    requires
        number != Some(NO_ARTICLE_NUMBER),
        headers.len() <= MAX_SECTION_BYTES,
        body.len() <= MAX_SECTION_BYTES,
    ensures
        payload_at(
            pre + payload_wire(PayloadModel::Article { number, headers, body }) + post,
            pre.len() as int,
        ) == Ok::<PayloadModel, CodecError>(PayloadModel::Article { number, headers, body }),
{
    let p = PayloadModel::Article { number, headers, body };
    let data = pre + payload_wire(p) + post;
    let front = pre + seq![2u8] + number_wire(number);
    let h = section_wire(headers);
    let b = section_wire(body);
    assert(data =~= front + (h + b + post));
    lemma_tagged(pre, 2, number, h + b + post);
    assert(data =~= front + h + (b + post));
    lemma_section_between(front, headers, b + post);
    assert(data =~= (front + h) + b + post);
    lemma_section_between(front + h, body, post);
}

proof fn lemma_section_payload_between(
    pre: Seq<u8>,
    kind: u8,
    number: Option<u64>,
    s: Seq<u8>,
    post: Seq<u8>,
)
    requires
        number != Some(NO_ARTICLE_NUMBER),
        s.len() <= MAX_SECTION_BYTES,
        kind == 3 || kind == 4,
    ensures
        payload_at(
            pre + (seq![kind] + number_wire(number) + section_wire(s)) + post,
            pre.len() as int,
        ) == Ok::<PayloadModel, CodecError>(
            if kind == 3 {
                PayloadModel::Head { number, headers: s }
            } else {
                PayloadModel::Body { number, body: s }
            },
        ),
{
    let data = pre + (seq![kind] + number_wire(number) + section_wire(s)) + post;
    let front = pre + seq![kind] + number_wire(number);
    assert(data =~= front + (section_wire(s) + post));
    lemma_tagged(pre, kind, number, section_wire(s) + post);
    assert(data =~= front + section_wire(s) + post);
    lemma_section_between(front, s, post);
}

proof fn lemma_payload_between(pre: Seq<u8>, e: ArticleModel, post: Seq<u8>)
    requires
        restorable(e),
    ensures
        payload_at(pre + payload_wire(e.payload) + post, pre.len() as int) == Ok::<
            PayloadModel,
            CodecError,
        >(e.payload),
{
    let p = e.payload;
    let data = pre + payload_wire(p) + post;
    match p {
        PayloadModel::Missing => {
            assert(data[pre.len() as int] == 0);
        },
        PayloadModel::AvailabilityOnly => {
            assert(data[pre.len() as int] == 1);
        },
        PayloadModel::Stat { number } => {
            lemma_tagged(pre, 5, number, post);
            assert(data =~= (pre + seq![5u8] + number_wire(number)) + post);
        },
        PayloadModel::Head { number, headers } => {
            lemma_section_payload_between(pre, 3, number, headers, post);
        },
        PayloadModel::Body { number, body } => {
            lemma_section_payload_between(pre, 4, number, body, post);
        },
        PayloadModel::Article { number, headers, body } => {
            lemma_article_between(pre, number, headers, body, post);
        },
    }
}

/// An entry that was stored is read back whole, whatever follows it. Left out
/// are entries with a section of more than 100 MiB, which are not read back,
/// and articles under the number that stands for none.
pub proof fn law_entry_round_trip(e: ArticleModel, post: Seq<u8>)
    requires
        restorable(e),
    ensures
        decoded(entry_wire(e) + post) == Ok::<ArticleModel, CodecError>(e),
{
    let data = entry_wire(e) + post;
    let magic = le_bytes(ENTRY_MAGIC as nat, 4);
    let status = le_bytes(e.status as nat, 2);
    let maps = seq![e.missing as u8, e.missing as u8];
    let time = le_bytes(e.inserted_at as nat, 8);
    let tier = seq![e.tier.value];
    let rest = payload_wire(e.payload) + post;
    lemma_le_bounds();
    lemma_le_bytes_len(ENTRY_MAGIC as nat, 4);
    lemma_le_bytes_len(e.status as nat, 2);
    lemma_le_bytes_len(e.inserted_at as nat, 8);
    assert(data =~= Seq::<u8>::empty() + magic + (status + maps + time + tier + rest));
    lemma_le_field_between(
        Seq::<u8>::empty(),
        ENTRY_MAGIC as nat,
        4,
        status + maps + time + tier + rest,
    );
    assert(data =~= magic + status + (maps + time + tier + rest));
    lemma_le_field_between(magic, e.status as nat, 2, maps + time + tier + rest);
    assert(data =~= (magic + status + maps) + time + (tier + rest));
    lemma_le_field_between(magic + status + maps, e.inserted_at as nat, 8, tier + rest);
    assert(head_wire(e).len() == 17);
    assert(data =~= head_wire(e) + payload_wire(e.payload) + post);
    lemma_payload_between(head_wire(e), e, post);
    assert(data[7] == maps[1]);
    assert(data[16] == e.tier.value);
    assert(data[7] as usize == e.missing);
    assert(decoded(data)->Ok_0 =~= e);
}

/// The size that is announced for an entry is the size of its stored form.
pub proof fn law_stored_size(e: ArticleModel)
    ensures
        entry_wire(e).len() == stored_size(e),
{
    lemma_le_bytes_len(ENTRY_MAGIC as nat, 4);
    lemma_le_bytes_len(e.status as nat, 2);
    lemma_le_bytes_len(e.inserted_at as nat, 8);
    match e.payload {
        PayloadModel::Article { number, headers, body } => {
            lemma_le_bytes_len(
                match number {
                    Some(n) => n as nat,
                    None => NO_ARTICLE_NUMBER as nat,
                },
                8,
            );
            lemma_le_bytes_len(headers.len(), 4);
            lemma_le_bytes_len(body.len(), 4);
        },
        PayloadModel::Head { number, headers } => {
            lemma_le_bytes_len(
                match number {
                    Some(n) => n as nat,
                    None => NO_ARTICLE_NUMBER as nat,
                },
                8,
            );
            lemma_le_bytes_len(headers.len(), 4);
        },
        PayloadModel::Body { number, body } => {
            lemma_le_bytes_len(
                match number {
                    Some(n) => n as nat,
                    None => NO_ARTICLE_NUMBER as nat,
                },
                8,
            );
            lemma_le_bytes_len(body.len(), 4);
        },
        PayloadModel::Stat { number } => {
            lemma_le_bytes_len(
                match number {
                    Some(n) => n as nat,
                    None => NO_ARTICLE_NUMBER as nat,
                },
                8,
            );
        },
        _ => {},
    }
}

/// The statuses that are cached are 220 to 223 and 430, and each stands for
/// itself.
pub proof fn law_cacheable_statuses(code: u16)
    ensures
        cacheable(code) is Some <==> 220 <= code <= 223 || code == 430,
        cacheable(code) is Some ==> (cacheable(code)->0).code() == code,
        code == 220 ==> cacheable(code) == Some(CacheableStatusCode::Article),
        code == 221 ==> cacheable(code) == Some(CacheableStatusCode::Head),
        code == 222 ==> cacheable(code) == Some(CacheableStatusCode::Body),
        code == 223 ==> cacheable(code) == Some(CacheableStatusCode::Stat),
        code == 430 ==> cacheable(code) == Some(CacheableStatusCode::Missing),
{
}

/// The entry for a response has its status, its payload, the tier and the time;
/// without a status that is cached there is none.
pub proof fn law_entry_of_a_response(response: Seq<u8>, code: int, tier: CacheTier, now: u64)
    requires
        crate::protocol::starts_with_status(response, code),
    ensures
        ({
            let entry = hybrid_entry(response, tier, now);
            &&& entry is Some <==> 220 <= code <= 223 || code == 430
            &&& entry is Some ==> {
                &&& entry->0.status == code
                &&& entry->0.payload == crate::cache::payload::payload_of(code as u16, response)
                &&& entry->0.tier == tier
                &&& entry->0.inserted_at == now
                &&& entry->0.missing == 0
            }
        }),
        hybrid_entry(Seq::empty(), tier, now) is None,
{
    crate::protocol::law_status_is_read(response, code);
    law_cacheable_statuses(code as u16);
}

/// The layout of a stored entry: the mark, the status in two bytes, the bitmap
/// twice in a byte each, the time in eight bytes, the tier, and the kind of the
/// payload, in a byte each.
pub proof fn law_stored_entry(e: ArticleModel)
    requires
        e.missing <= 0xff,
    ensures
        entry_wire(e).len() >= 18,
        entry_wire(e)[0] == 0x33 && entry_wire(e)[1] == 0x43 && entry_wire(e)[2] == 0x50
            && entry_wire(e)[3] == 0x4e,
        le_field(entry_wire(e), 4, 2) == Some(e.status as nat),
        entry_wire(e)[6] == e.missing,
        entry_wire(e)[7] == e.missing,
        le_field(entry_wire(e), 8, 8) == Some(e.inserted_at as nat),
        entry_wire(e)[16] == e.tier.value,
        entry_wire(e)[17] == (match e.payload {
            PayloadModel::Missing => 0u8,
            PayloadModel::AvailabilityOnly => 1u8,
            PayloadModel::Article { .. } => 2u8,
            PayloadModel::Head { .. } => 3u8,
            PayloadModel::Body { .. } => 4u8,
            PayloadModel::Stat { .. } => 5u8,
        }),
{
    let w = entry_wire(e);
    let magic = le_bytes(ENTRY_MAGIC as nat, 4);
    let status = le_bytes(e.status as nat, 2);
    let maps = seq![e.missing as u8, e.missing as u8];
    let time = le_bytes(e.inserted_at as nat, 8);
    let tier = seq![e.tier.value];
    let rest = payload_wire(e.payload);
    lemma_le_bounds();
    lemma_le_bytes_len(ENTRY_MAGIC as nat, 4);
    lemma_le_bytes_len(e.status as nat, 2);
    lemma_le_bytes_len(e.inserted_at as nat, 8);
    assert(magic =~= seq![0x33u8, 0x43, 0x50, 0x4e]) by {
        reveal_with_fuel(le_bytes, 5);
    }
    assert(rest.len() > 0 && rest[0] == w[17]);
    assert(w[0] == magic[0] && w[1] == magic[1] && w[2] == magic[2] && w[3] == magic[3]);
    assert(w =~= magic + status + (maps + time + tier + rest));
    lemma_le_field_between(magic, e.status as nat, 2, maps + time + tier + rest);
    assert(w =~= (magic + status + maps) + time + (tier + rest));
    lemma_le_field_between(magic + status + maps, e.inserted_at as nat, 8, tier + rest);
    assert(w[6] == maps[0] && w[7] == maps[1] && w[16] == tier[0]);
    assert(e.missing as u8 == e.missing);
}

/// Bytes that do not start with the mark are an entry of an older form, and
/// those with a payload of an unknown kind are no entry.
pub proof fn law_foreign_entries(data: Seq<u8>)
    requires
        data.len() >= 18,
    ensures
        !(data[0] == 0x33 && data[1] == 0x43 && data[2] == 0x50 && data[3] == 0x4e) ==> decoded(data)
            == Err::<ArticleModel, CodecError>(CodecError::OldFormat),
        data[17] > 5 ==> decoded(data) is Err,
{
    let front = data.subrange(0, 4);
    if le_field(data, 0, 4)->0 == ENTRY_MAGIC {
        crate::bytes::law_le_value_round_trip(front);
        assert(le_bytes(ENTRY_MAGIC as nat, 4) == front);
        assert(front =~= seq![0x33u8, 0x43, 0x50, 0x4e]) by {
            reveal_with_fuel(le_bytes, 5);
        }
        assert(front[0] == data[0] && front[1] == data[1] && front[2] == data[2] && front[3]
            == data[3]);
    }
}

/// A section of more than a hundred binary megabytes is not read.
pub proof fn law_long_sections_are_not_read(data: Seq<u8>, at: int)
    requires
        le_field(data, at, 4) is Some,
    ensures
        ({
            let n = le_field(data, at, 4)->0;
            &&& n > 100 * 1024 * 1024 <==> section_at(data, at) == Err::<(Seq<u8>, int), CodecError>(
                CodecError::SectionTooLarge(n as u64),
            )
            &&& n <= 100 * 1024 * 1024 && at + 4 + n <= data.len() ==> section_at(data, at) == Ok::<
                (Seq<u8>, int),
                CodecError,
            >((data.subrange(at + 4, at + 4 + n), at + 4 + n))
        }),
{
}

/// An entry can be stored exactly where its backends fit a byte and the length
/// of each section fits four.
pub proof fn law_what_can_be_stored(e: ArticleModel)
    ensures
        store_refusal(e) is None <==> e.missing < 256 && (match e.payload {
            PayloadModel::Article { headers, body, .. } => headers.len() < 0x1_0000_0000
                && body.len() < 0x1_0000_0000,
            PayloadModel::Head { headers, .. } => headers.len() < 0x1_0000_0000,
            PayloadModel::Body { body, .. } => body.len() < 0x1_0000_0000,
            _ => true,
        }),
{
}

/// An article without a number is stored under eight bytes of 255, and those are
/// read as no number.
pub proof fn law_no_number_is_stored(data: Seq<u8>, at: int)
    requires
        0 <= at,
        at + 8 <= data.len(),
    ensures
        number_wire(None) == Seq::new(8, |i: int| 255u8),
        data.subrange(at, at + 8) == Seq::new(8, |i: int| 255u8) <==> number_at(data, at) == Ok::<
            (Option<u64>, int),
            CodecError,
        >((None, at + 8)),
{
    let all = Seq::new(8, |i: int| 255u8);
    let part = data.subrange(at, at + 8);
    assert(le_bytes(u64::MAX as nat, 8) =~= all) by {
        reveal_with_fuel(le_bytes, 9);
    }
    lemma_le_bounds();
    crate::bytes::law_le_round_trip(u64::MAX as nat, 8);
    crate::bytes::law_le_value_round_trip(part);
}

/// The words for bytes that are no entry, with the numbers at fault.
pub proof fn law_words_for_broken_entries(e: CodecError)
    ensures
        e.text() == (match e {
            CodecError::UnexpectedEnd => "failed to fill"@ + " whole buffer"@,
            CodecError::OldFormat => "old hybrid cache"@ + " entry format"@,
            CodecError::InvalidStatus(code) => "Invalid cached"@ + " status code: "@ + decimal_text(
                code as nat,
            ),
            CodecError::InvalidPayloadKind(kind) => "Invalid cached"@ + " payload kind: "@
                + decimal_text(kind as nat),
            CodecError::SectionTooLarge(size) => "Cached article section"@ + " too large: "@
                + decimal_text(size as nat) + " bytes"@,
            CodecError::TruncatedSection(expected, found) => "Expected "@ + decimal_text(
                expected as nat,
            ) + " bytes"@ + ", got "@ + decimal_text(found as nat),
            CodecError::BitmapTooWide => "availability bitmap"@ + " exceeds one byte"@,
        }),
{
    reveal_strlit("");
    reveal_strlit("failed to fill");
    reveal_strlit(" whole buffer");
    reveal_strlit("failed to fill whole buffer");
    reveal_strlit("old hybrid cache");
    reveal_strlit(" entry format");
    reveal_strlit("old hybrid cache entry format");
    reveal_strlit("Invalid cached");
    reveal_strlit(" status code: ");
    reveal_strlit("Invalid cached status code: ");
    reveal_strlit(" payload kind: ");
    reveal_strlit("Invalid cached payload kind: ");
    reveal_strlit("Cached article section");
    reveal_strlit(" too large: ");
    reveal_strlit("Cached article section too large: ");
    reveal_strlit(" bytes");
    reveal_strlit(", got ");
    reveal_strlit(" bytes, got ");
    reveal_strlit("availability bitmap");
    reveal_strlit(" exceeds one byte");
    reveal_strlit("availability bitmap exceeds one byte");
}

} // verus!
