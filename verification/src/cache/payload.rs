//! What a cache keeps of an article, and the responses made from it.
//!
//! Entries hold the parts of a response that carry meaning. Status lines and
//! terminators are made anew when a response is served.
use crate::bytes::{
    bytes_eq, decimal, ends_with, find, find_first, first_byte, first_occurrence, has_suffix,
    lemma_first_occurrence, lemma_no_occurrence, occurs_at, parse_decimal, parse_decimal_spec, push_bytes,
    push_decimal, to_vec,
};
use crate::cache::ingest::{joined, ChunkedResponse};
use crate::protocol::{
    blank_line, blank_line_bytes, crlf, crlf_bytes, lone_terminator, lone_terminator_bytes,
    terminator, terminator_bytes, RequestKind, ResponseWireLen, StatusCode,
};
use std::sync::Arc;
use vstd::prelude::*;
use vstd::string::*;

verus! {

/// Number of an article in a group.
#[derive(Clone, Copy, Debug, PartialEq, Eq, PartialOrd, Ord, Hash, Structural)]
pub struct CachedArticleNumber {
    pub value: u64,
}

impl CachedArticleNumber {
    pub fn new(value: u64) -> (r: Self)
        ensures
            r.value == value,
    {
        CachedArticleNumber { value }
    }

    pub fn get(self) -> (r: u64)
        ensures
            r == self.value,
    {
        self.value
    }
}

/// Bytes of payload in an entry.
#[derive(Clone, Copy, Debug, PartialEq, Eq, PartialOrd, Ord, Hash, Structural)]
pub struct CachedPayloadLen {
    pub value: usize,
}

impl CachedPayloadLen {
    pub fn new(value: usize) -> (r: Self)
        ensures
            r.value == value,
    {
        CachedPayloadLen { value }
    }

    pub fn get(self) -> (r: usize)
        ensures
            r == self.value,
    {
        self.value
    }
}

/// Which parts of an article an entry has.
#[derive(Clone, Copy, Debug, PartialEq, Eq, Hash, Structural)]
pub enum CachedPayloadKind {
    Missing,
    AvailabilityOnly,
    Article,
    Head,
    Body,
    Stat,
}

/// The parts of an article, as byte strings.
#[verifier::ext_equal]
pub enum PayloadModel {
    Missing,
    AvailabilityOnly,
    Article { number: Option<u64>, headers: Seq<u8>, body: Seq<u8> },
    Head { number: Option<u64>, headers: Seq<u8> },
    Body { number: Option<u64>, body: Seq<u8> },
    Stat { number: Option<u64> },
}

impl PayloadModel {
    /// Bytes of headers and body.
    pub open spec fn size(self) -> nat {
        match self {
            PayloadModel::Article { headers, body, .. } => headers.len() + body.len(),
            PayloadModel::Head { headers, .. } => headers.len(),
            PayloadModel::Body { body, .. } => body.len(),
            _ => 0,
        }
    }

    pub open spec fn article_number(self) -> Option<u64> {
        match self {
            PayloadModel::Article { number, .. } => number,
            PayloadModel::Head { number, .. } => number,
            PayloadModel::Body { number, .. } => number,
            PayloadModel::Stat { number } => number,
            _ => None,
        }
    }

    pub open spec fn kind(self) -> CachedPayloadKind {
        match self {
            PayloadModel::Missing => CachedPayloadKind::Missing,
            PayloadModel::AvailabilityOnly => CachedPayloadKind::AvailabilityOnly,
            PayloadModel::Article { .. } => CachedPayloadKind::Article,
            PayloadModel::Head { .. } => CachedPayloadKind::Head,
            PayloadModel::Body { .. } => CachedPayloadKind::Body,
            PayloadModel::Stat { .. } => CachedPayloadKind::Stat,
        }
    }

    /// Does the payload, under this status, hold the text of the article?
    pub open spec fn complete(self, status: u16) -> bool {
        match self {
            PayloadModel::Article { headers, body, .. } => status == 220 && (headers.len() > 0
                || body.len() > 0),
            PayloadModel::Body { body, .. } => status == 222 && body.len() > 0,
            _ => false,
        }
    }
}

/// What an entry holds of an article. The byte strings are shared between
/// copies of the entry.
#[derive(Debug, PartialEq, Eq)]
pub enum CachedPayload {
    Missing,
    AvailabilityOnly,
    Article { article_number: Option<CachedArticleNumber>, headers: Arc<[u8]>, body: Arc<[u8]> },
    Head { article_number: Option<CachedArticleNumber>, headers: Arc<[u8]> },
    Body { article_number: Option<CachedArticleNumber>, body: Arc<[u8]> },
    Stat { article_number: Option<CachedArticleNumber> },
}

pub open spec fn number_view(n: Option<CachedArticleNumber>) -> Option<u64> {
    match n {
        Some(a) => Some(a.value),
        None => None,
    }
}

impl View for CachedPayload {
    type V = PayloadModel;

    open spec fn view(&self) -> PayloadModel {
        match self {
            CachedPayload::Missing => PayloadModel::Missing,
            CachedPayload::AvailabilityOnly => PayloadModel::AvailabilityOnly,
            CachedPayload::Article { article_number, headers, body } => PayloadModel::Article {
                number: number_view(*article_number),
                headers: headers@,
                body: body@,
            },
            CachedPayload::Head { article_number, headers } => PayloadModel::Head {
                number: number_view(*article_number),
                headers: headers@,
            },
            CachedPayload::Body { article_number, body } => PayloadModel::Body {
                number: number_view(*article_number),
                body: body@,
            },
            CachedPayload::Stat { article_number } => PayloadModel::Stat {
                number: number_view(*article_number),
            },
        }
    }
}

/// `Arc::<[u8]>::from`, which moves the bytes of a vector into a
/// reference-counted slice.
#[verifier::external_body]
pub(crate) fn shared(v: Vec<u8>) -> (r: Arc<[u8]>)
    ensures
        r@ == v@,
{
    Arc::from(v)
}

impl Clone for CachedPayload {
    fn clone(&self) -> (r: Self)
        ensures
            r@ == self@,
    {
        match self {
            CachedPayload::Missing => CachedPayload::Missing,
            CachedPayload::AvailabilityOnly => CachedPayload::AvailabilityOnly,
            CachedPayload::Article { article_number, headers, body } => CachedPayload::Article {
                article_number: *article_number,
                headers: headers.clone(),
                body: body.clone(),
            },
            CachedPayload::Head { article_number, headers } => CachedPayload::Head {
                article_number: *article_number,
                headers: headers.clone(),
            },
            CachedPayload::Body { article_number, body } => CachedPayload::Body {
                article_number: *article_number,
                body: body.clone(),
            },
            CachedPayload::Stat { article_number } => CachedPayload::Stat {
                article_number: *article_number,
            },
        }
    }
}

impl CachedPayload {
    pub fn len(&self) -> (r: CachedPayloadLen)
        requires
            self@.size() <= usize::MAX,
        ensures
            r.value == self@.size(),
    {
        let len: usize = match self {
            CachedPayload::Article { headers, body, .. } => headers.len() + body.len(),
            CachedPayload::Head { headers, .. } => headers.len(),
            CachedPayload::Body { body, .. } => body.len(),
            _ => 0,
        };
        CachedPayloadLen { value: len }
    }

    pub fn kind(&self) -> (r: CachedPayloadKind)
        ensures
            r == self@.kind(),
    {
        match self {
            CachedPayload::Missing => CachedPayloadKind::Missing,
            CachedPayload::AvailabilityOnly => CachedPayloadKind::AvailabilityOnly,
            CachedPayload::Article { .. } => CachedPayloadKind::Article,
            CachedPayload::Head { .. } => CachedPayloadKind::Head,
            CachedPayload::Body { .. } => CachedPayloadKind::Body,
            CachedPayload::Stat { .. } => CachedPayloadKind::Stat,
        }
    }

    pub fn article_number(&self) -> (r: Option<CachedArticleNumber>)
        ensures
            number_view(r) == self@.article_number(),
    {
        match self {
            CachedPayload::Article { article_number, .. } => *article_number,
            CachedPayload::Head { article_number, .. } => *article_number,
            CachedPayload::Body { article_number, .. } => *article_number,
            CachedPayload::Stat { article_number } => *article_number,
            _ => None,
        }
    }

    /// Does the payload, under this status, hold the text of the article?
    pub fn is_complete(&self, status: u16) -> (r: bool)
        ensures
            r == self@.complete(status),
    {
        match self {
            CachedPayload::Article { headers, body, .. } => status == 220 && (headers.len() != 0
                || body.len() != 0),
            CachedPayload::Body { body, .. } => status == 222 && body.len() != 0,
            _ => false,
        }
    }
}

// ---------------------------------------------------------------------------
// Reading responses
// ---------------------------------------------------------------------------

/// The article number in a status line: the word after the status.
pub open spec fn number_in(line: Seq<u8>) -> Option<u64> {
    if line.len() < 4 {
        None
    } else {
        let rest = line.subrange(4, line.len() as int);
        match parse_decimal_spec(rest.subrange(0, first_byte(rest, 0x20) as int)) {
            Some(n) => if n <= u64::MAX {
                Some(n as u64)
            } else {
                None
            },
            None => None,
        }
    }
}

/// The lines of a multiline response, without the terminator; `None` when the
/// response is cut short.
pub open spec fn multiline_text(rest: Seq<u8>) -> Option<Seq<u8>> {
    if rest == lone_terminator() {
        Some(Seq::empty())
    } else if has_suffix(rest, terminator()) {
        Some(rest.subrange(0, rest.len() - 5))
    } else {
        None
    }
}

/// The parts of an article: headers up to the first blank line and the body
/// after it; all of it is body where no line is blank.
pub open spec fn article_parts(number: Option<u64>, text: Seq<u8>) -> PayloadModel {
    match first_occurrence(text, blank_line()) {
        Some(i) => PayloadModel::Article {
            number,
            headers: text.subrange(0, i),
            body: text.subrange(i + 4, text.len() as int),
        },
        None => PayloadModel::Article { number, headers: Seq::empty(), body: text },
    }
}

/// What is kept of a response with this status.
pub open spec fn payload_of(status: u16, response: Seq<u8>) -> PayloadModel {
    if status == 430 {
        PayloadModel::Missing
    } else {
        match first_occurrence(response, crlf()) {
            None => PayloadModel::AvailabilityOnly,
            Some(i) => {
                let number = number_in(response.subrange(0, i + 2));
                let rest = response.subrange(i + 2, response.len() as int);
                if 220 <= status <= 222 {
                    match multiline_text(rest) {
                        None => PayloadModel::AvailabilityOnly,
                        Some(text) => if status == 220 {
                            article_parts(number, text)
                        } else if status == 221 {
                            PayloadModel::Head { number, headers: text }
                        } else {
                            PayloadModel::Body { number, body: text }
                        },
                    }
                } else if status == 223 {
                    PayloadModel::Stat { number }
                } else {
                    PayloadModel::AvailabilityOnly
                }
            },
        }
    }
}

/// No more is kept of a response than there is.
pub proof fn lemma_payload_size(status: u16, response: Seq<u8>)
    ensures
        payload_of(status, response).size() <= response.len(),
{
    if let Some(i) = first_occurrence(response, crlf()) {
        lemma_first_occurrence_in(response, crlf());
        let rest = response.subrange(i + 2, response.len() as int);
        if let Some(text) = multiline_text(rest) {
            lemma_first_occurrence_in(text, blank_line());
        }
    }
}

pub proof fn lemma_first_occurrence_in(hay: Seq<u8>, needle: Seq<u8>)
    ensures
        match first_occurrence(hay, needle) {
            Some(i) => occurs_at(hay, needle, i) && forall|j: int|
                j < i ==> !occurs_at(hay, needle, j),
            None => true,
        },
{
    reveal(first_occurrence);
    if exists|i: int| occurs_at(hay, needle, i) {
        let w = choose|i: int| occurs_at(hay, needle, i);
        lemma_least_occurrence(hay, needle, 0, w);
    }
}

proof fn lemma_least_occurrence(hay: Seq<u8>, needle: Seq<u8>, from: int, w: int)
    requires
        0 <= from <= w,
        occurs_at(hay, needle, w),
        forall|j: int| j < from ==> !occurs_at(hay, needle, j),
    ensures
        exists|i: int|
            occurs_at(hay, needle, i) && forall|j: int| j < i ==> !occurs_at(hay, needle, j),
    decreases w - from,
{
    if occurs_at(hay, needle, from) {
        assert(occurs_at(hay, needle, from) && forall|j: int|
            j < from ==> !occurs_at(hay, needle, j));
    } else {
        lemma_least_occurrence(hay, needle, from + 1, w);
    }
}

fn parse_article_number(status_line: &[u8]) -> (r: Option<CachedArticleNumber>)
    ensures
        number_view(r) == number_in(status_line@),
{
    if status_line.len() < 4 {
        return None;
    }
    let rest = &status_line[4..status_line.len()];
    let end = find_first(0x20, rest);
    match parse_decimal(&rest[0..end], u64::MAX) {
        Some(n) => Some(CachedArticleNumber { value: n }),
        None => None,
    }
}

fn payload_for_text(
    code: u16,
    article_number: Option<CachedArticleNumber>,
    text: &[u8],
) -> (r: CachedPayload)
    requires
        220 <= code <= 222,
    ensures
        r@ == (if code == 220 {
            article_parts(number_view(article_number), text@)
        } else if code == 221 {
            PayloadModel::Head { number: number_view(article_number), headers: text@ }
        } else {
            PayloadModel::Body { number: number_view(article_number), body: text@ }
        }),
{
    if code == 220 {
        match find(text, blank_line_bytes()) {
            Some(split) => {
                assert(split + 4 <= text.len());
                let headers = to_vec(&text[0..split]);
                let body = to_vec(&text[split + 4..text.len()]);
                CachedPayload::Article {
                    article_number,
                    headers: shared(headers),
                    body: shared(body),
                }
            },
            None => {
                let empty: Vec<u8> = Vec::new();
                let r = CachedPayload::Article {
                    article_number,
                    headers: shared(empty),
                    body: shared(to_vec(text)),
                };
                assert(r@ =~= article_parts(number_view(article_number), text@));
                r
            },
        }
    } else if code == 221 {
        CachedPayload::Head { article_number, headers: shared(to_vec(text)) }
    } else {
        CachedPayload::Body { article_number, body: shared(to_vec(text)) }
    }
}

fn multiline_payload(rest: &[u8]) -> (r: Option<&[u8]>)
    ensures
        match r {
            Some(t) => multiline_text(rest@) == Some(t@),
            None => multiline_text(rest@) is None,
        },
{
    if bytes_eq(rest, lone_terminator_bytes()) {
        let r = &rest[0..0];
        assert(r@ =~= Seq::<u8>::empty());
        return Some(r);
    }
    if ends_with(rest, terminator_bytes()) {
        return Some(&rest[0..rest.len() - 5]);
    }
    None
}

/// What to keep of a response with this status.
pub fn parse_payload(status_code: StatusCode, buffer: &[u8]) -> (r: CachedPayload)
    ensures
        r@ == payload_of(status_code.code, buffer@),
{
    let code = status_code.as_u16();
    if code == 430 {
        return CachedPayload::Missing;
    }
    let status_end: usize = match find(buffer, crlf_bytes()) {
        Some(i) => {
            assert(i + 2 <= buffer.len());
            i + 2
        },
        None => {
            return CachedPayload::AvailabilityOnly;
        },
    };
    let article_number = parse_article_number(&buffer[0..status_end]);
    if 220 <= code && code <= 222 {
        match multiline_payload(&buffer[status_end..buffer.len()]) {
            Some(text) => payload_for_text(code, article_number, text),
            None => CachedPayload::AvailabilityOnly,
        }
    } else if code == 223 {
        CachedPayload::Stat { article_number }
    } else {
        CachedPayload::AvailabilityOnly
    }
}

/// The status line of a response in pieces, its line ending included.
fn chunked_status_line(buffer: &ChunkedResponse) -> (r: Option<Vec<u8>>)
    ensures
        match r {
            Some(line) => {
                &&& line@.len() >= 2
                &&& first_occurrence(buffer@, crlf()) == Some(line@.len() - 2)
                &&& line@.len() <= buffer@.len()
                &&& line@ == buffer@.subrange(0, line@.len() as int)
            },
            None => first_occurrence(buffer@, crlf()) is None,
        },
{
    let mut line: Vec<u8> = Vec::new();
    let ghost pieces = buffer.pieces();
    proof {
        buffer.lemma_pieces();
        assert(pieces.take(0) =~= Seq::<Vec<u8>>::empty());
    }
    let count = buffer.chunk_count();
    for i in 0..count
        invariant
            count == pieces.len(),
            pieces == buffer.pieces(),
            buffer@ == joined(pieces),
            line@ == joined(pieces.take(i as int)),
            forall|k: int| 0 <= k < line@.len() - 1 ==> !occurs_at(buffer@, crlf(), k),
    {
        let chunk = buffer.chunk(i);
        let ghost before = line@;
        proof {
            assert(pieces.take(i + 1).drop_last() =~= pieces.take(i as int));
            assert(joined(pieces.take(i + 1)) =~= before + chunk@);
            lemma_joined_is_prefix(pieces, i + 1);
            assert(chunk@.take(0) =~= Seq::<u8>::empty());
        }
        for j in 0..chunk.len()
            invariant
                before + chunk@ == buffer@.subrange(0, (before + chunk@).len() as int),
                (before + chunk@).len() <= buffer@.len(),
                line@ == before + chunk@.take(j as int),
                forall|k: int| 0 <= k < line@.len() - 1 ==> !occurs_at(buffer@, crlf(), k),
        {
            line.push(chunk[j]);
            proof {
                assert(chunk@.take(j + 1) =~= chunk@.take(j as int).push(chunk@[j as int]));
                assert(line@ =~= before + chunk@.take(j + 1));
                assert(line@ =~= (before + chunk@).subrange(0, line@.len() as int));
                assert(line@ =~= buffer@.subrange(0, line@.len() as int));
            }
            let n = line.len();
            if n >= 2 && line[n - 2] == 0x0d && line[n - 1] == 0x0a {
                proof {
                    assert(buffer@.subrange(n - 2, n as int) =~= crlf());
                    assert(occurs_at(buffer@, crlf(), n - 2));
                    lemma_first_occurrence(buffer@, crlf(), n - 2);
                }
                return Some(line);
            }
            proof {
                if n >= 2 && occurs_at(buffer@, crlf(), n - 2) {
                    let w = buffer@.subrange(n - 2, n as int);
                    assert(w[0] == line@[n - 2]);
                    assert(w[1] == line@[n - 1]);
                    assert(w[0] == crlf()[0] && w[1] == crlf()[1]);
                }
            }
        }
        assert(chunk@.take(chunk@.len() as int) =~= chunk@);
    }
    proof {
        assert(pieces.take(pieces.len() as int) =~= pieces);
        lemma_no_occurrence(buffer@, crlf());
    }
    None
}

proof fn lemma_joined_is_prefix(pieces: Seq<Vec<u8>>, n: int)
    requires
        0 <= n <= pieces.len(),
    ensures
        joined(pieces.take(n)).len() <= joined(pieces).len(),
        joined(pieces.take(n)) == joined(pieces).subrange(0, joined(pieces.take(n)).len() as int),
    decreases pieces.len() - n,
{
    if n == pieces.len() {
        assert(pieces.take(n) =~= pieces);
        assert(joined(pieces).subrange(0, joined(pieces).len() as int) =~= joined(pieces));
    } else {
        lemma_joined_is_prefix(pieces, n + 1);
        assert(pieces.take(n + 1).drop_last() =~= pieces.take(n));
        let a = joined(pieces.take(n));
        let b = joined(pieces.take(n + 1));
        assert(a =~= b.subrange(0, a.len() as int));
        assert(a =~= joined(pieces).subrange(0, a.len() as int));
    }
}

/// Where the text of a multiline response in pieces ends; `None` when the
/// response is cut short.
fn chunked_multiline_payload_end(buffer: &ChunkedResponse, payload_start: usize) -> (r: Option<
    usize,
>)
    requires
        2 <= payload_start <= buffer@.len(),
        first_occurrence(buffer@, crlf()) == Some(payload_start - 2),
    ensures
        match r {
            Some(end) => payload_start <= end <= buffer@.len() && multiline_text(
                buffer@.subrange(payload_start as int, buffer@.len() as int),
            ) == Some(buffer@.subrange(payload_start as int, end as int)),
            None => multiline_text(
                buffer@.subrange(payload_start as int, buffer@.len() as int),
            ) is None,
        },
{
    let ghost b = buffer@;
    let ghost rest = b.subrange(payload_start as int, b.len() as int);
    let len = buffer.len();
    let lone = buffer.ends_with(lone_terminator_bytes());
    proof {
        assert(b.len() >= 3 && rest.len() == 3 ==> b.subrange(b.len() - 3, b.len() as int) =~= rest);
        assert(b.subrange(payload_start as int, payload_start as int) =~= Seq::<u8>::empty());
    }
    if len - payload_start == 3 && lone {
        return Some(payload_start);
    }
    let ended = buffer.ends_with(terminator_bytes());
    proof {
        assert(rest == lone_terminator() ==> rest.len() == 3);
        if ended {
            lemma_terminator_follows_status(b, payload_start as int);
            assert(rest.subrange(rest.len() - 5, rest.len() as int) =~= b.subrange(
                b.len() - 5,
                b.len() as int,
            ));
            assert(rest.subrange(0, rest.len() - 5) =~= b.subrange(
                payload_start as int,
                b.len() - 5,
            ));
        } else if has_suffix(rest, terminator()) {
            assert(b.subrange(b.len() - 5, b.len() as int) =~= rest.subrange(
                rest.len() - 5,
                rest.len() as int,
            ));
        }
    }
    if ended {
        Some(len - 5)
    } else {
        None
    }
}

/// A terminator at the end of a response lies after its status line, unless it
/// is all that follows the status line.
proof fn lemma_terminator_follows_status(b: Seq<u8>, start: int)
    requires
        2 <= start <= b.len(),
        first_occurrence(b, crlf()) == Some(start - 2),
        has_suffix(b, terminator()),
        !(b.len() - start == 3 && has_suffix(b, lone_terminator())),
    ensures
        b.len() - start >= 5,
{
    lemma_first_occurrence_in(b, crlf());
    let n = b.len() as int;
    let tail = b.subrange(n - 5, n);
    assert(tail == terminator());
    assert(tail[0] == 0x0d && tail[1] == 0x0a && tail[2] == 0x2e && tail[3] == 0x0d && tail[4]
        == 0x0a);
    let status_end = b.subrange(start - 2, start);
    assert(status_end == crlf());
    assert(status_end[0] == 0x0d && status_end[1] == 0x0a);
    assert(b[start - 2] == 0x0d && b[start - 1] == 0x0a);
    assert(b[n - 5] == 0x0d && b[n - 4] == 0x0a && b[n - 3] == 0x2e && b[n - 2] == 0x0d && b[n - 1]
        == 0x0a);
    if n - start == 3 {
        assert(b.subrange(n - 3, n) =~= lone_terminator());
    } else if start == n {
        assert(b.subrange(n - 5, n - 3) =~= crlf());
        assert(occurs_at(b, crlf(), n - 5));
    }
}

/// What to keep of a response in pieces with this status: the same as of the
/// response in one piece.
pub fn parse_payload_chunked_response(
    status_code: StatusCode,
    buffer: &ChunkedResponse,
) -> (r: CachedPayload)
    ensures
        r@ == payload_of(status_code.code, buffer@),
{
    let code = status_code.as_u16();
    if code == 430 {
        return CachedPayload::Missing;
    }
    let line = match chunked_status_line(buffer) {
        Some(l) => l,
        None => {
            return CachedPayload::AvailabilityOnly;
        },
    };
    let status_end = line.len();
    let article_number = parse_article_number(line.as_slice());
    if 220 <= code && code <= 222 {
        match chunked_multiline_payload_end(buffer, status_end) {
            Some(end) => {
                let text = buffer.copy_range(status_end, end);
                payload_for_text(code, article_number, text.as_slice())
            },
            None => CachedPayload::AvailabilityOnly,
        }
    } else if code == 223 {
        CachedPayload::Stat { article_number }
    } else {
        CachedPayload::AvailabilityOnly
    }
}

// ---------------------------------------------------------------------------
// Serving responses
// ---------------------------------------------------------------------------

/// Longest status line that is made, in bytes.
pub const MAX_STATUS_LINE_BYTES: usize = 1024;

/// A status line: status, article number and message identifier.
pub open spec fn status_line_of(code: u16, number: u64, message_id: Seq<u8>) -> Seq<u8> {
    decimal(code as nat) + seq![0x20u8] + decimal(number as nat) + seq![0x20u8] + message_id
        + crlf()
}

/// What follows the status line of a response.
pub open spec fn served_text(kind: RequestKind, payload: PayloadModel) -> Seq<u8> {
    match (kind, payload) {
        (RequestKind::Article, PayloadModel::Article { headers, body, .. }) => headers
            + blank_line() + body + terminator(),
        (RequestKind::Head, PayloadModel::Article { headers, .. }) => headers + terminator(),
        (RequestKind::Head, PayloadModel::Head { headers, .. }) => headers + terminator(),
        (RequestKind::Body, PayloadModel::Article { body, .. }) => body + terminator(),
        (RequestKind::Body, PayloadModel::Body { body, .. }) => body + terminator(),
        _ => Seq::empty(),
    }
}

/// Status under which the payload can answer a request of this kind, if it can.
pub open spec fn served_status(kind: RequestKind, payload: PayloadModel) -> Option<u16> {
    match (kind, payload) {
        (
            RequestKind::Stat,
            PayloadModel::Article { .. }
            | PayloadModel::Head { .. }
            | PayloadModel::Body { .. }
            | PayloadModel::Stat { .. },
        ) => Some(223),
        (RequestKind::Article, PayloadModel::Article { .. }) => Some(220),
        (RequestKind::Head, PayloadModel::Article { .. } | PayloadModel::Head { .. }) => Some(221),
        (RequestKind::Body, PayloadModel::Article { .. } | PayloadModel::Body { .. }) => Some(222),
        _ => None,
    }
}

/// The response that answers a request from the payload, its status with it;
/// `None` when the payload has not what is asked for, or the status line would
/// be too long.
pub open spec fn served(kind: RequestKind, payload: PayloadModel, message_id: Seq<u8>) -> Option<
    (u16, Seq<u8>),
> {
    match served_status(kind, payload) {
        Some(code) => {
            let number = match payload.article_number() {
                Some(n) => n,
                None => 0,
            };
            let line = status_line_of(code, number, message_id);
            if line.len() <= MAX_STATUS_LINE_BYTES {
                Some((code, line + served_text(kind, payload)))
            } else {
                None
            }
        },
        None => None,
    }
}

/// What follows the status line, borrowed from the entry.
#[derive(Debug)]
pub enum CachedResponseWirePayload<'a> {
    Nothing,
    Article { headers: &'a [u8], body: &'a [u8] },
    Head { headers: &'a [u8] },
    Body { body: &'a [u8] },
}

impl<'a> View for CachedResponseWirePayload<'a> {
    type V = Seq<u8>;

    open spec fn view(&self) -> Seq<u8> {
        match self {
            CachedResponseWirePayload::Nothing => Seq::empty(),
            CachedResponseWirePayload::Article { headers, body } => headers@ + blank_line() + body@
                + terminator(),
            CachedResponseWirePayload::Head { headers } => headers@ + terminator(),
            CachedResponseWirePayload::Body { body } => body@ + terminator(),
        }
    }
}

/// A response made from a cached payload. Its view is the bytes of it.
#[derive(Debug)]
pub struct CachedResponseWire<'a> {
    status: StatusCode,
    status_line: Vec<u8>,
    payload: CachedResponseWirePayload<'a>,
}

impl<'a> View for CachedResponseWire<'a> {
    type V = Seq<u8>;

    closed spec fn view(&self) -> Seq<u8> {
        self.status_line@ + self.payload@
    }
}

impl<'a> CachedResponseWire<'a> {
    pub closed spec fn spec_status(&self) -> StatusCode {
        self.status
    }

    /// Bytes of the response on the wire.
    pub fn wire_len(&self) -> (r: ResponseWireLen)
        requires
            self@.len() <= usize::MAX,
        ensures
            r.value == self@.len(),
    {
        let text: usize = match &self.payload {
            CachedResponseWirePayload::Nothing => 0,
            CachedResponseWirePayload::Article { headers, body } => {
                assert(self@.len() == self.status_line@.len() + headers@.len() + 4 + body@.len()
                    + 5);
                headers.len() + 4 + body.len() + 5
            },
            CachedResponseWirePayload::Head { headers } => {
                assert(self@.len() == self.status_line@.len() + headers@.len() + 5);
                headers.len() + 5
            },
            CachedResponseWirePayload::Body { body } => {
                assert(self@.len() == self.status_line@.len() + body@.len() + 5);
                body.len() + 5
            },
        };
        ResponseWireLen { value: self.status_line.len() + text }
    }

    pub fn status(&self) -> (r: StatusCode)
        ensures
            r == self.spec_status(),
    {
        self.status
    }

    /// The bytes of the response, piece by piece: their concatenation is the
    /// response.
    pub fn parts(&self) -> (r: Vec<&[u8]>)
        ensures
            joined_slices(r@) == self@,
    {
        let mut parts: Vec<&[u8]> = Vec::new();
        parts.push(self.status_line.as_slice());
        match &self.payload {
            CachedResponseWirePayload::Nothing => {},
            CachedResponseWirePayload::Article { headers, body } => {
                parts.push(headers);
                parts.push(blank_line_bytes());
                parts.push(body);
                parts.push(terminator_bytes());
            },
            CachedResponseWirePayload::Head { headers } => {
                parts.push(headers);
                parts.push(terminator_bytes());
            },
            CachedResponseWirePayload::Body { body } => {
                parts.push(body);
                parts.push(terminator_bytes());
            },
        }
        proof {
            lemma_joined_slices(parts@);
            assert(joined_slices(parts@) =~= self@);
        }
        parts
    }

    /// The bytes of the response in one piece.
    pub fn to_bytes(&self) -> (r: Vec<u8>)
        ensures
            r@ == self@,
    {
        let parts = self.parts();
        let mut out: Vec<u8> = Vec::new();
        assert(parts@.take(0) =~= Seq::<&[u8]>::empty());
        for i in 0..parts.len()
            invariant
                out@ == joined_slices(parts@.take(i as int)),
        {
            assert(parts@.take(i + 1).drop_last() =~= parts@.take(i as int));
            push_bytes(&mut out, parts[i]);
        }
        assert(parts@.take(parts@.len() as int) =~= parts@);
        out
    }
}

/// The slices end to end.
pub open spec fn joined_slices(parts: Seq<&[u8]>) -> Seq<u8>
    decreases parts.len(),
{
    if parts.len() == 0 {
        Seq::empty()
    } else {
        joined_slices(parts.drop_last()) + parts.last()@
    }
}

proof fn lemma_joined_slices(parts: Seq<&[u8]>)
    requires
        parts.len() <= 5,
    ensures
        parts.len() == 1 ==> joined_slices(parts) == parts[0]@,
        parts.len() == 3 ==> joined_slices(parts) == parts[0]@ + parts[1]@ + parts[2]@,
        parts.len() == 5 ==> joined_slices(parts) == parts[0]@ + parts[1]@ + parts[2]@ + parts[3]@
            + parts[4]@,
{
    reveal_with_fuel(joined_slices, 6);
    if parts.len() == 1 {
        assert(joined_slices(parts) =~= parts[0]@);
    }
    if parts.len() == 3 {
        assert(parts.drop_last().drop_last()[0] == parts[0]);
        assert(joined_slices(parts) =~= parts[0]@ + parts[1]@ + parts[2]@);
    }
    if parts.len() == 5 {
        assert(joined_slices(parts) =~= parts[0]@ + parts[1]@ + parts[2]@ + parts[3]@
            + parts[4]@);
    }
}

fn status_line(code: u16, number: u64, message_id: &str) -> (r: Option<Vec<u8>>)
    ensures
        match r {
            Some(line) => line@ == status_line_of(code, number, message_id.spec_bytes())
                && line@.len() <= MAX_STATUS_LINE_BYTES,
            None => status_line_of(code, number, message_id.spec_bytes()).len()
                > MAX_STATUS_LINE_BYTES,
        },
{
    let mut line: Vec<u8> = Vec::new();
    push_decimal(&mut line, code as u64);
    line.push(0x20);
    push_decimal(&mut line, number);
    line.push(0x20);
    push_bytes(&mut line, message_id.as_bytes());
    push_bytes(&mut line, crlf_bytes());
    assert(line@ =~= status_line_of(code, number, message_id.spec_bytes()));
    if line.len() > MAX_STATUS_LINE_BYTES {
        None
    } else {
        Some(line)
    }
}

/// The response that answers a request from the payload.
pub fn cached_response_for_payload<'a>(
    payload: &'a CachedPayload,
    request_kind: RequestKind,
    message_id: &str,
) -> (r: Option<CachedResponseWire<'a>>)
    ensures
        match r {
            Some(w) => served(request_kind, payload@, message_id.spec_bytes()) == Some(
                (w.spec_status().code, w@),
            ),
            None => served(request_kind, payload@, message_id.spec_bytes()) is None,
        },
{
    let number: u64 = match payload.article_number() {
        Some(n) => n.get(),
        None => 0,
    };
    let (code, parts): (u16, CachedResponseWirePayload<'a>) = match (request_kind, payload) {
        (RequestKind::Stat, CachedPayload::Article { .. }) => (223, CachedResponseWirePayload::Nothing),
        (RequestKind::Stat, CachedPayload::Head { .. }) => (223, CachedResponseWirePayload::Nothing),
        (RequestKind::Stat, CachedPayload::Body { .. }) => (223, CachedResponseWirePayload::Nothing),
        (RequestKind::Stat, CachedPayload::Stat { .. }) => (223, CachedResponseWirePayload::Nothing),
        (RequestKind::Article, CachedPayload::Article { headers, body, .. }) => (
            220,
            CachedResponseWirePayload::Article { headers, body },
        ),
        (RequestKind::Head, CachedPayload::Article { headers, .. }) => (
            221,
            CachedResponseWirePayload::Head { headers },
        ),
        (RequestKind::Head, CachedPayload::Head { headers, .. }) => (
            221,
            CachedResponseWirePayload::Head { headers },
        ),
        (RequestKind::Body, CachedPayload::Article { body, .. }) => (
            222,
            CachedResponseWirePayload::Body { body },
        ),
        (RequestKind::Body, CachedPayload::Body { body, .. }) => (
            222,
            CachedResponseWirePayload::Body { body },
        ),
        _ => {
            return None;
        },
    };
    match status_line(code, number, message_id) {
        Some(line) => Some(
            CachedResponseWire { status: StatusCode { code }, status_line: line, payload: parts },
        ),
        None => None,
    }
}

// ---------------------------------------------------------------------------
// Laws
// ---------------------------------------------------------------------------

/// No byte of `s` is a line feed.
pub open spec fn one_line(s: Seq<u8>) -> bool {
    forall|i: int| 0 <= i < s.len() ==> #[trigger] s[i] != 0x0a
}

proof fn lemma_decimal_is_one_line(n: nat)
    ensures
        one_line(decimal(n)),
        forall|i: int| 0 <= i < decimal(n).len() ==> #[trigger] decimal(n)[i] != 0x20,
        decimal(n).len() > 0,
    decreases n,
{
    if n >= 10 {
        lemma_decimal_is_one_line(n / 10);
    }
}

proof fn lemma_three_digits(code: u16)
    requires
        200 <= code < 300,
    ensures
        decimal(code as nat).len() == 3,
{
    reveal_with_fuel(decimal, 4);
}

/// A status line ends at the first line ending of its response, and its number
/// is read back from it.
proof fn lemma_status_line(code: u16, number: u64, message_id: Seq<u8>, rest: Seq<u8>)
    requires
        200 <= code < 300,
        one_line(message_id),
    ensures
        ({
            let line = status_line_of(code, number, message_id);
            &&& first_occurrence(line + rest, crlf()) == Some(line.len() - 2)
            &&& number_in(line) == Some(number)
            &&& (line + rest).subrange(0, line.len() as int) == line
            &&& (line + rest).subrange(line.len() as int, (line + rest).len() as int) == rest
        }),
{
    let line = status_line_of(code, number, message_id);
    let d = decimal(number as nat);
    let all = line + rest;
    lemma_three_digits(code);
    lemma_decimal_is_one_line(code as nat);
    lemma_decimal_is_one_line(number as nat);
    assert(one_line(line.subrange(0, line.len() - 1))) by {
        let head = line.subrange(0, line.len() - 1);
        assert(head =~= decimal(code as nat) + seq![0x20u8] + d + seq![0x20u8] + message_id
            + seq![0x0du8]);
    }
    assert(all.subrange(line.len() - 2, line.len() as int) =~= crlf());
    assert forall|j: int| 0 <= j < line.len() - 2 implies !occurs_at(all, crlf(), j) by {
        if occurs_at(all, crlf(), j) {
            let w = all.subrange(j, j + 2);
            assert(w[1] == crlf()[1]);
            assert(line.subrange(0, line.len() - 1)[j + 1] != 0x0a);
        }
    }
    lemma_first_occurrence(all, crlf(), line.len() - 2);
    let after = line.subrange(4, line.len() as int);
    assert(after =~= d + seq![0x20u8] + message_id + crlf());
    crate::bytes::lemma_first_byte(after, 0x20, d.len() as int);
    assert(after.subrange(0, d.len() as int) =~= d);
    crate::bytes::law_decimal_round_trip(number as nat);
    assert(all.subrange(0, line.len() as int) =~= line);
    assert(all.subrange(line.len() as int, all.len() as int) =~= rest);
}

proof fn lemma_multiline(text: Seq<u8>)
    ensures
        multiline_text(text + terminator()) == Some(text),
{
    let rest = text + terminator();
    assert(rest.subrange(rest.len() - 5, rest.len() as int) =~= terminator());
    assert(rest.subrange(0, rest.len() - 5) =~= text);
    assert(rest.len() != lone_terminator().len());
}

/// The status of a response is that of its status line.
pub(crate) proof fn lemma_status_of_line(code: u16, number: u64, message_id: Seq<u8>, rest: Seq<u8>)
    requires
        200 <= code < 300,
    ensures
        crate::protocol::status_of(status_line_of(code, number, message_id) + rest) == Some(StatusCode { code }),
{
    let d = decimal(code as nat);
    reveal_with_fuel(decimal, 4);
    let (a, b, c): (nat, nat, nat) = (
        code as nat / 100,
        code as nat / 10 % 10,
        code as nat % 10,
    );
    assert(code as nat / 10 / 10 == a);
    assert(d =~= seq![(0x30 + a) as u8, (0x30 + b) as u8, (0x30 + c) as u8]);
    let all = status_line_of(code, number, message_id) + rest;
    assert(all[0] == d[0] && all[1] == d[1] && all[2] == d[2]);
    assert(a * 100 + b * 10 + c == code);
}

/// Only an article under 220 and a body under 222 have text, and only where they
/// are not empty.
pub proof fn law_what_has_text(payload: PayloadModel, status: u16)
    ensures
        payload.complete(status) ==> payload.size() > 0,
        payload is Article && status == 220 && payload.size() > 0 ==> payload.complete(status),
        payload is Body && status == 222 && payload.size() > 0 ==> payload.complete(status),
        payload is Article && status != 220 ==> !payload.complete(status),
        payload is Body && status != 222 ==> !payload.complete(status),
        payload is Head || payload is Stat || payload is Missing || payload is AvailabilityOnly
            ==> !payload.complete(status),
{
}

/// The payload of an article holds its number, its headers and its body.
pub(crate) proof fn lemma_article_payload(number: u64, message_id: Seq<u8>, headers: Seq<u8>, body: Seq<u8>)
    requires
        one_line(message_id),
        first_occurrence(headers + blank_line() + body, blank_line()) == Some(
            headers.len() as int,
        ),
    ensures
        payload_of(
            220,
            status_line_of(220, number, message_id) + headers + blank_line() + body + terminator(),
        ) == (PayloadModel::Article { number: Some(number), headers, body }),
{
    let line = status_line_of(220, number, message_id);
    let text = headers + blank_line() + body;
    let response = line + headers + blank_line() + body + terminator();
    lemma_status_line(220, number, message_id, text + terminator());
    assert(line + (text + terminator()) =~= response);
    lemma_multiline(text);
    assert(text.subrange(0, headers.len() as int) =~= headers);
    assert(text.subrange((headers.len() + 4) as int, text.len() as int) =~= body);
}

/// Status lines that differ in a code of three digits are of one length.
proof fn lemma_status_line_len(code: u16, other: u16, number: u64, message_id: Seq<u8>)
    requires
        200 <= code < 300,
        200 <= other < 300,
    ensures
        status_line_of(code, number, message_id).len() == status_line_of(
            other,
            number,
            message_id,
        ).len(),
{
    lemma_three_digits(code);
    lemma_three_digits(other);
}

/// What an article payload answers to each request.
proof fn lemma_article_served(number: u64, message_id: Seq<u8>, headers: Seq<u8>, body: Seq<u8>)
    requires
        status_line_of(220, number, message_id).len() <= MAX_STATUS_LINE_BYTES,
    ensures
        ({
            let payload = PayloadModel::Article { number: Some(number), headers, body };
            &&& served(RequestKind::Article, payload, message_id) == Some(
                (
                    220u16,
                    status_line_of(220, number, message_id) + headers + blank_line() + body
                        + terminator(),
                ),
            )
            &&& served(RequestKind::Head, payload, message_id) == Some(
                (221u16, status_line_of(221, number, message_id) + headers + terminator()),
            )
            &&& served(RequestKind::Body, payload, message_id) == Some(
                (222u16, status_line_of(222, number, message_id) + body + terminator()),
            )
            &&& served(RequestKind::Stat, payload, message_id) == Some(
                (223u16, status_line_of(223, number, message_id)),
            )
        }),
{
    let article = status_line_of(220, number, message_id);
    let head = status_line_of(221, number, message_id);
    let text = status_line_of(222, number, message_id);
    let stat = status_line_of(223, number, message_id);
    lemma_status_line_len(220, 221, number, message_id);
    lemma_status_line_len(220, 222, number, message_id);
    lemma_status_line_len(220, 223, number, message_id);
    assert(article + (headers + blank_line() + body + terminator()) =~= article + headers
        + blank_line() + body + terminator());
    assert(head + (headers + terminator()) =~= head + headers + terminator());
    assert(text + (body + terminator()) =~= text + body + terminator());
    assert(stat + Seq::<u8>::empty() =~= stat);
}

/// An article that is cached is served back byte for byte, and its headers and
/// its body are served alone as well.
pub proof fn law_article_is_served_as_stored(
    number: u64,
    message_id: Seq<u8>,
    headers: Seq<u8>,
    body: Seq<u8>,
)
    requires
        one_line(message_id),
        status_line_of(220, number, message_id).len() <= MAX_STATUS_LINE_BYTES,
        first_occurrence(headers + blank_line() + body, blank_line()) == Some(
            headers.len() as int,
        ),
    ensures
        ({
            let response = status_line_of(220, number, message_id) + headers + blank_line() + body
                + terminator();
            let payload = payload_of(220, response);
            &&& served(RequestKind::Article, payload, message_id) == Some((220u16, response))
            &&& served(RequestKind::Head, payload, message_id) == Some(
                (221u16, status_line_of(221, number, message_id) + headers + terminator()),
            )
            &&& served(RequestKind::Body, payload, message_id) == Some(
                (222u16, status_line_of(222, number, message_id) + body + terminator()),
            )
            &&& served(RequestKind::Stat, payload, message_id) == Some(
                (223u16, status_line_of(223, number, message_id)),
            )
        }),
{
    lemma_article_payload(number, message_id, headers, body);
    lemma_article_served(number, message_id, headers, body);
}

/// Headers that are cached are served back byte for byte, and no body with
/// them.
pub proof fn law_headers_are_served_as_stored(number: u64, message_id: Seq<u8>, headers: Seq<u8>)
    requires
        one_line(message_id),
        status_line_of(221, number, message_id).len() <= MAX_STATUS_LINE_BYTES,
    ensures
        ({
            let response = status_line_of(221, number, message_id) + headers + terminator();
            let payload = payload_of(221, response);
            &&& served(RequestKind::Head, payload, message_id) == Some((221u16, response))
            &&& served(RequestKind::Body, payload, message_id) is None
            &&& served(RequestKind::Article, payload, message_id) is None
        }),
{
    let line = status_line_of(221, number, message_id);
    lemma_status_line(221, number, message_id, headers + terminator());
    assert(line + (headers + terminator()) =~= line + headers + terminator());
    lemma_multiline(headers);
}

/// A body that is cached is served back byte for byte, and no headers with it.
pub proof fn law_body_is_served_as_stored(number: u64, message_id: Seq<u8>, body: Seq<u8>)
    requires
        one_line(message_id),
        status_line_of(222, number, message_id).len() <= MAX_STATUS_LINE_BYTES,
    ensures
        ({
            let response = status_line_of(222, number, message_id) + body + terminator();
            let payload = payload_of(222, response);
            &&& served(RequestKind::Body, payload, message_id) == Some((222u16, response))
            &&& served(RequestKind::Head, payload, message_id) is None
            &&& served(RequestKind::Article, payload, message_id) is None
        }),
{
    let line = status_line_of(222, number, message_id);
    lemma_status_line(222, number, message_id, body + terminator());
    assert(line + (body + terminator()) =~= line + body + terminator());
    lemma_multiline(body);
}

/// A response that is cut short is never taken for the text of an article.
pub proof fn law_cut_response_is_not_complete(status: u16, response: Seq<u8>)
    requires
        !has_suffix(response, terminator()),
    ensures
        !payload_of(status, response).complete(status),
{
    if let Some(i) = first_occurrence(response, crlf()) {
        lemma_first_occurrence_in(response, crlf());
        let rest = response.subrange(i + 2, response.len() as int);
        if rest.len() >= 5 {
            assert(rest.subrange(rest.len() - 5, rest.len() as int) =~= response.subrange(
                response.len() - 5,
                response.len() as int,
            ));
        }
        if rest == lone_terminator() {
            let n = response.len();
            assert(response.subrange(i, i + 2) == crlf());
            assert(response.subrange(n - 5, n as int) =~= response.subrange(i, i + 2) + rest);
            assert(terminator() =~= crlf() + lone_terminator());
        }
    }
}

/// A payload of any article answers `STAT` with the status line of 223 and the
/// number of the article, or with 0 where it is not known.
pub proof fn law_stat_is_served(payload: PayloadModel, message_id: Seq<u8>)
    requires
        payload is Article || payload is Head || payload is Body || payload is Stat,
        status_line_of(
            223,
            match payload.article_number() {
                Some(n) => n,
                None => 0,
            },
            message_id,
        ).len() <= MAX_STATUS_LINE_BYTES,
    ensures
        served(RequestKind::Stat, payload, message_id) == Some(
            (
                223u16,
                status_line_of(
                    223,
                    match payload.article_number() {
                        Some(n) => n,
                        None => 0,
                    },
                    message_id,
                ),
            ),
        ),
        payload is Stat ==> served(RequestKind::Article, payload, message_id) is None && served(
            RequestKind::Head,
            payload,
            message_id,
        ) is None && served(RequestKind::Body, payload, message_id) is None,
{
    let line = status_line_of(
        223,
        match payload.article_number() {
            Some(n) => n,
            None => 0,
        },
        message_id,
    );
    assert(line + Seq::<u8>::empty() =~= line);
}

/// An answer to `STAT` is kept with its number and served back.
pub proof fn law_stat_is_kept(number: u64, message_id: Seq<u8>)
    requires
        one_line(message_id),
        status_line_of(223, number, message_id).len() <= MAX_STATUS_LINE_BYTES,
    ensures
        ({
            let line = status_line_of(223, number, message_id);
            &&& payload_of(223, line) == (PayloadModel::Stat { number: Some(number) })
            &&& served(RequestKind::Stat, payload_of(223, line), message_id) == Some((223u16, line))
        }),
{
    let line = status_line_of(223, number, message_id);
    lemma_status_line(223, number, message_id, Seq::empty());
    assert(line + Seq::<u8>::empty() =~= line);
    law_stat_is_served(PayloadModel::Stat { number: Some(number) }, message_id);
}

/// A 430 is kept as a missing article, and a response of a status that carries no
/// part of an article as availability alone. Neither of them serves anything.
pub proof fn law_no_text_is_served_without_text(
    status: u16,
    response: Seq<u8>,
    kind: RequestKind,
    message_id: Seq<u8>,
)
    requires
        status < 220 || status > 223,
    ensures
        status == 430 ==> payload_of(status, response) == PayloadModel::Missing,
        status != 430 ==> payload_of(status, response) == PayloadModel::AvailabilityOnly,
        served(kind, payload_of(status, response), message_id) is None,
{
}

/// An article without a blank line in it is all body.
pub proof fn law_article_without_blank_line(number: u64, message_id: Seq<u8>, text: Seq<u8>)
    requires
        one_line(message_id),
        forall|i: int|
            0 <= i && i + 4 <= text.len() ==> !(#[trigger] text[i] == 0x0d && text[i + 1] == 0x0a
                && text[i + 2] == 0x0d && text[i + 3] == 0x0a),
    ensures
        payload_of(220, status_line_of(220, number, message_id) + text + terminator()) == (
        PayloadModel::Article { number: Some(number), headers: Seq::empty(), body: text }),
{
    let line = status_line_of(220, number, message_id);
    lemma_status_line(220, number, message_id, text + terminator());
    assert(line + (text + terminator()) =~= line + text + terminator());
    lemma_multiline(text);
    assert forall|i: int| !#[trigger] occurs_at(text, blank_line(), i) by {
        if occurs_at(text, blank_line(), i) {
            let w = text.subrange(i, i + 4);
            assert(w[0] == 0x0d && w[1] == 0x0a && w[2] == 0x0d && w[3] == 0x0a);
            assert(w[0] == text[i]);
        }
    }
    lemma_no_occurrence(text, blank_line());
}

/// A response whose lines are none, a lone dot right after the status line, has an
/// empty text.
pub proof fn law_empty_text(number: u64, message_id: Seq<u8>)
    requires
        one_line(message_id),
    ensures
        payload_of(
            222,
            status_line_of(222, number, message_id) + seq![0x2eu8, 0x0d, 0x0a],
        ) == (PayloadModel::Body { number: Some(number), body: Seq::empty() }),
        payload_of(
            221,
            status_line_of(221, number, message_id) + seq![0x2eu8, 0x0d, 0x0a],
        ) == (PayloadModel::Head { number: Some(number), headers: Seq::empty() }),
{
    lemma_status_line(222, number, message_id, lone_terminator());
    lemma_status_line(221, number, message_id, lone_terminator());
}

/// An answer whose status line would be longer than 1024 bytes is not served;
/// any other answer that the payload has is.
pub proof fn law_long_status_lines(kind: RequestKind, payload: PayloadModel, message_id: Seq<u8>)
    requires
        served_status(kind, payload) is Some,
    ensures
        served(kind, payload, message_id) is Some <==> status_line_of(
            served_status(kind, payload)->0,
            match payload.article_number() {
                Some(n) => n,
                None => 0,
            },
            message_id,
        ).len() <= 1024,
{
}

} // verus!
