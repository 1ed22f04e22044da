//! A client that fetches articles: what it sends, how it reads the answer, and
//! when it has all of it.
use crate::bytes::{
    find, first_occurrence, is_ascii_space, lemma_first_occurrence, lemma_first_occurrence_occurs,
    lemma_no_occurrence, occurs_at, push_bytes,
};
use crate::protocol::{
    law_request_is_word_and_arguments, law_status_is_read, law_verbs, request_of,
    starts_with_status, status_of, terminator, terminator_bytes, unspaced, RequestKind, StatusCode,
};
use crate::text::{
    ascii_chars, concat3, decimal_text, lemma_ascii_bytes, lemma_encode_ascii_front,
    lemma_encode_concat, push_number, same_letters, string_of,
};
use crate::types::MessageId;
use vstd::prelude::*;
use vstd::string::*;
use vstd::utf8::*;

verus! {

/// Why a request gave no article.
#[derive(Clone, Copy, Debug, PartialEq, Eq, Structural)]
pub enum ClientError {
    /// The answer to `STAT` starts with no status.
    InvalidStat,
    /// The answer to `STAT` says neither that the article is there nor that it
    /// is not.
    UnexpectedStat(u16),
    /// The answer starts with no status.
    InvalidResponse,
    /// The server does not have the article.
    NotFound,
    /// The server refused the request.
    Server(u16),
    /// The connection closed within the answer.
    Truncated,
    /// The answer goes on behind its end.
    ExtraBytes,
}

impl ClientError {
    /// What the error says.
    pub open spec fn text(self) -> Seq<char> {
        match self {
            ClientError::InvalidStat => "Invalid STAT response"@,
            ClientError::UnexpectedStat(code) => "Unexpected STAT response: "@ + decimal_text(
                code as nat,
            ),
            ClientError::InvalidResponse => "Invalid response from server"@,
            ClientError::NotFound => "Article not found (430)"@,
            ClientError::Server(code) => "Server error: "@ + decimal_text(code as nat),
            ClientError::Truncated => "Backend closed connection before complete response"@,
            ClientError::ExtraBytes => "unexpected bytes after response"@,
        }
    }

    /// What the error says.
    pub fn message(&self) -> (r: String)
        ensures
            r@ == self.text(),
    {
        match self {
            ClientError::InvalidStat => string_of("Invalid STAT response"),
            ClientError::UnexpectedStat(code) => {
                let mut out = string_of("Unexpected STAT response: ");
                push_number(&mut out, *code as u64);
                out
            },
            ClientError::InvalidResponse => string_of("Invalid response from server"),
            ClientError::NotFound => string_of("Article not found (430)"),
            ClientError::Server(code) => {
                let mut out = string_of("Server error: ");
                push_number(&mut out, *code as u64);
                out
            },
            ClientError::Truncated => string_of(
                "Backend closed connection before complete response",
            ),
            ClientError::ExtraBytes => string_of("unexpected bytes after response"),
        }
    }
}

/// A request for one article: the line to send.
#[derive(Debug)]
pub struct ClientRequest {
    pub kind: RequestKind,
    pub line: String,
}

/// The line of a request for an article.
pub open spec fn fetch_line(kind: RequestKind, id: Seq<char>) -> Seq<char> {
    let word = match kind {
        RequestKind::Body => "BODY "@,
        RequestKind::Head => "HEAD "@,
        RequestKind::Article => "ARTICLE "@,
        _ => "STAT "@,
    };
    word + id + "\r\n"@
}

/// What an answer to `STAT` says.
pub open spec fn stat_verdict(response: Seq<u8>) -> Result<bool, ClientError> {
    match status_of(response) {
        None => Err(ClientError::InvalidStat),
        Some(status) => stat_answer(status),
    }
}

/// Makes requests and reads answers.
#[derive(Clone, Copy, Debug)]
pub struct NntpClient;

impl NntpClient {
    /// Asks for the body of an article.
    pub fn fetch_body(message_id: &MessageId) -> (r: ClientRequest)
        ensures
            r.kind == RequestKind::Body,
            r.line@ == fetch_line(RequestKind::Body, message_id@),
    {
        ClientRequest {
            kind: RequestKind::Body,
            line: concat3("BODY ", message_id.as_str(), "\r\n"),
        }
    }

    /// Asks for the headers of an article.
    pub fn fetch_head(message_id: &MessageId) -> (r: ClientRequest)
        ensures
            r.kind == RequestKind::Head,
            r.line@ == fetch_line(RequestKind::Head, message_id@),
    {
        ClientRequest {
            kind: RequestKind::Head,
            line: concat3("HEAD ", message_id.as_str(), "\r\n"),
        }
    }

    /// Asks for an article.
    pub fn fetch_article(message_id: &MessageId) -> (r: ClientRequest)
        ensures
            r.kind == RequestKind::Article,
            r.line@ == fetch_line(RequestKind::Article, message_id@),
    {
        ClientRequest {
            kind: RequestKind::Article,
            line: concat3("ARTICLE ", message_id.as_str(), "\r\n"),
        }
    }

    /// Asks whether the server has an article.
    pub fn stat(message_id: &MessageId) -> (r: ClientRequest)
        ensures
            r.kind == RequestKind::Stat,
            r.line@ == fetch_line(RequestKind::Stat, message_id@),
    {
        ClientRequest {
            kind: RequestKind::Stat,
            line: concat3("STAT ", message_id.as_str(), "\r\n"),
        }
    }

    /// Does the status of an answer to `STAT` say that the article is there?
    pub fn parse_stat_response(status: StatusCode) -> (r: Result<bool, ClientError>)
        ensures
            r == stat_answer(status),
    {
        if status.as_u16() == 223 {
            Ok(true)
        } else if status.as_u16() == 430 {
            Ok(false)
        } else {
            Err(ClientError::UnexpectedStat(status.as_u16()))
        }
    }

    /// Does an answer to `STAT` say that the article is there?
    pub fn stat_result(response: &[u8]) -> (r: Result<bool, ClientError>)
        ensures
            r == stat_verdict(response@),
    {
        match StatusCode::parse(response) {
            None => Err(ClientError::InvalidStat),
            Some(status) => NntpClient::parse_stat_response(status),
        }
    }

    /// Does this status come with an article?
    pub fn validate_response(status: StatusCode) -> (r: Result<(), ClientError>)
        ensures
            r == status_verdict(status),
    {
        if status.as_u16() == 430 {
            Err(ClientError::NotFound)
        } else if status.as_u16() >= 400 {
            Err(ClientError::Server(status.as_u16()))
        } else {
            Ok(())
        }
    }
}

/// What the status of an answer to `STAT` says.
pub open spec fn stat_answer(status: StatusCode) -> Result<bool, ClientError> {
    if status.code == 223 {
        Ok(true)
    } else if status.code == 430 {
        Ok(false)
    } else {
        Err(ClientError::UnexpectedStat(status.code))
    }
}

/// Whether an article comes with a status.
pub open spec fn status_verdict(status: StatusCode) -> Result<(), ClientError> {
    if status.code == 430 {
        Err(ClientError::NotFound)
    } else if status.code >= 400 {
        Err(ClientError::Server(status.code))
    } else {
        Ok(())
    }
}

/// How much of a multi-line answer has come.
#[derive(Clone, Copy, Debug, PartialEq, Eq, Structural)]
pub enum Framing {
    /// The end is still missing.
    Partial,
    /// All of it, and nothing more.
    Complete,
    /// All of it and more.
    Excess,
}

/// A multi-line answer ends with the first line that is a lone dot.
pub open spec fn framing_of(received: Seq<u8>) -> Framing {
    match first_occurrence(received, terminator()) {
        None => Framing::Partial,
        Some(i) => if i + terminator().len() == received.len() {
            Framing::Complete
        } else {
            Framing::Excess
        },
    }
}

/// An answer while it comes in.
#[derive(Debug)]
pub struct ArticleFetch {
    kind: RequestKind,
    received: Vec<u8>,
}

impl ArticleFetch {
    pub closed spec fn spec_kind(&self) -> RequestKind {
        self.kind
    }

    /// What has come so far.
    pub closed spec fn bytes(&self) -> Seq<u8> {
        self.received@
    }

    /// Waits for the answer to a request of this kind.
    pub fn new(kind: RequestKind) -> (r: Self)
        ensures
            r.spec_kind() == kind,
            r.bytes() == Seq::<u8>::empty(),
    {
        ArticleFetch { kind, received: Vec::new() }
    }

    /// More of the answer came. Tells how much of it there is now.
    pub fn receive(&mut self, chunk: &[u8]) -> (r: Framing)
        ensures
            final(self).spec_kind() == old(self).spec_kind(),
            final(self).bytes() == old(self).bytes() + chunk@,
            r == framing_of(final(self).bytes()),
    {
        push_bytes(&mut self.received, chunk);
        match find(self.received.as_slice(), terminator_bytes()) {
            None => Framing::Partial,
            Some(i) => if self.received.len() - i == 5 {
                Framing::Complete
            } else {
                Framing::Excess
            },
        }
    }

    /// The answer, when nothing more comes.
    pub fn finish(self) -> (r: Result<FramedArticle, ClientError>)
        ensures
            match framed(self.bytes()) {
                Ok((status, bytes)) => r is Ok && r->Ok_0.spec_kind() == self.spec_kind()
                    && r->Ok_0.spec_status() == status && r->Ok_0.bytes() == bytes,
                Err(e) => r is Err && r->Err_0 == e,
            },
    {
        let status = match StatusCode::parse(self.received.as_slice()) {
            None => {
                return Err(ClientError::InvalidResponse);
            },
            Some(status) => status,
        };
        match NntpClient::validate_response(status) {
            Err(e) => {
                return Err(e);
            },
            Ok(_) => {},
        }
        match find(self.received.as_slice(), terminator_bytes()) {
            None => Err(ClientError::Truncated),
            Some(i) => if self.received.len() - i == 5 {
                let mut bytes = self.received;
                bytes.truncate(i);
                Ok(FramedArticle { kind: self.kind, status, bytes })
            } else {
                Err(ClientError::ExtraBytes)
            },
        }
    }
}

/// The status and the bytes of an answer without its last line, or why there is
/// no article in it.
pub open spec fn framed(received: Seq<u8>) -> Result<(StatusCode, Seq<u8>), ClientError> {
    match status_of(received) {
        None => Err(ClientError::InvalidResponse),
        Some(status) => match status_verdict(status) {
            Err(e) => Err(e),
            Ok(_) => match framing_of(received) {
                Framing::Partial => Err(ClientError::Truncated),
                Framing::Excess => Err(ClientError::ExtraBytes),
                Framing::Complete => Ok(
                    (status, received.subrange(0, received.len() - terminator().len())),
                ),
            },
        },
    }
}

/// An answer with an article whose end is known. Its bytes are those of the
/// wire, status line included, without the line that ends it.
#[derive(Debug)]
pub struct FramedArticle {
    kind: RequestKind,
    status: StatusCode,
    bytes: Vec<u8>,
}

impl FramedArticle {
    pub closed spec fn spec_kind(&self) -> RequestKind {
        self.kind
    }

    pub closed spec fn spec_status(&self) -> StatusCode {
        self.status
    }

    pub closed spec fn bytes(&self) -> Seq<u8> {
        self.bytes@
    }

    /// The kind of the request.
    pub fn kind(&self) -> (r: RequestKind)
        ensures
            r == self.spec_kind(),
    {
        self.kind
    }

    /// The status of the answer.
    pub fn status(&self) -> (r: StatusCode)
        ensures
            r == self.spec_status(),
    {
        self.status
    }

    /// The bytes of the answer without the line that ends it.
    pub fn as_bytes(&self) -> (r: &[u8])
        ensures
            r@ == self.bytes(),
    {
        self.bytes.as_slice()
    }

    /// The bytes of the answer without the line that ends it.
    pub fn into_bytes(self) -> (r: Vec<u8>)
        ensures
            r@ == self.bytes(),
    {
        self.bytes
    }
}

/// Framing loses nothing: the framed bytes and the line that ends the answer
/// are what came over the wire.
pub proof fn law_framing_keeps_the_wire(received: Seq<u8>)
    requires
        framed(received) is Ok,
    ensures
        match framed(received) {
            Ok((_, bytes)) => bytes + terminator() == received,
            Err(_) => false,
        },
{
    lemma_first_occurrence_occurs(received, terminator());
    let i = first_occurrence(received, terminator())->0;
    assert(received.subrange(0, i) + terminator() =~= received);
}

/// What is sent is read as the request that it is meant to be, for the article
/// that it is meant for.
pub proof fn law_fetch_lines(kind: RequestKind, id: Seq<char>)
    requires
        kind == RequestKind::Body || kind == RequestKind::Head || kind == RequestKind::Article
            || kind == RequestKind::Stat,
        0 < encode_utf8(id).len() <= 500,
        !is_ascii_space(encode_utf8(id)[0]),
        !is_ascii_space(encode_utf8(id)[encode_utf8(id).len() - 1]),
    ensures
        request_of(encode_utf8(fetch_line(kind, id))) == Some((kind, encode_utf8(id))),
{
    reveal_strlit("BODY");
    reveal_strlit("HEAD");
    reveal_strlit("ARTICLE");
    reveal_strlit("STAT");
    reveal_strlit("BODY ");
    reveal_strlit("HEAD ");
    reveal_strlit("ARTICLE ");
    reveal_strlit("STAT ");
    let word = match kind {
        RequestKind::Body => "BODY"@,
        RequestKind::Head => "HEAD"@,
        RequestKind::Article => "ARTICLE"@,
        _ => "STAT"@,
    };
    assert("BODY"@ + seq![' '] =~= "BODY "@);
    assert("HEAD"@ + seq![' '] =~= "HEAD "@);
    assert("ARTICLE"@ + seq![' '] =~= "ARTICLE "@);
    assert("STAT"@ + seq![' '] =~= "STAT "@);
    assert(same_letters(word, word));
    law_verbs(word);
    lemma_fetch_bytes(word, id);
    law_request_is_word_and_arguments(encode_utf8(word), encode_utf8(id));
}

proof fn lemma_fetch_bytes(word: Seq<char>, id: Seq<char>)
    requires
        0 < word.len() <= 7,
        forall|i: int| 0 <= i < word.len() ==> 'A' <= #[trigger] word[i] <= 'Z',
    ensures
        encode_utf8(word + seq![' '] + id + "\r\n"@) == encode_utf8(word) + seq![0x20u8]
            + encode_utf8(id) + seq![0x0du8, 0x0a],
        unspaced(encode_utf8(word)),
        encode_utf8(word).len() == word.len(),
{
    assert forall|i: int| 0 <= i < word.len() implies '\0' <= #[trigger] word[i] <= '\u{7f}' by {
        assert('A' <= word[i] <= 'Z');
    }
    lemma_ascii_bytes(word);
    let w = encode_utf8(word);
    assert forall|i: int| 0 <= i < w.len() implies !is_ascii_space(#[trigger] w[i]) by {
        assert(w[i] as int == word[i] as int);
        assert('A' <= word[i] <= 'Z');
    }
    let front = w + seq![0x20u8];
    assert(ascii_chars(front) =~= word + seq![' ']);
    assert forall|i: int| 0 <= i < front.len() implies #[trigger] front[i] < 0x80 by {
        if i < w.len() {
            assert(w[i] as int == word[i] as int);
            assert('A' <= word[i] <= 'Z');
        }
    }
    reveal_strlit("\r\n");
    let end = seq![0x0du8, 0x0a];
    assert(ascii_chars(end) + Seq::<char>::empty() =~= "\r\n"@);
    lemma_encode_ascii_front(end, Seq::empty());
    assert(encode_utf8(Seq::<char>::empty()) =~= Seq::<u8>::empty());
    assert(encode_utf8("\r\n"@) =~= end);
    lemma_encode_concat(id, "\r\n"@);
    lemma_encode_ascii_front(front, id + "\r\n"@);
    assert(word + seq![' '] + id + "\r\n"@ =~= word + seq![' '] + (id + "\r\n"@));
    assert(front + (encode_utf8(id) + end) =~= w + seq![0x20u8] + encode_utf8(id) + end);
}

/// An article is there where `STAT` is answered with 223, and not there where it
/// is answered with 430. Any other status, and none, is an error that tells it.
pub proof fn law_stat_by_status(response: Seq<u8>, code: int)
    ensures
        starts_with_status(response, code) ==> stat_verdict(response) == (if code == 223 {
            Ok::<bool, ClientError>(true)
        } else if code == 430 {
            Ok::<bool, ClientError>(false)
        } else {
            Err::<bool, ClientError>(ClientError::UnexpectedStat(code as u16))
        }),
        response.len() < 3 ==> stat_verdict(response) == Err::<bool, ClientError>(
            ClientError::InvalidStat,
        ),
{
    if starts_with_status(response, code) {
        law_status_is_read(response, code);
    }
}

/// The five bytes of a line end and a line that is a lone dot stand at `at`.
pub open spec fn ends_at(s: Seq<u8>, at: int) -> bool {
    &&& 0 <= at
    &&& at + 5 <= s.len()
    &&& s[at] == 0x0d
    &&& s[at + 1] == 0x0a
    &&& s[at + 2] == 0x2e
    &&& s[at + 3] == 0x0d
    &&& s[at + 4] == 0x0a
}

proof fn lemma_ends_at(s: Seq<u8>)
    ensures
        forall|at: int| #[trigger] occurs_at(s, terminator(), at) == ends_at(s, at),
{
    assert forall|at: int| #[trigger] occurs_at(s, terminator(), at) == ends_at(s, at) by {
        if 0 <= at && at + 5 <= s.len() {
            let w = s.subrange(at, at + 5);
            if ends_at(s, at) {
                assert(w =~= terminator());
            }
            if w == terminator() {
                assert(w[0] == 0x0d && w[1] == 0x0a && w[2] == 0x2e && w[3] == 0x0d && w[4]
                    == 0x0a);
            }
        }
    }
}

/// An answer is complete where its first lone dot ends it, has more than it should
/// where something follows that, and is partial without one. A complete answer of
/// a status below 400 is handed over without the dot; 430 tells that there is no
/// such article, and any other status of refusal is told.
pub proof fn law_answers_are_framed(received: Seq<u8>, code: int, at: int)
    requires
        starts_with_status(received, code),
        forall|i: int| 0 <= i < at ==> !#[trigger] ends_at(received, i),
        ends_at(received, at) || at == received.len(),
    ensures
        framing_of(received) == (if at == received.len() {
            Framing::Partial
        } else if at + 5 == received.len() {
            Framing::Complete
        } else {
            Framing::Excess
        }),
        framed(received) == (if code == 430 {
            Err::<(StatusCode, Seq<u8>), ClientError>(ClientError::NotFound)
        } else if code >= 400 {
            Err::<(StatusCode, Seq<u8>), ClientError>(ClientError::Server(code as u16))
        } else if at == received.len() {
            Err::<(StatusCode, Seq<u8>), ClientError>(ClientError::Truncated)
        } else if at + 5 == received.len() {
            Ok::<(StatusCode, Seq<u8>), ClientError>(
                (StatusCode { code: code as u16 }, received.subrange(0, at)),
            )
        } else {
            Err::<(StatusCode, Seq<u8>), ClientError>(ClientError::ExtraBytes)
        }),
{
    law_status_is_read(received, code);
    lemma_ends_at(received);
    assert(terminator().len() == 5);
    if at == received.len() {
        assert forall|i: int| !#[trigger] occurs_at(received, terminator(), i) by {
            if occurs_at(received, terminator(), i) {
                assert(ends_at(received, i));
            }
        }
        lemma_no_occurrence(received, terminator());
    } else {
        assert(occurs_at(received, terminator(), at));
        assert forall|j: int| 0 <= j < at implies !#[trigger] occurs_at(
            received,
            terminator(),
            j,
        ) by {
            assert(!ends_at(received, j));
        }
        lemma_first_occurrence(received, terminator(), at);
    }
}

/// The words for a request that failed; of an unexpected status they give the
/// number.
pub proof fn law_words_for_failed_requests(e: ClientError)
    ensures
        e.text() == (match e {
            ClientError::InvalidStat => "Invalid STAT"@ + " response"@,
            ClientError::InvalidResponse => "Invalid response"@ + " from server"@,
            ClientError::NotFound => "Article not"@ + " found (430)"@,
            ClientError::Truncated => "Backend closed connection"@ + " before complete response"@,
            ClientError::ExtraBytes => "unexpected bytes"@ + " after response"@,
            ClientError::UnexpectedStat(code) => "Unexpected STAT"@ + " response: "@ + decimal_text(code as nat),
            ClientError::Server(code) => "Server"@ + " error: "@ + decimal_text(code as nat),
        }),
{
    reveal_strlit("Invalid STAT response");
    reveal_strlit("Invalid STAT");
    reveal_strlit(" response");
    reveal_strlit("Invalid response from server");
    reveal_strlit("Invalid response");
    reveal_strlit(" from server");
    reveal_strlit("Article not found (430)");
    reveal_strlit("Article not");
    reveal_strlit(" found (430)");
    reveal_strlit("Backend closed connection before complete response");
    reveal_strlit("Backend closed connection");
    reveal_strlit(" before complete response");
    reveal_strlit("unexpected bytes after response");
    reveal_strlit("unexpected bytes");
    reveal_strlit(" after response");
    reveal_strlit("Unexpected STAT response: ");
    reveal_strlit("Unexpected STAT");
    reveal_strlit(" response: ");
    reveal_strlit("Server error: ");
    reveal_strlit("Server");
    reveal_strlit(" error: ");
}

} // verus!
