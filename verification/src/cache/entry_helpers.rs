//! Checks on responses as they came from a backend.
use crate::bytes::{
    ends_with, find, first_occurrence, has_suffix, lemma_first_occurrence_occurs, occurs_at,
};
use crate::protocol::{crlf, crlf_bytes, terminator, terminator_bytes};
use vstd::prelude::*;

verus! {

/// Fewest bytes of a response that holds an article.
pub const MIN_ARTICLE_SIZE: usize = 30;

/// Bytes within which a status line must end.
pub const STATUS_LINE_WINDOW: usize = 256;

pub open spec fn is_digit(b: u8) -> bool {
    0x30 <= b <= 0x39
}

/// The start of a response in which its status line must end.
pub open spec fn status_window(buffer: Seq<u8>) -> Seq<u8> {
    if buffer.len() < STATUS_LINE_WINDOW {
        buffer
    } else {
        buffer.subrange(0, STATUS_LINE_WINDOW as int)
    }
}

/// A multiline response: a status of three digits, a status line that ends
/// within the first bytes, and the terminator.
pub open spec fn valid_response(buffer: Seq<u8>) -> bool {
    &&& buffer.len() >= 9
    &&& is_digit(buffer[0])
    &&& is_digit(buffer[1])
    &&& is_digit(buffer[2])
    &&& has_suffix(buffer, terminator())
    &&& first_occurrence(status_window(buffer), crlf()) is Some
}

/// Is this a multiline response?
pub fn is_valid_response(buffer: &[u8]) -> (r: bool)
    ensures
        r == valid_response(buffer@),
{
    if buffer.len() < 9 {
        return false;
    }
    let digits = 0x30 <= buffer[0] && buffer[0] <= 0x39 && 0x30 <= buffer[1] && buffer[1] <= 0x39
        && 0x30 <= buffer[2] && buffer[2] <= 0x39;
    if !digits {
        return false;
    }
    if !ends_with(buffer, terminator_bytes()) {
        return false;
    }
    let window: &[u8] = if buffer.len() < STATUS_LINE_WINDOW {
        buffer
    } else {
        &buffer[0..STATUS_LINE_WINDOW]
    };
    assert(window@ == status_window(buffer@));
    find(window, crlf_bytes()).is_some()
}

/// The response, with this status, holds an article or a body.
pub open spec fn complete_response(buffer: Seq<u8>, status_code: u16) -> bool {
    (status_code == 220 || status_code == 222) && buffer.len() >= MIN_ARTICLE_SIZE && has_suffix(
        buffer,
        terminator(),
    )
}

/// Does the response, with this status, hold an article or a body?
pub fn is_complete_article(buffer: &[u8], status_code: u16) -> (r: bool)
    ensures
        r == complete_response(buffer@, status_code),
{
    if status_code != 220 && status_code != 222 {
        return false;
    }
    buffer.len() >= MIN_ARTICLE_SIZE && ends_with(buffer, terminator_bytes())
}

/// The response ends with a line end and a line that is a lone dot.
pub open spec fn ends_with_dot(buffer: Seq<u8>) -> bool {
    let n = buffer.len() as int;
    &&& n >= 5
    &&& buffer[n - 5] == 0x0d
    &&& buffer[n - 4] == 0x0a
    &&& buffer[n - 3] == 0x2e
    &&& buffer[n - 2] == 0x0d
    &&& buffer[n - 1] == 0x0a
}

proof fn lemma_ends_with_dot(buffer: Seq<u8>)
    ensures
        has_suffix(buffer, terminator()) == ends_with_dot(buffer),
{
    let n = buffer.len() as int;
    if n >= 5 {
        let end = buffer.subrange(n - 5, n);
        if ends_with_dot(buffer) {
            assert(end =~= terminator());
        }
        if end == terminator() {
            assert(end[0] == 0x0d && end[1] == 0x0a && end[2] == 0x2e && end[3] == 0x0d && end[4]
                == 0x0a);
        }
    }
}

/// A line ends at `at`, within the first 256 bytes.
pub open spec fn line_ends_at(buffer: Seq<u8>, at: int) -> bool {
    0 <= at && at + 2 <= buffer.len() && at + 2 <= 256 && buffer[at] == 0x0d && buffer[at + 1]
        == 0x0a
}

/// A multiline response has a status of three digits, a line that ends early, and
/// a lone dot at its end; a response that lacks one of them is none. Text comes
/// with 220 and 222 alone, in at least 30 bytes.
pub proof fn law_multiline_responses(buffer: Seq<u8>, status_code: u16)
    ensures
        valid_response(buffer) == ({
            &&& buffer.len() >= 9
            &&& 0x30 <= buffer[0] <= 0x39
            &&& 0x30 <= buffer[1] <= 0x39
            &&& 0x30 <= buffer[2] <= 0x39
            &&& ends_with_dot(buffer)
            &&& exists|at: int| #[trigger] line_ends_at(buffer, at)
        }),
        complete_response(buffer, status_code) == ((status_code == 220 || status_code == 222)
            && buffer.len() >= 30 && ends_with_dot(buffer)),
{
    lemma_ends_with_dot(buffer);
    let window = status_window(buffer);
    assert(forall|i: int| 0 <= i < window.len() ==> #[trigger] window[i] == buffer[i]);
    if first_occurrence(window, crlf()) is Some {
        lemma_first_occurrence_occurs(window, crlf());
        let i = first_occurrence(window, crlf())->0;
        let w = window.subrange(i, i + 2);
        assert(w[0] == crlf()[0] && w[1] == crlf()[1]);
        assert(line_ends_at(buffer, i));
    } else {
        assert forall|at: int| !#[trigger] line_ends_at(buffer, at) by {
            if line_ends_at(buffer, at) {
                assert(window.subrange(at, at + 2) =~= crlf());
                assert(occurs_at(window, crlf(), at));
                lemma_found(window, at);
            }
        }
    }
}

proof fn lemma_found(window: Seq<u8>, at: int)
    requires
        occurs_at(window, crlf(), at),
    ensures
        first_occurrence(window, crlf()) is Some,
{
    reveal(first_occurrence);
}

} // verus!
