//! Requests for articles and the answers to them.
use nntp_proxy::client::{ArticleFetch, ClientError, FramedArticle, Framing, NntpClient};
use nntp_proxy::protocol::{RequestKind, StatusCode};
use nntp_proxy::types::MessageId;

fn id(text: &str) -> MessageId {
    MessageId::new(text.to_string()).unwrap()
}

/// Reads an answer that comes in chunks of this size.
fn capture(kind: RequestKind, response: &[u8], chunk: usize) -> Result<FramedArticle, ClientError> {
    let mut fetch = ArticleFetch::new(kind);
    for part in response.chunks(chunk) {
        if fetch.receive(part) != Framing::Partial {
            break;
        }
    }
    fetch.finish()
}

#[test]
fn test_parse_stat_response_success() {
    // Article exists (223)
    assert!(NntpClient::parse_stat_response(StatusCode::parse(b"223").unwrap()).unwrap());

    // Article not found (430)
    assert!(!NntpClient::parse_stat_response(StatusCode::parse(b"430").unwrap()).unwrap());
}

#[test]
fn test_parse_stat_response_errors() {
    // Unexpected codes
    assert!(NntpClient::parse_stat_response(StatusCode::parse(b"500").unwrap()).is_err());
    assert!(NntpClient::parse_stat_response(StatusCode::parse(b"200").unwrap()).is_err());
    assert!(NntpClient::parse_stat_response(StatusCode::parse(b"400").unwrap()).is_err());
}

#[test]
fn test_multiline_response_capture_single_read() {
    let article = b"220 body follows\r\nHello world\r\n.\r\n";
    let framed = capture(RequestKind::Article, article, 4096).unwrap();
    assert_eq!([framed.as_bytes(), b"\r\n.\r\n"].concat(), article);
}

#[test]
fn test_multiline_response_capture_multi_read_spanning_body_end() {
    let article = b"220 article\r\nLine one\r\nLine two\r\n.\r\n";
    let framed = capture(RequestKind::Article, article, 8).unwrap();
    assert_eq!([framed.as_bytes(), b"\r\n.\r\n"].concat(), article);
}

#[test]
fn test_multiline_response_capture_errors_on_truncated_response() {
    let err = capture(RequestKind::Article, b"220 body follows\r\npartial article", 8).unwrap_err();
    assert_eq!(err, ClientError::Truncated);
    assert!(err.message().contains("Backend closed connection before complete"));
}

#[test]
fn test_multiline_response_capture_errors_on_extra_response_bytes() {
    let article = b"220 body follows\r\nHello world\r\n.\r\n";
    let extra_response = [article.as_slice(), b"430 No such article\r\n"].concat();
    let err = capture(RequestKind::Article, &extra_response, 4096).unwrap_err();
    assert_eq!(err, ClientError::ExtraBytes);
    assert!(err.message().contains("unexpected"));
}

#[test]
fn fetch_head_reads_multiline_response() {
    let response = b"221 0 <test@example.com>\r\nSubject: test\r\nFrom: tester\r\n\r\n.\r\n";
    let request = NntpClient::fetch_head(&id("<test@example.com>"));
    assert_eq!(request.line, "HEAD <test@example.com>\r\n");
    let framed = capture(request.kind, response, 4096).unwrap();
    assert_eq!(framed.as_bytes(), &response[..response.len() - 5]);
}

#[test]
fn fetch_body_reads_multiline_response() {
    let response = b"222 0 <test@example.com>\r\nhello world\r\n.\r\n";
    let request = NntpClient::fetch_body(&id("<test@example.com>"));
    assert_eq!(request.line, "BODY <test@example.com>\r\n");
    let framed = capture(request.kind, response, 4096).unwrap();
    assert_eq!(framed.as_bytes(), &response[..response.len() - 5]);
    assert_eq!(framed.kind(), RequestKind::Body);
    assert_eq!(framed.status(), StatusCode::new(222));
}

#[test]
fn fetch_article_keeps_kind_and_status() {
    let response = b"220 42 <article@example.com> article follows\r\nSubject: test\r\n\r\ntext\r\n.\r\n";
    let request = NntpClient::fetch_article(&id("<article@example.com>"));
    assert_eq!(request.line, "ARTICLE <article@example.com>\r\n");
    let framed = capture(request.kind, response, 3).unwrap();
    assert_eq!(framed.kind(), RequestKind::Article);
    assert_eq!(framed.status(), StatusCode::new(220));
    assert_eq!(framed.into_bytes(), response[..response.len() - 5].to_vec());
}

#[test]
fn stat_consumes_a_complete_single_line_response() {
    let request = NntpClient::stat(&id("<stat@example.com>"));
    assert_eq!(request.line, "STAT <stat@example.com>\r\n");
    assert_eq!(request.kind, RequestKind::Stat);
    assert!(NntpClient::stat_result(b"223 42 <stat@example.com> article exists\r\n").unwrap());
}

#[test]
fn fetch_body_reads_multiline_response_above_retention_limit() {
    let mut response = Vec::with_capacity((4 * 1024 * 1024) + 64);
    response.extend_from_slice(b"222 0 <large@example.com>\r\n");
    response.resize(response.len() + 4 * 1024 * 1024, b'x');
    response.extend_from_slice(b"\r\n.\r\n");
    let framed = capture(RequestKind::Body, &response, response.len()).unwrap();
    assert_eq!(framed.as_bytes(), &response[..response.len() - 5]);
}

#[test]
fn dot_stuffed_lines_stay_as_they_came() {
    let response = b"222 0 <dotted@example.com>\r\n..wire-dot\r\n.\r\n";
    let framed = capture(RequestKind::Body, response, 1).unwrap();
    assert_eq!(framed.as_bytes(), &response[..response.len() - 5]);
}

#[test]
fn refusals_are_told_apart() {
    let missing = capture(RequestKind::Body, b"430 No such article\r\n", 64).unwrap_err();
    assert_eq!(missing, ClientError::NotFound);
    assert_eq!(missing.message(), "Article not found (430)");

    let refused = capture(RequestKind::Body, b"502 Permission denied\r\n", 64).unwrap_err();
    assert_eq!(refused, ClientError::Server(502));
    assert_eq!(refused.message(), "Server error: 502");

    let noise = capture(RequestKind::Body, b"hello\r\n", 64).unwrap_err();
    assert_eq!(noise, ClientError::InvalidResponse);
    assert_eq!(noise.message(), "Invalid response from server");

    let stat = NntpClient::stat_result(b"hello\r\n").unwrap_err();
    assert_eq!(stat, ClientError::InvalidStat);
    assert_eq!(stat.message(), "Invalid STAT response");

    let stat = NntpClient::stat_result(b"500 what\r\n").unwrap_err();
    assert_eq!(stat, ClientError::UnexpectedStat(500));
    assert_eq!(stat.message(), "Unexpected STAT response: 500");
}
