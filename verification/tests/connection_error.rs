//! What connection errors say and how they are told apart.
use nntp_proxy::connection_error::{ConnectionError, IoFailure, IoKind};

#[test]
fn test_tcp_connect_error() {
    let err = ConnectionError::TcpConnect {
        host: "example.com".to_string(),
        port: 119,
        source: IoFailure::new(IoKind::ConnectionRefused, "refused"),
    };

    let msg = err.message();
    assert!(msg.contains("example.com"));
    assert!(msg.contains("119"));
    assert!(msg.contains("refused"));
}

#[test]
fn test_authentication_failed_error() {
    let err = ConnectionError::AuthenticationFailed {
        backend: "news.example.com".to_string(),
        response: "502 Authentication failed".to_string(),
    };

    let msg = err.message();
    assert!(msg.contains("news.example.com"));
    assert!(msg.contains("502"));
}

#[test]
fn test_pool_exhausted_error() {
    let err = ConnectionError::PoolExhausted {
        backend: "backend1".to_string(),
        max_size: 20,
    };

    let msg = err.message();
    assert!(msg.contains("backend1"));
    assert!(msg.contains("20"));
}

#[test]
fn test_from_io_error() {
    let io_err = IoFailure::new(IoKind::TimedOut, "timeout");
    let conn_err: ConnectionError = io_err.into();

    assert!(matches!(conn_err, ConnectionError::IoError(_)));
}

#[test]
fn test_error_source() {
    let io_err = IoFailure::new(IoKind::ConnectionReset, "reset");
    let err = ConnectionError::TcpConnect {
        host: "test.com".to_string(),
        port: 119,
        source: io_err,
    };

    assert!(err.source().is_some());
}

#[test]
fn test_invalid_greeting_error() {
    let err = ConnectionError::InvalidGreeting {
        backend: "news.server.com".to_string(),
        greeting: "500 Server error".to_string(),
    };

    let msg = err.message();
    assert!(msg.contains("Invalid greeting"));
    assert!(msg.contains("news.server.com"));
}

#[test]
fn test_stale_connection_error() {
    let err = ConnectionError::StaleConnection {
        backend: "backend2".to_string(),
        reason: "Connection closed by peer".to_string(),
    };

    let msg = err.message();
    assert!(msg.contains("Stale"));
    assert!(msg.contains("backend2"));
}

#[test]
fn test_is_client_disconnect() {
    let io_err = IoFailure::new(IoKind::BrokenPipe, "broken pipe");
    let err = ConnectionError::IoError(io_err);
    assert!(err.is_client_disconnect());

    let io_err = IoFailure::new(IoKind::ConnectionReset, "reset");
    let err = ConnectionError::IoError(io_err);
    assert!(!err.is_client_disconnect());
}

#[test]
fn test_is_authentication_error() {
    let err = ConnectionError::AuthenticationFailed {
        backend: "test".to_string(),
        response: "failed".to_string(),
    };
    assert!(err.is_authentication_error());

    let err = ConnectionError::IoError(IoFailure::other("test"));
    assert!(!err.is_authentication_error());
}

#[test]
fn test_is_network_error() {
    let err = ConnectionError::TcpConnect {
        host: "test.com".to_string(),
        port: 119,
        source: IoFailure::new(IoKind::ConnectionRefused, "refused"),
    };
    assert!(err.is_network_error());

    let err = ConnectionError::DnsResolution {
        address: "test.com".to_string(),
        source: IoFailure::new(IoKind::NotFound, "not found"),
    };
    assert!(err.is_network_error());

    let err = ConnectionError::AuthenticationFailed {
        backend: "test".to_string(),
        response: "failed".to_string(),
    };
    assert!(!err.is_network_error());
}

#[test]
fn every_error_has_its_words() {
    let reset = || IoFailure::new(IoKind::ConnectionReset, "reset by peer");
    let name = || "b1".to_string();
    let cases = vec![
        (
            ConnectionError::TcpConnect { host: name(), port: 563, source: reset() },
            "Failed to connect to b1:563: reset by peer",
        ),
        (
            ConnectionError::DnsResolution { address: name(), source: reset() },
            "Failed to resolve DNS for b1: reset by peer",
        ),
        (
            ConnectionError::SocketConfig { operation: "nodelay".to_string(), source: reset() },
            "Failed to configure socket (nodelay): reset by peer",
        ),
        (
            ConnectionError::AuthenticationFailed { backend: name(), response: "502 no".to_string() },
            "Authentication failed for backend 'b1': 502 no",
        ),
        (
            ConnectionError::InvalidGreeting { backend: name(), greeting: "500".to_string() },
            "Invalid greeting from backend 'b1': 500",
        ),
        (
            ConnectionError::PoolExhausted { backend: name(), max_size: 20 },
            "Connection pool exhausted for backend 'b1' (max size: 20)",
        ),
        (
            ConnectionError::StaleConnection { backend: name(), reason: "closed".to_string() },
            "Stale connection to backend 'b1': closed",
        ),
        (ConnectionError::IoError(reset()), "I/O error: reset by peer"),
        (
            ConnectionError::TlsHandshake { backend: name(), source: reset() },
            "TLS handshake failed for backend 'b1': reset by peer",
        ),
        (
            ConnectionError::CertificateVerification { backend: name(), reason: "expired".to_string() },
            "Certificate verification failed for backend 'b1': expired",
        ),
    ];
    for (error, words) in cases {
        assert_eq!(error.message(), words);
    }
}

#[test]
fn only_some_errors_have_a_failure_underneath() {
    let err = ConnectionError::SocketConfig {
        operation: "keepalive".to_string(),
        source: IoFailure::other("not permitted"),
    };
    assert_eq!(err.source(), Some("not permitted"));
    let err = ConnectionError::PoolExhausted { backend: "b1".to_string(), max_size: 1 };
    assert_eq!(err.source(), None);
}
