//! What goes wrong with a connection, and how it is told.
use crate::text::{decimal_text, push_number};
use vstd::prelude::*;
use vstd::string::*;

verus! {

/// The kinds of input and output failure that are told apart.
#[derive(Clone, Copy, Debug, PartialEq, Eq, Structural)]
pub enum IoKind {
    /// The other side refused the connection.
    ConnectionRefused,
    /// The other side dropped the connection.
    ConnectionReset,
    /// The other side no longer reads.
    BrokenPipe,
    /// No answer came in time.
    TimedOut,
    /// There is nothing of that name.
    NotFound,
    /// Any other kind.
    Other,
}

/// An input or output failure: its kind, and what the system says of it.
#[derive(Debug)]
pub struct IoFailure {
    pub kind: IoKind,
    pub text: String,
}

impl IoFailure {
    /// A failure of this kind with this text.
    pub fn new(kind: IoKind, text: &str) -> (r: Self)
        ensures
            r.kind == kind,
            r.text@ == text@,
    {
        IoFailure { kind, text: text.to_owned() }
    }

    /// A failure of no kind of its own.
    pub fn other(text: &str) -> (r: Self)
        ensures
            r.kind == IoKind::Other,
            r.text@ == text@,
    {
        IoFailure { kind: IoKind::Other, text: text.to_owned() }
    }
}

/// Errors of connection management.
#[derive(Debug)]
#[non_exhaustive]
pub enum ConnectionError {
    TcpConnect { host: String, port: u16, source: IoFailure },
    DnsResolution { address: String, source: IoFailure },
    SocketConfig { operation: String, source: IoFailure },
    AuthenticationFailed { backend: String, response: String },
    InvalidGreeting { backend: String, greeting: String },
    PoolExhausted { backend: String, max_size: usize },
    StaleConnection { backend: String, reason: String },
    IoError(IoFailure),
    /// What the TLS library says is the reason.
    TlsHandshake { backend: String, source: IoFailure },
    CertificateVerification { backend: String, reason: String },
}

impl ConnectionError {
    /// What the error says.
    pub open spec fn text(self) -> Seq<char> {
        match self {
            ConnectionError::TcpConnect { host, port, source } => "Failed to connect to "@ + host@
                + ":"@ + decimal_text(port as nat) + ": "@ + source.text@,
            ConnectionError::DnsResolution { address, source } => "Failed to resolve DNS for "@
                + address@ + ": "@ + source.text@,
            ConnectionError::SocketConfig { operation, source } => "Failed to configure socket ("@
                + operation@ + "): "@ + source.text@,
            ConnectionError::AuthenticationFailed { backend, response } =>
                "Authentication failed for backend '"@ + backend@ + "': "@ + response@,
            ConnectionError::InvalidGreeting { backend, greeting } =>
                "Invalid greeting from backend '"@ + backend@ + "': "@ + greeting@,
            ConnectionError::PoolExhausted { backend, max_size } =>
                "Connection pool exhausted for backend '"@ + backend@ + "' (max size: "@
                + decimal_text(max_size as nat) + ")"@,
            ConnectionError::StaleConnection { backend, reason } =>
                "Stale connection to backend '"@ + backend@ + "': "@ + reason@,
            ConnectionError::IoError(e) => "I/O error: "@ + e.text@,
            ConnectionError::TlsHandshake { backend, source } =>
                "TLS handshake failed for backend '"@ + backend@ + "': "@ + source.text@,
            ConnectionError::CertificateVerification { backend, reason } =>
                "Certificate verification failed for backend '"@ + backend@ + "': "@ + reason@,
        }
    }

    /// What the error says.
    pub fn message(&self) -> (r: String)
        ensures
            r@ == self.text(),
    {
        let mut out = String::new();
        assert(out@ =~= seq![]);
        match self {
            ConnectionError::TcpConnect { host, port, source } => {
                append4(&mut out, "Failed to connect to ", host.as_str(), ":", "");
                push_number(&mut out, *port as u64);
                append4(&mut out, ": ", source.text.as_str(), "", "");
            },
            ConnectionError::DnsResolution { address, source } => {
                append4(&mut out, "Failed to resolve DNS for ", address.as_str(), ": ", source.text.as_str());
            },
            ConnectionError::SocketConfig { operation, source } => {
                append4(&mut out, "Failed to configure socket (", operation.as_str(), "): ", source.text.as_str());
            },
            ConnectionError::AuthenticationFailed { backend, response } => {
                append4(&mut out, "Authentication failed for backend '", backend.as_str(), "': ", response.as_str());
            },
            ConnectionError::InvalidGreeting { backend, greeting } => {
                append4(&mut out, "Invalid greeting from backend '", backend.as_str(), "': ", greeting.as_str());
            },
            ConnectionError::PoolExhausted { backend, max_size } => {
                append4(&mut out, "Connection pool exhausted for backend '", backend.as_str(), "' (max size: ", "");
                push_number(&mut out, *max_size as u64);
                append4(&mut out, ")", "", "", "");
            },
            ConnectionError::StaleConnection { backend, reason } => {
                append4(&mut out, "Stale connection to backend '", backend.as_str(), "': ", reason.as_str());
            },
            ConnectionError::IoError(e) => {
                append4(&mut out, "I/O error: ", e.text.as_str(), "", "");
            },
            ConnectionError::TlsHandshake { backend, source } => {
                append4(&mut out, "TLS handshake failed for backend '", backend.as_str(), "': ", source.text.as_str());
            },
            ConnectionError::CertificateVerification { backend, reason } => {
                append4(&mut out, "Certificate verification failed for backend '", backend.as_str(), "': ", reason.as_str());
            },
        }
        proof {
            reveal_strlit("");
            assert(out@ =~= self.text());
        }
        out
    }

    /// What the failure underneath says, of an error that has one.
    pub open spec fn source_text(self) -> Option<Seq<char>> {
        match self {
            ConnectionError::TcpConnect { source, .. } => Some(source.text@),
            ConnectionError::DnsResolution { source, .. } => Some(source.text@),
            ConnectionError::SocketConfig { source, .. } => Some(source.text@),
            ConnectionError::IoError(e) => Some(e.text@),
            ConnectionError::TlsHandshake { source, .. } => Some(source.text@),
            _ => None,
        }
    }

    /// What the failure underneath says, of an error that has one.
    pub fn source(&self) -> (r: Option<&str>)
        ensures
            match r {
                Some(s) => self.source_text() == Some(s@),
                None => self.source_text() is None,
            },
    {
        match self {
            ConnectionError::TcpConnect { source, .. } => Some(source.text.as_str()),
            ConnectionError::DnsResolution { source, .. } => Some(source.text.as_str()),
            ConnectionError::SocketConfig { source, .. } => Some(source.text.as_str()),
            ConnectionError::IoError(e) => Some(e.text.as_str()),
            ConnectionError::TlsHandshake { source, .. } => Some(source.text.as_str()),
            _ => None,
        }
    }

    /// Is this a client that went away?
    pub fn is_client_disconnect(&self) -> (r: bool)
        ensures
            r == (self matches ConnectionError::IoError(e) && e.kind == IoKind::BrokenPipe),
    {
        match self {
            ConnectionError::IoError(e) => e.kind == IoKind::BrokenPipe,
            _ => false,
        }
    }

    /// Is this a refused login?
    pub fn is_authentication_error(&self) -> (r: bool)
        ensures
            r == (self is AuthenticationFailed),
    {
        matches!(self, ConnectionError::AuthenticationFailed { .. })
    }

    /// Is this a backend that cannot be reached?
    pub fn is_network_error(&self) -> (r: bool)
        ensures
            r == (self is TcpConnect || self is DnsResolution),
    {
        match self {
            ConnectionError::TcpConnect { .. } => true,
            ConnectionError::DnsResolution { .. } => true,
            _ => false,
        }
    }
}

fn append4(out: &mut String, a: &str, b: &str, c: &str, d: &str)
    ensures
        final(out)@ == old(out)@ + a@ + b@ + c@ + d@,
{
    out.append(a);
    out.append(b);
    out.append(c);
    out.append(d);
}

impl From<IoFailure> for ConnectionError {
    fn from(e: IoFailure) -> (r: Self) {
        ConnectionError::IoError(e)
    }
}

impl vstd::std_specs::convert::FromSpecImpl<IoFailure> for ConnectionError {
    open spec fn obeys_from_spec() -> bool {
        true
    }

    open spec fn from_spec(e: IoFailure) -> Self {
        ConnectionError::IoError(e)
    }
}

/// The message of an error ends with what the failure underneath says, and that
/// of an error about a backend names the backend between quotes.
pub proof fn law_messages_tell_the_cause(e: ConnectionError)
    ensures
        e.source_text() is Some ==> e.source_text()->0.is_suffix_of(e.text()),
        e.source_text() is Some <==> {
            ||| e is TcpConnect
            ||| e is DnsResolution
            ||| e is SocketConfig
            ||| e is IoError
            ||| e is TlsHandshake
        },
        match e {
            ConnectionError::AuthenticationFailed { backend, response } => (seq!['\''] + backend@
                + seq!['\'', ':', ' '] + response@).is_suffix_of(e.text()),
            ConnectionError::InvalidGreeting { backend, greeting } => (seq!['\''] + backend@
                + seq!['\'', ':', ' '] + greeting@).is_suffix_of(e.text()),
            ConnectionError::StaleConnection { backend, reason } => (seq!['\''] + backend@
                + seq!['\'', ':', ' '] + reason@).is_suffix_of(e.text()),
            ConnectionError::CertificateVerification { backend, reason } => (seq!['\''] + backend@
                + seq!['\'', ':', ' '] + reason@).is_suffix_of(e.text()),
            ConnectionError::TlsHandshake { backend, source } => (seq!['\''] + backend@
                + seq!['\'', ':', ' '] + source.text@).is_suffix_of(e.text()),
            ConnectionError::TcpConnect { host, port, source } => (host@ + seq![':'] + decimal_text(
                port as nat,
            ) + seq![':', ' '] + source.text@).is_suffix_of(e.text()),
            _ => true,
        },
{
    reveal_strlit(":");
    reveal_strlit(": ");
    reveal_strlit("): ");
    reveal_strlit("': ");
    reveal_strlit("Failed to connect to ");
    reveal_strlit("Authentication failed for backend '");
    reveal_strlit("Invalid greeting from backend '");
    reveal_strlit("Stale connection to backend '");
    reveal_strlit("Certificate verification failed for backend '");
    reveal_strlit("TLS handshake failed for backend '");
    match e {
        ConnectionError::AuthenticationFailed { backend, response } => {
            let tail = seq!['\''] + backend@ + seq!['\'', ':', ' '] + response@;
            assert(e.text().skip(e.text().len() - tail.len()) =~= tail);
        },
        ConnectionError::InvalidGreeting { backend, greeting } => {
            let tail = seq!['\''] + backend@ + seq!['\'', ':', ' '] + greeting@;
            assert(e.text().skip(e.text().len() - tail.len()) =~= tail);
        },
        ConnectionError::StaleConnection { backend, reason } => {
            let tail = seq!['\''] + backend@ + seq!['\'', ':', ' '] + reason@;
            assert(e.text().skip(e.text().len() - tail.len()) =~= tail);
        },
        ConnectionError::CertificateVerification { backend, reason } => {
            let tail = seq!['\''] + backend@ + seq!['\'', ':', ' '] + reason@;
            assert(e.text().skip(e.text().len() - tail.len()) =~= tail);
        },
        ConnectionError::TlsHandshake { backend, source } => {
            let tail = seq!['\''] + backend@ + seq!['\'', ':', ' '] + source.text@;
            assert(e.text().skip(e.text().len() - tail.len()) =~= tail);
        },
        ConnectionError::TcpConnect { host, port, source } => {
            let tail = host@ + seq![':'] + decimal_text(port as nat) + seq![':', ' ']
                + source.text@;
            assert(e.text().skip(e.text().len() - tail.len()) =~= tail);
        },
        _ => {},
    }
    if e.source_text() is Some {
        let tail = e.source_text()->0;
        assert(e.text().skip(e.text().len() - tail.len()) =~= tail);
    }
}

} // verus!
