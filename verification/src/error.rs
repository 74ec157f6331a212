//! What can go wrong, by kind.
//!
//! A response that a node sent in full is never an error here, whatever its
//! status: the caller reads the status and decides.

use vstd::prelude::*;
use vstd::string::*;
use crate::cert::{PemError, RejectReason};
use crate::headers::{lowercase, lowered};
use crate::pool::{address_of, decimal, push_decimal, Node, NodeView};
use crate::text::{ascii, bytes_of, find, find_from, push_all};

verus! {

/// Why a configuration was refused.  Raised while a transport is built,
/// never while a request is sent.
#[derive(Clone, Copy, Debug, PartialEq, Eq, Structural)]
pub enum ConfigurationError {
    /// The connection pool holds no node.
    EmptyPool,
    /// A node address is not of the form `scheme://host[:port][/]`.
    MalformedUrl,
    /// The attempt limit is zero, so that no request could ever be sent.
    ZeroAttempts,
    /// The request timeout is zero, so that every request would expire.
    ZeroTimeout,
    /// A default header has an empty name, a name that is no token, or a
    /// value with a control character in it.
    InvalidHeader,
}

/// Why a connection to a node could not be made or did not last.
#[derive(Clone, Copy, Debug, PartialEq, Eq, Structural)]
pub enum ConnectionFailure {
    Refused,
    Reset,
    Dns,
}

/// Why an attempt ended without a response.
#[derive(Clone, Copy, Debug, PartialEq, Eq, Structural)]
pub enum Failure {
    /// The node could not be reached.
    Connection(ConnectionFailure),
    /// The TLS handshake turned the node's certificate away.
    Certificate(RejectReason),
    /// The deadline passed.
    Timeout,
}

/// Whether `text` holds `words`, whatever the case of its letters.  `words`
/// are in lower case.
pub open spec fn mentions(text: Seq<u8>, words: Seq<char>) -> bool {
    find_from(lowered(text), ascii(words), 0) is Some
}

/// The kind of failure that an exchange ended with, told from what its
/// error reports: whether the deadline passed, whether the connection was
/// reset, and the text of the error with its causes.  A passed deadline
/// comes first; then a text that speaks of a certificate, which is taken
/// for a mismatch if it speaks of the host name too; then one that speaks
/// of a DNS error; then a reset.  Anything else counts as a refusal.
pub open spec fn failure_of(timed_out: bool, reset: bool, text: Seq<u8>) -> Failure {
    if timed_out {
        Failure::Timeout
    } else if mentions(text, "certificate"@) {
        if mentions(text, "hostname"@) || mentions(text, "host name"@) {
            Failure::Certificate(RejectReason::HostnameMismatch)
        } else {
            Failure::Certificate(RejectReason::UntrustedIssuer)
        }
    } else if mentions(text, "dns error"@) {
        Failure::Connection(ConnectionFailure::Dns)
    } else if reset {
        Failure::Connection(ConnectionFailure::Reset)
    } else {
        Failure::Connection(ConnectionFailure::Refused)
    }
}

/// Whether `text`, already in lower case, holds `words`.
fn holds(text: &[u8], words: &str) -> (r: bool)
    requires
        is_ascii(words),
    ensures
        r == (find_from(text@, ascii(words@), 0) is Some),
{
    find(text, bytes_of(words).as_slice(), 0).is_some()
}

/// The kind of failure that an exchange ended with.
pub fn classify(timed_out: bool, reset: bool, text: &[u8]) -> (r: Failure)
    ensures
        r == failure_of(timed_out, reset, text@),
{
    proof {
        reveal_strlit("certificate");
        reveal_strlit("hostname");
        reveal_strlit("host name");
        reveal_strlit("dns error");
    }
    if timed_out {
        return Failure::Timeout;
    }
    let lower = lowercase(text);
    if holds(lower.as_slice(), "certificate") {
        if holds(lower.as_slice(), "hostname") || holds(lower.as_slice(), "host name") {
            Failure::Certificate(RejectReason::HostnameMismatch)
        } else {
            Failure::Certificate(RejectReason::UntrustedIssuer)
        }
    } else if holds(lower.as_slice(), "dns error") {
        Failure::Connection(ConnectionFailure::Dns)
    } else if reset {
        Failure::Connection(ConnectionFailure::Reset)
    } else {
        Failure::Connection(ConnectionFailure::Refused)
    }
}

/// What is wrong with a certificate.
#[derive(Clone, Copy, Debug, PartialEq, Eq, Structural)]
pub enum CertificateError {
    /// PEM text could not be read.
    Malformed(PemError),
    /// A peer's certificate did not pass validation.
    Rejected(RejectReason),
}

/// The kinds of error.
#[derive(Clone, Copy, Debug, PartialEq, Eq, Structural)]
pub enum ErrorKind {
    Configuration,
    Certificate,
    Connection,
    Timeout,
}

/// An error of the transport.
#[derive(Debug)]
#[allow(inconsistent_fields)]
pub enum TransportError {
    /// The configuration is invalid or incomplete.
    Configuration(ConfigurationError),
    /// A certificate could not be read, or the certificate of `node` was
    /// turned away during the handshake.
    Certificate { cause: CertificateError, node: Option<Node> },
    /// No node could be reached.  `cause` and `node` are those of the last
    /// attempt, `attempts` the number of attempts made.
    Connection { cause: ConnectionFailure, node: Node, attempts: u32 },
    /// `node` did not answer within `timeout_ms` milliseconds.
    Timeout { node: Node, timeout_ms: u64 },
}

/// An error, as plain values.
#[allow(inconsistent_fields)]
pub enum ErrorView {
    Configuration(ConfigurationError),
    Certificate { cause: CertificateError, node: Option<NodeView> },
    Connection { cause: ConnectionFailure, node: NodeView, attempts: u32 },
    Timeout { node: NodeView, timeout_ms: u64 },
}

impl View for TransportError {
    type V = ErrorView;

    open spec fn view(&self) -> ErrorView {
        match self {
            TransportError::Configuration(cause) => ErrorView::Configuration(*cause),
            TransportError::Certificate { cause, node } => ErrorView::Certificate {
                cause: *cause,
                node: match node {
                    Some(n) => Some(n@),
                    None => None,
                },
            },
            TransportError::Connection { cause, node, attempts } => ErrorView::Connection {
                cause: *cause,
                node: node@,
                attempts: *attempts,
            },
            TransportError::Timeout { node, timeout_ms } => ErrorView::Timeout {
                node: node@,
                timeout_ms: *timeout_ms,
            },
        }
    }
}

/// The kind of an error.
pub open spec fn kind_of(e: ErrorView) -> ErrorKind {
    match e {
        ErrorView::Configuration(_) => ErrorKind::Configuration,
        ErrorView::Certificate { .. } => ErrorKind::Certificate,
        ErrorView::Connection { .. } => ErrorKind::Connection,
        ErrorView::Timeout { .. } => ErrorKind::Timeout,
    }
}

/// The words with which the message of every error of a kind begins.
pub open spec fn kind_text(kind: ErrorKind) -> Seq<u8> {
    match kind {
        ErrorKind::Configuration => ascii("configuration error: "@),
        ErrorKind::Certificate => ascii("certificate error: "@),
        ErrorKind::Connection => ascii("connection error: "@),
        ErrorKind::Timeout => ascii("timeout error: "@),
    }
}

/// What a configuration error says.
pub open spec fn configuration_text(cause: ConfigurationError) -> Seq<u8> {
    match cause {
        ConfigurationError::EmptyPool => ascii("the connection pool is empty"@),
        ConfigurationError::MalformedUrl => ascii("malformed node address"@),
        ConfigurationError::ZeroAttempts => ascii("the attempt limit is zero"@),
        ConfigurationError::ZeroTimeout => ascii("the timeout is zero"@),
        ConfigurationError::InvalidHeader => ascii("invalid default header"@),
    }
}

/// What a certificate error says.
pub open spec fn certificate_text(cause: CertificateError) -> Seq<u8> {
    match cause {
        CertificateError::Malformed(PemError::NoCertificate) => ascii(
            "no certificate in the PEM text"@,
        ),
        CertificateError::Malformed(PemError::UnterminatedBlock) => ascii(
            "unterminated certificate block"@,
        ),
        CertificateError::Malformed(PemError::InvalidEncoding) => ascii(
            "certificate block is not Base64"@,
        ),
        CertificateError::Rejected(RejectReason::UntrustedIssuer) => ascii(
            "the certificate is not trusted"@,
        ),
        CertificateError::Rejected(RejectReason::HostnameMismatch) => ascii(
            "the certificate does not name the host"@,
        ),
    }
}

/// What a connection failure says.
pub open spec fn connection_text(cause: ConnectionFailure) -> Seq<u8> {
    match cause {
        ConnectionFailure::Refused => ascii("connection refused"@),
        ConnectionFailure::Reset => ascii("connection reset"@),
        ConnectionFailure::Dns => ascii("host not found"@),
    }
}

/// The message of an error: the words of its kind, then its cause, then
/// the node and the attempts or the deadline where there are any.
pub open spec fn message_of(e: ErrorView) -> Seq<u8> {
    kind_text(kind_of(e)) + match e {
        ErrorView::Configuration(cause) => configuration_text(cause),
        ErrorView::Certificate { cause, node } => certificate_text(cause) + match node {
            Some(n) => ascii(" at "@) + address_of(n),
            None => Seq::empty(),
        },
        ErrorView::Connection { cause, node, attempts } => connection_text(cause) + ascii(" at "@)
            + address_of(node) + ascii(" after "@) + decimal(attempts as nat) + ascii(
            " attempt(s)"@,
        ),
        ErrorView::Timeout { node, timeout_ms } => ascii("no answer from "@) + address_of(node)
            + ascii(" within "@) + decimal(timeout_ms as nat) + ascii(" ms"@),
    }
}

/// The words with which the message of every error of a kind begins.
fn kind_words(kind: ErrorKind) -> (r: Vec<u8>)
    ensures
        r@ == kind_text(kind),
{
    proof {
        reveal_strlit("configuration error: ");
        reveal_strlit("certificate error: ");
        reveal_strlit("connection error: ");
        reveal_strlit("timeout error: ");
    }
    match kind {
        ErrorKind::Configuration => bytes_of("configuration error: "),
        ErrorKind::Certificate => bytes_of("certificate error: "),
        ErrorKind::Connection => bytes_of("connection error: "),
        ErrorKind::Timeout => bytes_of("timeout error: "),
    }
}

/// What a configuration error says.
fn configuration_words(cause: ConfigurationError) -> (r: Vec<u8>)
    ensures
        r@ == configuration_text(cause),
{
    proof {
        reveal_strlit("the connection pool is empty");
        reveal_strlit("malformed node address");
        reveal_strlit("the attempt limit is zero");
        reveal_strlit("the timeout is zero");
        reveal_strlit("invalid default header");
    }
    match cause {
        ConfigurationError::EmptyPool => bytes_of("the connection pool is empty"),
        ConfigurationError::MalformedUrl => bytes_of("malformed node address"),
        ConfigurationError::ZeroAttempts => bytes_of("the attempt limit is zero"),
        ConfigurationError::ZeroTimeout => bytes_of("the timeout is zero"),
        ConfigurationError::InvalidHeader => bytes_of("invalid default header"),
    }
}

/// What a certificate error says.
fn certificate_words(cause: CertificateError) -> (r: Vec<u8>)
    ensures
        r@ == certificate_text(cause),
{
    proof {
        reveal_strlit("no certificate in the PEM text");
        reveal_strlit("unterminated certificate block");
        reveal_strlit("certificate block is not Base64");
        reveal_strlit("the certificate is not trusted");
        reveal_strlit("the certificate does not name the host");
    }
    match cause {
        CertificateError::Malformed(PemError::NoCertificate) => bytes_of(
            "no certificate in the PEM text",
        ),
        CertificateError::Malformed(PemError::UnterminatedBlock) => bytes_of(
            "unterminated certificate block",
        ),
        CertificateError::Malformed(PemError::InvalidEncoding) => bytes_of(
            "certificate block is not Base64",
        ),
        CertificateError::Rejected(RejectReason::UntrustedIssuer) => bytes_of(
            "the certificate is not trusted",
        ),
        CertificateError::Rejected(RejectReason::HostnameMismatch) => bytes_of(
            "the certificate does not name the host",
        ),
    }
}

/// What a connection failure says.
fn connection_words(cause: ConnectionFailure) -> (r: Vec<u8>)
    ensures
        r@ == connection_text(cause),
{
    proof {
        reveal_strlit("connection refused");
        reveal_strlit("connection reset");
        reveal_strlit("host not found");
    }
    match cause {
        ConnectionFailure::Refused => bytes_of("connection refused"),
        ConnectionFailure::Reset => bytes_of("connection reset"),
        ConnectionFailure::Dns => bytes_of("host not found"),
    }
}

/// Appends the bytes of an ASCII literal to `out`.
fn push_words(out: &mut Vec<u8>, words: &str)
    requires
        is_ascii(words),
    ensures
        final(out)@ == old(out)@ + ascii(words@),
{
    push_all(out, bytes_of(words).as_slice());
}

impl TransportError {
    /// The error that a refused configuration gives.
    pub fn from_configuration(cause: ConfigurationError) -> (r: TransportError)
        ensures
            r@ == ErrorView::Configuration(cause),
    {
        TransportError::Configuration(cause)
    }

    /// The error that unreadable PEM text gives.
    pub fn from_pem(cause: PemError) -> (r: TransportError)
        ensures
            r@ == (ErrorView::Certificate { cause: CertificateError::Malformed(cause), node: None }),
    {
        TransportError::Certificate { cause: CertificateError::Malformed(cause), node: None }
    }

    /// The kind of this error.
    pub fn kind(&self) -> (r: ErrorKind)
        ensures
            r == kind_of(self@),
    {
        match self {
            TransportError::Configuration(_) => ErrorKind::Configuration,
            TransportError::Certificate { .. } => ErrorKind::Certificate,
            TransportError::Connection { .. } => ErrorKind::Connection,
            TransportError::Timeout { .. } => ErrorKind::Timeout,
        }
    }

    /// The message of this error, in ASCII.
    pub fn message(&self) -> (r: Vec<u8>)
        ensures
            r@ == message_of(self@),
    {
        proof {
            reveal_strlit(" at ");
            reveal_strlit(" after ");
            reveal_strlit(" attempt(s)");
            reveal_strlit("no answer from ");
            reveal_strlit(" within ");
            reveal_strlit(" ms");
        }
        let mut out = kind_words(self.kind());
        let ghost head = out@;
        match self {
            TransportError::Configuration(cause) => {
                push_all(&mut out, configuration_words(*cause).as_slice());
            },
            TransportError::Certificate { cause, node } => {
                push_all(&mut out, certificate_words(*cause).as_slice());
                match node {
                    Some(n) => {
                        push_words(&mut out, " at ");
                        push_all(&mut out, n.address().as_slice());
                        assert(out@ =~= head + (certificate_text(*cause) + (ascii(" at "@)
                            + address_of(n@))));
                    },
                    None => {
                        assert(out@ =~= head + (certificate_text(*cause) + Seq::<u8>::empty()));
                    },
                }
            },
            TransportError::Connection { cause, node, attempts } => {
                push_all(&mut out, connection_words(*cause).as_slice());
                push_words(&mut out, " at ");
                push_all(&mut out, node.address().as_slice());
                push_words(&mut out, " after ");
                push_decimal(&mut out, *attempts as u64);
                push_words(&mut out, " attempt(s)");
                assert(out@ =~= head + (connection_text(*cause) + ascii(" at "@) + address_of(
                    node@,
                ) + ascii(" after "@) + decimal(*attempts as nat) + ascii(" attempt(s)"@)));
            },
            TransportError::Timeout { node, timeout_ms } => {
                push_words(&mut out, "no answer from ");
                push_all(&mut out, node.address().as_slice());
                push_words(&mut out, " within ");
                push_decimal(&mut out, *timeout_ms);
                push_words(&mut out, " ms");
                assert(out@ =~= head + (ascii("no answer from "@) + address_of(node@) + ascii(
                    " within "@,
                ) + decimal(*timeout_ms as nat) + ascii(" ms"@)));
            },
        }
        out
    }
}

/// The message of an error begins with the words of its kind.
pub proof fn lemma_message_begins_with_kind(e: ErrorView)
    ensures
        kind_text(kind_of(e)).is_prefix_of(message_of(e)),
{
}

/// Errors of different kinds have different messages: what a rejected
/// certificate says can be told from what an unreachable node says.
pub proof fn lemma_messages_tell_kinds_apart(a: ErrorView, b: ErrorView)
    requires
        kind_of(a) != kind_of(b),
    ensures
        message_of(a) != message_of(b),
{
    reveal_strlit("configuration error: ");
    reveal_strlit("certificate error: ");
    reveal_strlit("connection error: ");
    reveal_strlit("timeout error: ");
    let ka = kind_text(kind_of(a));
    let kb = kind_text(kind_of(b));
    assert(ka.len() >= 4 && kb.len() >= 4);
    assert(forall|i: int| 0 <= i < 4 ==> message_of(a)[i] == ka[i]);
    assert(forall|i: int| 0 <= i < 4 ==> message_of(b)[i] == kb[i]);
    assert(ka[0] != kb[0] || ka[1] != kb[1] || ka[3] != kb[3]);
}

} // verus!
