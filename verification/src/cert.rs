//! Certificates and the policy by which a peer's certificate is judged.
//!
//! A [`Certificate`] is an ordered chain of DER-encoded certificates, read
//! from PEM text.  A [`CertificateValidation`] policy says which of them a
//! TLS context trusts and whether the peer's host name is checked.
//!
//! Whether a chain of signatures leads from a peer's certificate to a trust
//! anchor is established by the TLS backend during the handshake, and backends
//! differ: a strict one accepts a peer only if the certificate that *issued*
//! the peer's chain is among the anchors, a chain-tolerant one also accepts a
//! peer whose own (leaf) certificate is among them.  [`Backend`] names that
//! capability; [`PeerEvidence`] holds what the backend established.

use vstd::prelude::*;
use vstd::string::*;
use crate::base64::{decode, decoded};
use crate::text::{ascii, bytes_of, contents, find, find_from, lemma_find_from};

verus! {

/// Why PEM text was not accepted.
#[derive(Clone, Copy, Debug, PartialEq, Eq, Structural)]
pub enum PemError {
    /// The text holds no certificate block.
    NoCertificate,
    /// A certificate block is opened and never closed.
    UnterminatedBlock,
    /// The body of a certificate block is empty or is not Base64.
    InvalidEncoding,
}

/// The line that opens a certificate block.
pub open spec fn begin_marker() -> Seq<u8> {
    ascii("-----BEGIN CERTIFICATE-----"@)
}

/// The line that closes a certificate block.
pub open spec fn end_marker() -> Seq<u8> {
    ascii("-----END CERTIFICATE-----"@)
}

/// Space, tab, line feed and carriage return.
pub open spec fn is_space(b: u8) -> bool {
    b == 32 || b == 9 || b == 10 || b == 13
}

/// The bytes of `s` that are not white space, in order.
pub open spec fn without_spaces(s: Seq<u8>) -> Seq<u8>
    decreases s.len(),
{
    if s.len() == 0 {
        Seq::empty()
    } else if is_space(s.last()) {
        without_spaces(s.drop_last())
    } else {
        without_spaces(s.drop_last()).push(s.last())
    }
}

/// The certificates of the blocks that open at or after `pos`, in document
/// order, or the defect of the first block that has one.
pub open spec fn pem_from(input: Seq<u8>, pos: int) -> Result<Seq<Seq<u8>>, PemError>
    decreases input.len() - pos,
{
    match find_from(input, begin_marker(), pos) {
        None => Ok(Seq::empty()),
        Some(open) => {
            let start = open + begin_marker().len();
            match find_from(input, end_marker(), start) {
                None => Err(PemError::UnterminatedBlock),
                Some(close) => match decoded(without_spaces(input.subrange(start, close))) {
                    None => Err(PemError::InvalidEncoding),
                    Some(der) => if der.len() == 0 {
                        Err(PemError::InvalidEncoding)
                    } else {
                        proof {
                            reveal_strlit("-----BEGIN CERTIFICATE-----");
                            if pos >= 0 {
                                lemma_find_from(input, begin_marker(), pos);
                                lemma_find_from(input, end_marker(), start);
                            }
                        }
                        match pem_from(input, close + end_marker().len()) {
                            Err(defect) => Err(defect),
                            Ok(rest) => Ok(seq![der] + rest),
                        }
                    },
                },
            }
        },
    }
}

/// The certificates that PEM text holds, in document order.  Text around the
/// blocks is ignored; text without any block is refused.
pub open spec fn pem_certificates(input: Seq<u8>) -> Result<Seq<Seq<u8>>, PemError> {
    match pem_from(input, 0) {
        Err(defect) => Err(defect),
        Ok(chain) => if chain.len() == 0 {
            Err(PemError::NoCertificate)
        } else {
            Ok(chain)
        },
    }
}

/// The bytes of `data` between `from` and `to` that are not white space.
fn strip_spaces(data: &[u8], from: usize, to: usize) -> (r: Vec<u8>)
    requires
        from <= to <= data.len(),
    ensures
        r@ == without_spaces(data@.subrange(from as int, to as int)),
{
    let mut out: Vec<u8> = Vec::new();
    let mut i: usize = from;
    while i < to
        invariant
            from <= i <= to <= data.len(),
            out@ == without_spaces(data@.subrange(from as int, i as int)),
        decreases to - i,
    {
        let b: u8 = data[i];
        proof {
            let next = data@.subrange(from as int, i + 1);
            assert(next.drop_last() =~= data@.subrange(from as int, i as int));
            assert(next.last() == b);
        }
        if !(b == 32 || b == 9 || b == 10 || b == 13) {
            out.push(b);
        }
        i += 1;
    }
    out
}

/// One certificate, or several in a fixed order, each held as its DER bytes.
#[derive(Debug)]
pub struct Certificate {
    chain: Vec<Vec<u8>>,
}

impl View for Certificate {
    type V = Seq<Seq<u8>>;

    closed spec fn view(&self) -> Seq<Seq<u8>> {
        contents(self.chain@)
    }
}

impl Certificate {
    /// Reads every certificate block of PEM text, in document order.
    pub fn from_pem(cert: &[u8]) -> (r: Result<Certificate, PemError>)
        ensures
            match r {
                Ok(c) => pem_certificates(cert@) == Ok::<Seq<Seq<u8>>, PemError>(c@),
                Err(defect) => pem_certificates(cert@) == Err::<Seq<Seq<u8>>, PemError>(defect),
            },
    {
        proof {
            reveal_strlit("-----BEGIN CERTIFICATE-----");
            reveal_strlit("-----END CERTIFICATE-----");
        }
        let begin = bytes_of("-----BEGIN CERTIFICATE-----");
        let end = bytes_of("-----END CERTIFICATE-----");
        let mut chain: Vec<Vec<u8>> = Vec::new();
        let mut pos: usize = 0;
        assert(contents(chain@) + Seq::<Seq<u8>>::empty() =~= Seq::<Seq<u8>>::empty());
        loop
            invariant
                pos <= cert.len(),
                begin@ == begin_marker(),
                end@ == end_marker(),
                begin@.len() == 27,
                match pem_from(cert@, pos as int) {
                    Err(defect) => pem_from(cert@, 0) == Err::<Seq<Seq<u8>>, PemError>(defect),
                    Ok(rest) => pem_from(cert@, 0) == Ok::<Seq<Seq<u8>>, PemError>(
                        contents(chain@) + rest,
                    ),
                },
            ensures
                pem_from(cert@, 0) == Ok::<Seq<Seq<u8>>, PemError>(contents(chain@)),
            decreases cert.len() - pos,
        {
            proof {
                lemma_find_from(cert@, begin_marker(), pos as int);
            }
            let open = match find(cert, begin.as_slice(), pos) {
                None => {
                    assert(contents(chain@) + Seq::<Seq<u8>>::empty() =~= contents(chain@));
                    break ;
                },
                Some(open) => open,
            };
            let start: usize = open + begin.len();
            proof {
                lemma_find_from(cert@, end_marker(), start as int);
            }
            let close = match find(cert, end.as_slice(), start) {
                None => {
                    return Err(PemError::UnterminatedBlock);
                },
                Some(close) => close,
            };
            let body = strip_spaces(cert, start, close);
            let der = match decode(body.as_slice()) {
                None => {
                    return Err(PemError::InvalidEncoding);
                },
                Some(der) => der,
            };
            if der.len() == 0 {
                return Err(PemError::InvalidEncoding);
            }
            proof {
                let next = close + end_marker().len();
                if let Ok(rest) = pem_from(cert@, next) {
                    assert(contents(chain@.push(der)) + rest =~= contents(chain@) + (seq![der@]
                        + rest));
                }
            }
            chain.push(der);
            pos = close + end.len();
        }
        if chain.len() == 0 {
            Err(PemError::NoCertificate)
        } else {
            Ok(Certificate { chain })
        }
    }

    /// Adds the certificates of `other` behind those already held.
    pub fn append(&mut self, other: Certificate)
        ensures
            final(self)@ == old(self)@ + other@,
    {
        let mut other = other;
        self.chain.append(&mut other.chain);
        assert(contents(old(self).chain@ + other.chain@) =~= contents(old(self).chain@)
            + contents(other.chain@));
    }

    /// The number of certificates held.
    pub fn len(&self) -> (n: usize)
        ensures
            n == self@.len(),
    {
        self.chain.len()
    }

    /// The DER bytes of the certificate at position `i`.
    pub fn der(&self, i: usize) -> (r: &[u8])
        requires
            i < self@.len(),
        ensures
            r@ == self@[i as int],
    {
        self.chain[i].as_slice()
    }
}

/// How a peer's certificate is judged when a secure connection is made.
#[derive(Debug)]
pub enum CertificateValidation {
    /// Trust the system's root store and check the host name.
    Default,
    /// Accept any certificate and any host name.  Nothing about the peer is
    /// checked: for trusted networks and tests only.
    Disabled,
    /// Trust the given certificates as anchors and check the host name.
    Full(Certificate),
    /// Trust the given certificates as anchors and skip the host name check.
    Certificate(Certificate),
}

/// A policy, with each chain it holds as plain values.
pub enum Policy {
    Default,
    Disabled,
    Full(Seq<Seq<u8>>),
    Certificate(Seq<Seq<u8>>),
}

impl View for CertificateValidation {
    type V = Policy;

    open spec fn view(&self) -> Policy {
        match self {
            CertificateValidation::Default => Policy::Default,
            CertificateValidation::Disabled => Policy::Disabled,
            CertificateValidation::Full(chain) => Policy::Full(chain@),
            CertificateValidation::Certificate(chain) => Policy::Certificate(chain@),
        }
    }
}

/// What a TLS context is told to check.
#[derive(Clone, Copy, Debug, PartialEq, Eq, Structural)]
pub struct TlsSettings {
    /// Trust the system's root store.
    pub system_roots: bool,
    /// Require a chain of trust from the peer's certificate to a trusted one.
    pub verify_chain: bool,
    /// Require the peer's certificate to name the host that was dialled.
    pub verify_hostname: bool,
}

/// How a TLS backend treats a peer whose own certificate is a trust anchor.
#[derive(Clone, Copy, Debug, PartialEq, Eq, Structural)]
pub enum Backend {
    /// Only the issuer of the peer's chain counts as an anchor.
    Strict,
    /// The peer's own certificate counts as an anchor too.
    ChainTolerant,
}

/// What the TLS backend established about a peer during the handshake.
#[derive(Clone, Copy, Debug, PartialEq, Eq, Structural)]
pub struct PeerEvidence {
    /// The peer's chain leads to a root of the system's store.
    pub system_trusted: bool,
    /// The peer's chain was issued by one of the supplied certificates.
    pub issued_by_anchor: bool,
    /// The peer's own certificate is one of the supplied certificates.
    pub leaf_is_anchor: bool,
    /// The peer's certificate names the host that was dialled.
    pub hostname_matches: bool,
}

/// Why a peer was turned away.
#[derive(Clone, Copy, Debug, PartialEq, Eq, Structural)]
pub enum RejectReason {
    /// No chain of trust leads from the peer's certificate to a trusted one.
    UntrustedIssuer,
    /// The certificate is trusted but does not name the host.
    HostnameMismatch,
}

/// The judgement on a peer.
#[derive(Clone, Copy, Debug, PartialEq, Eq, Structural)]
pub enum Verdict {
    Accept,
    Reject(RejectReason),
}

/// What `policy` tells the TLS context to check.
pub open spec fn settings_of(policy: Policy) -> TlsSettings {
    match policy {
        Policy::Default => TlsSettings {
            system_roots: true,
            verify_chain: true,
            verify_hostname: true,
        },
        Policy::Disabled => TlsSettings {
            system_roots: false,
            verify_chain: false,
            verify_hostname: false,
        },
        Policy::Full(_) => TlsSettings {
            system_roots: false,
            verify_chain: true,
            verify_hostname: true,
        },
        Policy::Certificate(_) => TlsSettings {
            system_roots: false,
            verify_chain: true,
            verify_hostname: false,
        },
    }
}

/// The certificates that `policy` supplies as trust anchors.
pub open spec fn anchors_of(policy: Policy) -> Option<Seq<Seq<u8>>> {
    match policy {
        Policy::Full(chain) => Some(chain),
        Policy::Certificate(chain) => Some(chain),
        _ => None,
    }
}

/// Whether `backend` finds the peer anchored in the supplied certificates.
pub open spec fn anchored(backend: Backend, evidence: PeerEvidence) -> bool {
    evidence.issued_by_anchor || (evidence.leaf_is_anchor && backend == Backend::ChainTolerant)
}

/// The judgement of `policy` on a peer, given what `backend` established.
pub open spec fn verdict(policy: Policy, backend: Backend, evidence: PeerEvidence) -> Verdict {
    let settings = settings_of(policy);
    let trusted = if settings.system_roots {
        evidence.system_trusted
    } else {
        anchored(backend, evidence)
    };
    if settings.verify_chain && !trusted {
        Verdict::Reject(RejectReason::UntrustedIssuer)
    } else if settings.verify_hostname && !evidence.hostname_matches {
        Verdict::Reject(RejectReason::HostnameMismatch)
    } else {
        Verdict::Accept
    }
}

impl CertificateValidation {
    /// What this policy tells the TLS context to check.
    pub fn tls_settings(&self) -> (r: TlsSettings)
        ensures
            r == settings_of(self@),
    {
        match self {
            CertificateValidation::Default => TlsSettings {
                system_roots: true,
                verify_chain: true,
                verify_hostname: true,
            },
            CertificateValidation::Disabled => TlsSettings {
                system_roots: false,
                verify_chain: false,
                verify_hostname: false,
            },
            CertificateValidation::Full(_) => TlsSettings {
                system_roots: false,
                verify_chain: true,
                verify_hostname: true,
            },
            CertificateValidation::Certificate(_) => TlsSettings {
                system_roots: false,
                verify_chain: true,
                verify_hostname: false,
            },
        }
    }

    /// The certificates that this policy supplies as trust anchors.
    pub fn anchors(&self) -> (r: Option<&Certificate>)
        ensures
            match r {
                Some(chain) => anchors_of(self@) == Some(chain@),
                None => anchors_of(self@).is_none(),
            },
    {
        match self {
            CertificateValidation::Full(chain) => Some(chain),
            CertificateValidation::Certificate(chain) => Some(chain),
            _ => None,
        }
    }

    /// Whether the peer's host name is checked under this policy.
    pub fn verifies_hostname(&self) -> (r: bool)
        ensures
            r == settings_of(self@).verify_hostname,
    {
        self.tls_settings().verify_hostname
    }

    /// Judges a peer by what the backend established about it.
    pub fn evaluate(&self, backend: Backend, evidence: PeerEvidence) -> (r: Verdict)
        ensures
            r == verdict(self@, backend, evidence),
    {
        let settings = self.tls_settings();
        let tolerant = match backend {
            Backend::ChainTolerant => true,
            Backend::Strict => false,
        };
        let trusted = if settings.system_roots {
            evidence.system_trusted
        } else {
            evidence.issued_by_anchor || (evidence.leaf_is_anchor && tolerant)
        };
        if settings.verify_chain && !trusted {
            Verdict::Reject(RejectReason::UntrustedIssuer)
        } else if settings.verify_hostname && !evidence.hostname_matches {
            Verdict::Reject(RejectReason::HostnameMismatch)
        } else {
            Verdict::Accept
        }
    }
}

/// Certificates read from two PEM texts and appended form one chain that
/// holds as many certificates as both texts together, those of the first
/// text first, each in document order.
pub proof fn lemma_loaded_count(first: Seq<u8>, second: Seq<u8>)
    requires
        pem_certificates(first) is Ok,
        pem_certificates(second) is Ok,
    ensures
        ({
            let a = pem_certificates(first)->Ok_0;
            let b = pem_certificates(second)->Ok_0;
            &&& (a + b).len() == a.len() + b.len()
            &&& a.len() >= 1 && b.len() >= 1
            &&& forall|i: int| 0 <= i < a.len() ==> (a + b)[i] == a[i]
            &&& forall|i: int| 0 <= i < b.len() ==> (a + b)[a.len() + i] == b[i]
        }),
{
}

/// Without validation every peer is accepted, whatever the backend found;
/// the default policy turns away each peer that the system's roots do not
/// vouch for or whose certificate does not name the host.
pub proof fn lemma_disabled_accepts_every_peer(backend: Backend, evidence: PeerEvidence)
    ensures
        verdict(Policy::Disabled, backend, evidence) == Verdict::Accept,
        !evidence.system_trusted ==> verdict(Policy::Default, backend, evidence) == Verdict::Reject(
            RejectReason::UntrustedIssuer,
        ),
        evidence.system_trusted && !evidence.hostname_matches ==> verdict(
            Policy::Default,
            backend,
            evidence,
        ) == Verdict::Reject(RejectReason::HostnameMismatch),
        verdict(Policy::Default, backend, evidence) == Verdict::Accept <==> evidence.system_trusted
            && evidence.hostname_matches,
{
}

/// Full validation accepts exactly the peers that are anchored in the
/// supplied certificates and whose certificate names the host.
pub proof fn lemma_full_needs_anchor_and_hostname(
    chain: Seq<Seq<u8>>,
    backend: Backend,
    evidence: PeerEvidence,
)
    ensures
        verdict(Policy::Full(chain), backend, evidence) == Verdict::Accept <==> anchored(
            backend,
            evidence,
        ) && evidence.hostname_matches,
        !anchored(backend, evidence) ==> verdict(Policy::Full(chain), backend, evidence)
            == Verdict::Reject(RejectReason::UntrustedIssuer),
{
}

/// Certificate-only validation accepts exactly the peers that are anchored
/// in the supplied certificates; the host name plays no part.
pub proof fn lemma_certificate_ignores_hostname(
    chain: Seq<Seq<u8>>,
    backend: Backend,
    evidence: PeerEvidence,
)
    ensures
        verdict(Policy::Certificate(chain), backend, evidence) == Verdict::Accept <==> anchored(
            backend,
            evidence,
        ),
        verdict(Policy::Certificate(chain), backend, evidence) == verdict(
            Policy::Certificate(chain),
            backend,
            PeerEvidence { hostname_matches: !evidence.hostname_matches, ..evidence },
        ),
{
}

/// A peer whose own certificate is the only anchor it can show is accepted
/// by a chain-tolerant backend and turned away by a strict one.
pub proof fn lemma_leaf_only_anchor_depends_on_backend(chain: Seq<Seq<u8>>, evidence: PeerEvidence)
    requires
        evidence.leaf_is_anchor,
        !evidence.issued_by_anchor,
    ensures
        verdict(Policy::Certificate(chain), Backend::ChainTolerant, evidence) == Verdict::Accept,
        verdict(Policy::Certificate(chain), Backend::Strict, evidence) == Verdict::Reject(
            RejectReason::UntrustedIssuer,
        ),
        verdict(Policy::Full(chain), Backend::Strict, evidence) == Verdict::Reject(
            RejectReason::UntrustedIssuer,
        ),
{
}

} // verus!
