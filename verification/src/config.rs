//! The configuration of a transport: built once, then only read.
//!
//! A [`TransportBuilder`] gathers the options.  [`TransportBuilder::build`]
//! checks them and hands out a [`TransportConfig`], which has no method that
//! changes it: to change a setting, build another configuration.

use vstd::prelude::*;
use crate::auth::{Credentials, CredentialsView};
use crate::cert::{CertificateValidation, Policy};
use crate::error::ConfigurationError;
use crate::headers::{all_valid, header_views, headers_are_valid, Header, HeaderView};
use crate::pool::{has_scheme, ConnectionPool, Node, NodeView};
use crate::text::copy;

verus! {

/// The timeout of a configuration that names none, in milliseconds.
pub const DEFAULT_TIMEOUT_MS: u64 = 60000;

/// The attempt limit of a configuration that names none: no retry.
pub const DEFAULT_MAX_ATTEMPTS: u32 = 1;

/// A forward proxy and, optionally, the user and password it asks for.
#[derive(Debug)]
pub struct Proxy {
    pub node: Node,
    pub credentials: Option<(Vec<u8>, Vec<u8>)>,
}

/// A proxy, as plain values.
pub struct ProxyView {
    pub node: NodeView,
    pub credentials: Option<(Seq<u8>, Seq<u8>)>,
}

impl View for Proxy {
    type V = ProxyView;

    open spec fn view(&self) -> ProxyView {
        ProxyView {
            node: self.node@,
            credentials: match self.credentials {
                Some((user, password)) => Some((user@, password@)),
                None => None,
            },
        }
    }
}

/// What a caller should be told about a configuration that was accepted.
#[derive(Clone, Copy, Debug, PartialEq, Eq, Structural)]
pub enum Warning {
    /// The certificate policy relaxes TLS checks, but the pool holds a node
    /// with a plain-text scheme, on which the policy has no effect.
    PolicyWithoutEffect,
    /// Certificate validation is off and the pool holds a secure node: any
    /// peer will be accepted on connections that look protected.
    ValidationDisabled,
}

/// The options of a transport, as plain values.
pub struct Settings {
    pub nodes: Seq<NodeView>,
    pub credentials: Option<CredentialsView>,
    pub policy: Policy,
    pub proxy: Option<ProxyView>,
    pub headers: Seq<HeaderView>,
    pub timeout_ms: u64,
    pub max_attempts: u32,
}

/// The first thing that is wrong with `settings`, if anything is.
pub open spec fn defect_of(settings: Settings) -> Option<ConfigurationError> {
    if settings.nodes.len() == 0 {
        Some(ConfigurationError::EmptyPool)
    } else if settings.max_attempts == 0 {
        Some(ConfigurationError::ZeroAttempts)
    } else if settings.timeout_ms == 0 {
        Some(ConfigurationError::ZeroTimeout)
    } else if !all_valid(settings.headers) {
        Some(ConfigurationError::InvalidHeader)
    } else {
        None
    }
}

/// Whether `policy` relaxes the checks that the default policy makes.
pub open spec fn relaxes_checks(policy: Policy) -> bool {
    policy is Disabled || policy is Certificate
}

/// What a caller should be told about `settings`: first whether the policy
/// is without effect on some node, then whether validation is off on some
/// secure node.
pub open spec fn warnings_of(settings: Settings) -> Seq<Warning> {
    let without_effect: Seq<Warning> = if relaxes_checks(settings.policy) && has_scheme(
        settings.nodes,
        false,
    ) {
        seq![Warning::PolicyWithoutEffect]
    } else {
        Seq::empty()
    };
    let disabled: Seq<Warning> = if settings.policy is Disabled && has_scheme(
        settings.nodes,
        true,
    ) {
        seq![Warning::ValidationDisabled]
    } else {
        Seq::empty()
    };
    without_effect + disabled
}

/// The contents of optional credentials.
pub open spec fn credentials_view(credentials: Option<Credentials>) -> Option<CredentialsView> {
    match credentials {
        Some(c) => Some(c@),
        None => None,
    }
}

/// The contents of an optional proxy.
pub open spec fn proxy_view(proxy: Option<Proxy>) -> Option<ProxyView> {
    match proxy {
        Some(p) => Some(p@),
        None => None,
    }
}

/// Gathers the options of a transport.
#[derive(Debug)]
pub struct TransportBuilder {
    pool: ConnectionPool,
    credentials: Option<Credentials>,
    cert_validation: CertificateValidation,
    proxy: Option<Proxy>,
    headers: Vec<Header>,
    timeout_ms: u64,
    max_attempts: u32,
}

impl View for TransportBuilder {
    type V = Settings;

    closed spec fn view(&self) -> Settings {
        Settings {
            nodes: self.pool.nodes(),
            credentials: credentials_view(self.credentials),
            policy: self.cert_validation@,
            proxy: proxy_view(self.proxy),
            headers: header_views(self.headers@),
            timeout_ms: self.timeout_ms,
            max_attempts: self.max_attempts,
        }
    }
}

impl TransportBuilder {
    /// A builder over `pool` with no credentials, no proxy, no default
    /// headers, the default timeout and attempt limit, and the default
    /// certificate policy: validation is never off unless it is asked for.
    pub fn new(pool: ConnectionPool) -> (r: TransportBuilder)
        ensures
            r@ == (Settings {
                nodes: pool.nodes(),
                credentials: None,
                policy: Policy::Default,
                proxy: None,
                headers: Seq::empty(),
                timeout_ms: DEFAULT_TIMEOUT_MS,
                max_attempts: DEFAULT_MAX_ATTEMPTS,
            }),
    {
        let r = TransportBuilder {
            pool,
            credentials: None,
            cert_validation: CertificateValidation::Default,
            proxy: None,
            headers: Vec::new(),
            timeout_ms: DEFAULT_TIMEOUT_MS,
            max_attempts: DEFAULT_MAX_ATTEMPTS,
        };
        assert(r@.headers =~= Seq::empty());
        r
    }

    /// Sets the credentials that every request carries.
    pub fn auth(self, credentials: Credentials) -> (r: TransportBuilder)
        ensures
            r@ == (Settings { credentials: Some(credentials@), ..self@ }),
    {
        TransportBuilder { credentials: Some(credentials), ..self }
    }

    /// Sets the certificate policy for secure connections.
    pub fn cert_validation(self, policy: CertificateValidation) -> (r: TransportBuilder)
        ensures
            r@ == (Settings { policy: policy@, ..self@ }),
    {
        TransportBuilder { cert_validation: policy, ..self }
    }

    /// Routes every request through the proxy at `node`.  The proxy is given
    /// credentials only if both a user name and a password are named.
    pub fn proxy(self, node: Node, username: Option<&[u8]>, password: Option<&[u8]>) -> (r:
        TransportBuilder)
        ensures
            r@ == (Settings {
                proxy: Some(
                    ProxyView {
                        node: node@,
                        credentials: match (username, password) {
                            (Some(user), Some(secret)) => Some((user@, secret@)),
                            _ => None,
                        },
                    },
                ),
                ..self@
            }),
    {
        let credentials = match (username, password) {
            (Some(user), Some(secret)) => Some((copy(user), copy(secret))),
            _ => None,
        };
        TransportBuilder { proxy: Some(Proxy { node, credentials }), ..self }
    }

    /// Adds a default header behind those already named.
    pub fn header(self, name: &[u8], value: &[u8]) -> (r: TransportBuilder)
        ensures
            r@ == (Settings {
                headers: self@.headers.push(HeaderView { name: name@, value: value@ }),
                ..self@
            }),
    {
        let mut this = self;
        this.headers.push(Header { name: copy(name), value: copy(value) });
        assert(header_views(this.headers@) =~= header_views(self.headers@).push(
            HeaderView { name: name@, value: value@ },
        ));
        this
    }

    /// Sets the deadline of a request, in milliseconds.
    pub fn timeout(self, timeout_ms: u64) -> (r: TransportBuilder)
        ensures
            r@ == (Settings { timeout_ms, ..self@ }),
    {
        TransportBuilder { timeout_ms, ..self }
    }

    /// Sets the number of attempts that one request may take.
    pub fn max_attempts(self, max_attempts: u32) -> (r: TransportBuilder)
        ensures
            r@ == (Settings { max_attempts, ..self@ }),
    {
        TransportBuilder { max_attempts, ..self }
    }

    /// Checks the options and hands out the configuration, or says what is
    /// wrong with them.
    pub fn build(self) -> (r: Result<TransportConfig, ConfigurationError>)
        ensures
            match r {
                Ok(config) => defect_of(self@).is_none() && config@ == self@,
                Err(defect) => defect_of(self@) == Some(defect),
            },
    {
        if self.pool.is_empty() {
            return Err(ConfigurationError::EmptyPool);
        }
        if self.max_attempts == 0 {
            return Err(ConfigurationError::ZeroAttempts);
        }
        if self.timeout_ms == 0 {
            return Err(ConfigurationError::ZeroTimeout);
        }
        if !headers_are_valid(&self.headers) {
            return Err(ConfigurationError::InvalidHeader);
        }
        Ok(
            TransportConfig {
                pool: self.pool,
                credentials: self.credentials,
                cert_validation: self.cert_validation,
                proxy: self.proxy,
                headers: self.headers,
                timeout_ms: self.timeout_ms,
                max_attempts: self.max_attempts,
            },
        )
    }
}

/// The options of a transport, checked and fixed.  Shared by every request
/// that the transport sends; nothing can change it.
#[derive(Debug)]
pub struct TransportConfig {
    pool: ConnectionPool,
    credentials: Option<Credentials>,
    cert_validation: CertificateValidation,
    proxy: Option<Proxy>,
    headers: Vec<Header>,
    timeout_ms: u64,
    max_attempts: u32,
}

impl View for TransportConfig {
    type V = Settings;

    closed spec fn view(&self) -> Settings {
        Settings {
            nodes: self.pool.nodes(),
            credentials: credentials_view(self.credentials),
            policy: self.cert_validation@,
            proxy: proxy_view(self.proxy),
            headers: header_views(self.headers@),
            timeout_ms: self.timeout_ms,
            max_attempts: self.max_attempts,
        }
    }
}

impl TransportConfig {
    /// Every configuration is free of defects.
    #[verifier::type_invariant]
    pub open spec fn sound(&self) -> bool {
        defect_of(self@).is_none()
    }

    /// The connection pool.
    pub fn pool(&self) -> (r: &ConnectionPool)
        ensures
            r.nodes() == self@.nodes,
            r.nodes().len() > 0,
    {
        proof {
            use_type_invariant(self);
        }
        &self.pool
    }

    /// The credentials that every request carries.
    pub fn credentials(&self) -> (r: Option<&Credentials>)
        ensures
            match r {
                Some(c) => self@.credentials == Some(c@),
                None => self@.credentials.is_none(),
            },
    {
        self.credentials.as_ref()
    }

    /// The certificate policy.
    pub fn cert_validation(&self) -> (r: &CertificateValidation)
        ensures
            r@ == self@.policy,
    {
        &self.cert_validation
    }

    /// The proxy through which requests are routed.
    pub fn proxy(&self) -> (r: Option<&Proxy>)
        ensures
            match r {
                Some(p) => self@.proxy == Some(p@),
                None => self@.proxy.is_none(),
            },
    {
        self.proxy.as_ref()
    }

    /// The default headers: each can be sent.
    pub fn headers(&self) -> (r: &Vec<Header>)
        ensures
            header_views(r@) == self@.headers,
            all_valid(header_views(r@)),
    {
        proof {
            use_type_invariant(self);
        }
        &self.headers
    }

    /// The deadline of a request in milliseconds: never zero.
    pub fn timeout_ms(&self) -> (r: u64)
        ensures
            r == self@.timeout_ms,
            r > 0,
    {
        proof {
            use_type_invariant(self);
        }
        self.timeout_ms
    }

    /// The number of attempts that one request may take: at least one.
    pub fn max_attempts(&self) -> (r: u32)
        ensures
            r == self@.max_attempts,
            r >= 1,
    {
        proof {
            use_type_invariant(self);
        }
        self.max_attempts
    }

    /// What the caller should be told about this configuration.
    pub fn warnings(&self) -> (r: Vec<Warning>)
        ensures
            r@ == warnings_of(self@),
    {
        let relaxed = match &self.cert_validation {
            CertificateValidation::Disabled => true,
            CertificateValidation::Certificate(_) => true,
            _ => false,
        };
        let disabled = match &self.cert_validation {
            CertificateValidation::Disabled => true,
            _ => false,
        };
        let mut out: Vec<Warning> = Vec::new();
        if relaxed && self.pool.has_node_with(false) {
            out.push(Warning::PolicyWithoutEffect);
        }
        if disabled && self.pool.has_node_with(true) {
            out.push(Warning::ValidationDisabled);
        }
        assert(out@ =~= warnings_of(self@));
        out
    }
}

/// A configuration that was accepted has a node to send to, room for at
/// least one attempt, a deadline, and default headers that can be sent; the
/// options that were refused are exactly those with a defect.
pub proof fn lemma_accepted_settings(settings: Settings)
    ensures
        defect_of(settings).is_none() <==> settings.nodes.len() > 0 && settings.max_attempts >= 1
            && settings.timeout_ms > 0 && all_valid(settings.headers),
{
}

} // verus!
