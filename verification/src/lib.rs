//! The transport core of a client for a search-engine cluster.
//!
//! A caller describes a request; the transport picks a node of the cluster,
//! composes the request for it with credentials, default headers, proxy and
//! TLS settings, and decides after each attempt whether the answer is handed
//! on, another node is tried, or the call fails.  The exchange itself is
//! performed by whoever drives the transport.
//!
//! What is here:
//!
//! * [`cert`]: certificates read from PEM text, and the policy by which a
//!   peer's certificate is judged;
//! * [`pool`]: nodes, their addresses, and the pools that hand them out;
//! * [`auth`], [`headers`], [`request`]: credentials, header lists, request
//!   descriptions and responses;
//! * [`config`]: the builder and the immutable configuration;
//! * [`transport`]: composition of requests and the failover decisions;
//! * [`error`]: the kinds of error and their messages;
//! * [`rest_spec`]: the API description files of a source tarball;
//! * [`base64`], [`text`]: encodings and byte-string helpers.

pub mod auth;
pub mod base64;
pub mod cert;
pub mod config;
pub mod error;
pub mod headers;
pub mod pool;
pub mod request;
pub mod rest_spec;
pub mod text;
pub mod transport;

pub use crate::auth::Credentials;
pub use crate::cert::{Certificate, CertificateValidation};
pub use crate::config::{TransportBuilder, TransportConfig};
pub use crate::error::TransportError;
pub use crate::pool::{
    ConnectionPool, Cursor, MultiNodeConnectionPool, Node, SingleNodeConnectionPool,
    DEFAULT_ADDRESS,
};
pub use crate::request::{RequestDescriptor, Response};
pub use crate::transport::Transport;
