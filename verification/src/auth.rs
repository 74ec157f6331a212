//! Credentials and the `Authorization` header that carries them.

use vstd::prelude::*;
use vstd::string::*;
use crate::base64::{encode, encoded};
use crate::headers::{Header, HeaderView};
use crate::text::{ascii, bytes_of, copy, push_all};

verus! {

/// How a request identifies its sender.
#[derive(Debug)]
pub enum Credentials {
    /// A user name and a password.
    Basic(Vec<u8>, Vec<u8>),
    /// A bearer token.
    Bearer(Vec<u8>),
    /// The id and the secret of an API key.
    ApiKey(Vec<u8>, Vec<u8>),
}

/// Credentials, as plain values.
pub enum CredentialsView {
    Basic(Seq<u8>, Seq<u8>),
    Bearer(Seq<u8>),
    ApiKey(Seq<u8>, Seq<u8>),
}

impl View for Credentials {
    type V = CredentialsView;

    open spec fn view(&self) -> CredentialsView {
        match self {
            Credentials::Basic(user, password) => CredentialsView::Basic(user@, password@),
            Credentials::Bearer(token) => CredentialsView::Bearer(token@),
            Credentials::ApiKey(id, secret) => CredentialsView::ApiKey(id@, secret@),
        }
    }
}

/// Two texts joined by a colon, in Base64.
pub open spec fn encoded_pair(first: Seq<u8>, second: Seq<u8>) -> Seq<u8> {
    encoded(first + seq![58u8] + second)
}

/// The value of a Basic authorization for a user and a password.
pub open spec fn basic_of(user: Seq<u8>, password: Seq<u8>) -> Seq<u8> {
    ascii("Basic "@) + encoded_pair(user, password)
}

/// The value of the `Authorization` header for `credentials`.
pub open spec fn authorization_of(credentials: CredentialsView) -> Seq<u8> {
    match credentials {
        CredentialsView::Basic(user, password) => basic_of(user, password),
        CredentialsView::Bearer(token) => ascii("Bearer "@) + token,
        CredentialsView::ApiKey(id, secret) => ascii("ApiKey "@) + encoded_pair(id, secret),
    }
}

/// The `Authorization` header for `credentials`.
pub open spec fn authorization_header(credentials: CredentialsView) -> HeaderView {
    HeaderView { name: ascii("authorization"@), value: authorization_of(credentials) }
}

/// The headers that stand for optional credentials: one or none.
pub open spec fn credential_headers(credentials: Option<CredentialsView>) -> Seq<HeaderView> {
    match credentials {
        Some(c) => seq![authorization_header(c)],
        None => Seq::empty(),
    }
}

/// Appends `first`, a colon and `second`, in Base64, to `out`.
fn push_encoded_pair(out: &mut Vec<u8>, first: &[u8], second: &[u8])
    ensures
        final(out)@ == old(out)@ + encoded_pair(first@, second@),
{
    let mut pair = copy(first);
    pair.push(58);
    push_all(&mut pair, second);
    assert(pair@ =~= first@ + seq![58u8] + second@);
    push_all(out, encode(pair.as_slice()).as_slice());
}

/// The value of a Basic authorization for a user and a password.
pub fn basic(user: &[u8], password: &[u8]) -> (r: Vec<u8>)
    ensures
        r@ == basic_of(user@, password@),
{
    proof {
        reveal_strlit("Basic ");
    }
    let mut out = bytes_of("Basic ");
    push_encoded_pair(&mut out, user, password);
    out
}

impl Credentials {
    /// The value of the `Authorization` header for these credentials.
    pub fn authorization(&self) -> (r: Vec<u8>)
        ensures
            r@ == authorization_of(self@),
    {
        proof {
            reveal_strlit("Bearer ");
            reveal_strlit("ApiKey ");
        }
        match self {
            Credentials::Basic(user, password) => basic(user.as_slice(), password.as_slice()),
            Credentials::Bearer(token) => {
                let mut out = bytes_of("Bearer ");
                push_all(&mut out, token.as_slice());
                out
            },
            Credentials::ApiKey(id, secret) => {
                let mut out = bytes_of("ApiKey ");
                push_encoded_pair(&mut out, id.as_slice(), secret.as_slice());
                out
            },
        }
    }

    /// The `Authorization` header for these credentials.
    pub fn header(&self) -> (r: Header)
        ensures
            r@ == authorization_header(self@),
    {
        proof {
            reveal_strlit("authorization");
        }
        Header { name: bytes_of("authorization"), value: self.authorization() }
    }
}

} // verus!
