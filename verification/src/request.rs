//! What a caller hands to the transport and what it gets back.

use vstd::prelude::*;
use crate::headers::{find_value, header_views, lookup, Header, HeaderView};
use crate::pool::{address_of, Node, NodeView};
use crate::text::copy;

verus! {

/// The method of a request.
#[derive(Clone, Copy, Debug, PartialEq, Eq, Structural)]
pub enum Method {
    Get,
    Put,
    Post,
    Delete,
    Head,
    Patch,
}

/// One query parameter: a name and a value, both as the caller means them,
/// before any escaping.
#[derive(Debug)]
pub struct Param {
    pub name: Vec<u8>,
    pub value: Vec<u8>,
}

/// A query parameter, as plain values.
pub struct ParamView {
    pub name: Seq<u8>,
    pub value: Seq<u8>,
}

impl View for Param {
    type V = ParamView;

    open spec fn view(&self) -> ParamView {
        ParamView { name: self.name@, value: self.value@ }
    }
}

/// The parameters of `params`, as plain values.
pub open spec fn param_views(params: Seq<Param>) -> Seq<ParamView> {
    Seq::new(params.len(), |i: int| params[i]@)
}

/// A request as the caller describes it: made anew for every call.
#[derive(Debug)]
pub struct RequestDescriptor {
    pub method: Method,
    /// The path below the node's address.
    pub path: Vec<u8>,
    pub query: Vec<Param>,
    /// Headers of this request; they override the defaults of the transport.
    pub headers: Vec<Header>,
    pub body: Option<Vec<u8>>,
    /// A deadline in milliseconds for this request alone.
    pub timeout_ms: Option<u64>,
}

/// A request description, as plain values.
pub struct DescriptorView {
    pub method: Method,
    pub path: Seq<u8>,
    pub query: Seq<ParamView>,
    pub headers: Seq<HeaderView>,
    pub body: Option<Seq<u8>>,
    pub timeout_ms: Option<u64>,
}

/// The contents of an optional byte vector.
pub open spec fn body_view(body: Option<Vec<u8>>) -> Option<Seq<u8>> {
    match body {
        Some(bytes) => Some(bytes@),
        None => None,
    }
}

impl View for RequestDescriptor {
    type V = DescriptorView;

    open spec fn view(&self) -> DescriptorView {
        DescriptorView {
            method: self.method,
            path: self.path@,
            query: param_views(self.query@),
            headers: header_views(self.headers@),
            body: body_view(self.body),
            timeout_ms: self.timeout_ms,
        }
    }
}

impl RequestDescriptor {
    /// A request for `path` without parameters, headers, body or a deadline
    /// of its own.
    pub fn new(method: Method, path: &[u8]) -> (r: RequestDescriptor)
        ensures
            r@ == (DescriptorView {
                method,
                path: path@,
                query: Seq::empty(),
                headers: Seq::empty(),
                body: None,
                timeout_ms: None,
            }),
    {
        let r = RequestDescriptor {
            method,
            path: copy(path),
            query: Vec::new(),
            headers: Vec::new(),
            body: None,
            timeout_ms: None,
        };
        assert(r@.query =~= Seq::empty());
        assert(r@.headers =~= Seq::empty());
        r
    }
}

/// Letters, digits, `-`, `.`, `_` and `~`: the bytes that stand for
/// themselves in a query.
pub open spec fn is_unreserved(b: u8) -> bool {
    (48 <= b <= 57) || (65 <= b <= 90) || (97 <= b <= 122) || b == 45 || b == 46 || b == 95 || b
        == 126
}

/// The upper-case hexadecimal digit for a value below 16.
pub open spec fn hex_digit(v: int) -> u8 {
    if v < 10 {
        (48 + v) as u8
    } else {
        (55 + v) as u8
    }
}

/// One byte as it stands in a query: itself, or `%` and two hexadecimal
/// digits.
pub open spec fn escaped_byte(b: u8) -> Seq<u8> {
    if is_unreserved(b) {
        seq![b]
    } else {
        seq![37u8, hex_digit(b as int / 16), hex_digit(b as int % 16)]
    }
}

/// A text as it stands in a query, every byte escaped that needs it.
pub open spec fn escaped(s: Seq<u8>) -> Seq<u8>
    decreases s.len(),
{
    if s.len() == 0 {
        Seq::empty()
    } else {
        escaped(s.drop_last()) + escaped_byte(s.last())
    }
}

/// One parameter as it stands in a query: `name=value`, both escaped.
pub open spec fn escaped_param(p: ParamView) -> Seq<u8> {
    escaped(p.name) + seq![61u8] + escaped(p.value)
}

/// The query of a request: nothing without parameters, else `?` and the
/// parameters in order, joined by `&`.
pub open spec fn query_string(params: Seq<ParamView>) -> Seq<u8>
    decreases params.len(),
{
    if params.len() == 0 {
        Seq::empty()
    } else if params.len() == 1 {
        seq![63u8] + escaped_param(params[0])
    } else {
        query_string(params.drop_last()) + seq![38u8] + escaped_param(params.last())
    }
}

/// `path` without the slashes it starts with.
pub open spec fn relative_path(path: Seq<u8>) -> Seq<u8>
    decreases path.len(),
{
    if path.len() > 0 && path[0] == 47 {
        relative_path(path.skip(1))
    } else {
        path
    }
}

/// The address that a request for `path` with `query` has on `node`.
pub open spec fn url_of(node: NodeView, path: Seq<u8>, query: Seq<ParamView>) -> Seq<u8> {
    address_of(node) + seq![47u8] + relative_path(path) + query_string(query)
}

/// The upper-case hexadecimal digit for a value below 16.
fn hex(v: u8) -> (r: u8)
    requires
        v < 16,
    ensures
        r == hex_digit(v as int),
{
    if v < 10 {
        48 + v
    } else {
        55 + v
    }
}

/// Appends `s` to `out`, every byte escaped that needs it.
pub fn push_escaped(out: &mut Vec<u8>, s: &[u8])
    ensures
        final(out)@ == old(out)@ + escaped(s@),
{
    let mut i: usize = 0;
    assert(out@ =~= old(out)@ + escaped(s@.subrange(0, 0)));
    while i < s.len()
        invariant
            i <= s.len(),
            out@ == old(out)@ + escaped(s@.subrange(0, i as int)),
        decreases s.len() - i,
    {
        let b: u8 = s[i];
        let ghost before = out@;
        proof {
            let next = s@.subrange(0, i + 1);
            assert(next.drop_last() =~= s@.subrange(0, i as int));
            assert(next.last() == b);
        }
        let plain = (48 <= b && b <= 57) || (65 <= b && b <= 90) || (97 <= b && b <= 122) || b
            == 45 || b == 46 || b == 95 || b == 126;
        if plain {
            out.push(b);
        } else {
            out.push(37);
            out.push(hex(b / 16));
            out.push(hex(b % 16));
        }
        assert(out@ =~= before + escaped_byte(b));
        i += 1;
        assert(out@ =~= old(out)@ + escaped(s@.subrange(0, i as int)));
    }
    assert(s@.subrange(0, s@.len() as int) =~= s@);
}

/// Appends the query of a request with the parameters `params` to `out`.
pub fn push_query(out: &mut Vec<u8>, params: &Vec<Param>)
    ensures
        final(out)@ == old(out)@ + query_string(param_views(params@)),
{
    let mut i: usize = 0;
    assert(param_views(params@).subrange(0, 0) =~= Seq::<ParamView>::empty());
    assert(out@ =~= old(out)@ + Seq::<u8>::empty());
    while i < params.len()
        invariant
            i <= params.len(),
            out@ == old(out)@ + query_string(param_views(params@).subrange(0, i as int)),
        decreases params.len() - i,
    {
        let ghost before = out@;
        proof {
            let next = param_views(params@).subrange(0, i + 1);
            assert(next.drop_last() =~= param_views(params@).subrange(0, i as int));
            assert(next.last() == params@[i as int]@);
            assert(next[0] == params@[0]@);
        }
        out.push(if i == 0 {
            63
        } else {
            38
        });
        push_escaped(out, params[i].name.as_slice());
        out.push(61);
        push_escaped(out, params[i].value.as_slice());
        assert(out@ =~= before + seq![if i == 0 {
            63u8
        } else {
            38u8
        }] + escaped_param(params@[i as int]@));
        i += 1;
        assert(out@ =~= old(out)@ + query_string(param_views(params@).subrange(0, i as int)));
    }
    assert(param_views(params@).subrange(0, params@.len() as int) =~= param_views(params@));
}

/// The address that a request for `path` with `query` has on `node`.
pub fn url(node: &Node, path: &[u8], query: &Vec<Param>) -> (r: Vec<u8>)
    ensures
        r@ == url_of(node@, path@, param_views(query@)),
{
    let mut out = node.address();
    out.push(47);
    let mut from: usize = 0;
    assert(path@.subrange(0, path@.len() as int) =~= path@);
    while from < path.len() && path[from] == 47
        invariant
            from <= path.len(),
            relative_path(path@) == relative_path(path@.subrange(from as int, path@.len() as int)),
        decreases path.len() - from,
    {
        proof {
            let here = path@.subrange(from as int, path@.len() as int);
            assert(here.skip(1) =~= path@.subrange(from + 1, path@.len() as int));
        }
        from += 1;
    }
    let ghost before = out@;
    let mut i: usize = from;
    while i < path.len()
        invariant
            from <= i <= path.len(),
            out@ == before + path@.subrange(from as int, i as int),
        decreases path.len() - i,
    {
        out.push(path[i]);
        i += 1;
        assert(out@ =~= before + path@.subrange(from as int, i as int));
    }
    push_query(&mut out, query);
    out
}

/// What a node answered: a status, headers and a body.  Any status is a
/// response; the transport leaves its meaning to the caller.
#[derive(Debug)]
pub struct Response {
    pub status: u16,
    pub headers: Vec<Header>,
    pub body: Vec<u8>,
}

/// A response, as plain values.
pub struct ResponseView {
    pub status: u16,
    pub headers: Seq<HeaderView>,
    pub body: Seq<u8>,
}

impl View for Response {
    type V = ResponseView;

    open spec fn view(&self) -> ResponseView {
        ResponseView {
            status: self.status,
            headers: header_views(self.headers@),
            body: self.body@,
        }
    }
}

impl Response {
    /// The status code.
    pub fn status_code(&self) -> (r: u16)
        ensures
            r == self@.status,
    {
        self.status
    }

    /// Whether the status is in the 2xx range.
    pub fn is_success(&self) -> (r: bool)
        ensures
            r == (200 <= self@.status < 300),
    {
        200 <= self.status && self.status < 300
    }

    /// The value of the last header with the name `name`.
    pub fn header(&self, name: &[u8]) -> (r: Option<&[u8]>)
        ensures
            match r {
                Some(value) => lookup(self@.headers, name@) == Some(value@),
                None => lookup(self@.headers, name@).is_none(),
            },
    {
        find_value(&self.headers, name)
    }

    /// The body.
    pub fn body(&self) -> (r: &[u8])
        ensures
            r@ == self@.body,
    {
        self.body.as_slice()
    }
}

} // verus!
