//! Cluster nodes and the pools that hand them out.
//!
//! A pool never changes its nodes.  The single-node pool has no state at
//! all.  The multi-node pool selects round-robin by a ticket number; the
//! [`Cursor`] that issues the tickets is the only thing that changes from
//! one selection to the next.

use vstd::prelude::*;
use vstd::string::*;
use crate::error::ConfigurationError;
use crate::text::{
    ascii, bytes_of, contents, copy, copy_all, find, find_from, lemma_find_from, matches_at,
    occurs_at, push_all, slice_copy,
};

verus! {

/// The scheme of a node address.
#[derive(Clone, Copy, Debug, PartialEq, Eq, Structural)]
pub enum Scheme {
    Http,
    Https,
}

impl Scheme {
    /// Whether connections to a node with this scheme are wrapped in TLS.
    pub open spec fn secure(self) -> bool {
        self == Scheme::Https
    }

    /// The port that an address with this scheme and no port means.
    pub open spec fn spec_default_port(self) -> u16 {
        match self {
            Scheme::Http => 80,
            Scheme::Https => 443,
        }
    }

    /// The scheme as it is written in an address.
    pub open spec fn spec_text(self) -> Seq<u8> {
        match self {
            Scheme::Http => ascii("http"@),
            Scheme::Https => ascii("https"@),
        }
    }

    /// Whether connections to a node with this scheme are wrapped in TLS.
    pub fn is_secure(&self) -> (r: bool)
        ensures
            r == self.secure(),
    {
        match self {
            Scheme::Https => true,
            Scheme::Http => false,
        }
    }

    /// The port that an address with this scheme and no port means.
    pub fn default_port(&self) -> (r: u16)
        ensures
            r == self.spec_default_port(),
    {
        match self {
            Scheme::Http => 80,
            Scheme::Https => 443,
        }
    }

    /// The scheme as it is written in an address.
    pub fn text(&self) -> (r: Vec<u8>)
        ensures
            r@ == self.spec_text(),
    {
        proof {
            reveal_strlit("http");
            reveal_strlit("https");
        }
        match self {
            Scheme::Http => bytes_of("http"),
            Scheme::Https => bytes_of("https"),
        }
    }
}

/// What is known about a node beyond its address.
#[derive(Debug)]
pub struct NodeMetadata {
    /// The roles that the node plays in the cluster.
    pub roles: Vec<Vec<u8>>,
    /// The version of the software that the node runs.
    pub version: Option<Vec<u8>>,
}

/// The metadata of a node, as plain values.
pub struct MetadataView {
    pub roles: Seq<Seq<u8>>,
    pub version: Option<Seq<u8>>,
}

impl View for NodeMetadata {
    type V = MetadataView;

    open spec fn view(&self) -> MetadataView {
        MetadataView {
            roles: contents(self.roles@),
            version: match self.version {
                Some(v) => Some(v@),
                None => None,
            },
        }
    }
}

/// The contents of optional metadata.
pub open spec fn metadata_view(metadata: Option<NodeMetadata>) -> Option<MetadataView> {
    match metadata {
        Some(m) => Some(m@),
        None => None,
    }
}

/// A node, as plain values.
pub struct NodeView {
    pub scheme: Scheme,
    pub host: Seq<u8>,
    pub port: u16,
    pub metadata: Option<MetadataView>,
}

/// Whether two nodes have the same scheme, host and port.
pub open spec fn same_address(a: NodeView, b: NodeView) -> bool {
    a.scheme == b.scheme && a.host == b.host && a.port == b.port
}

/// Letters, digits, `-`, `.` and `_`.
pub open spec fn is_host_byte(b: u8) -> bool {
    (48 <= b <= 57) || (65 <= b <= 90) || (97 <= b <= 122) || b == 45 || b == 46 || b == 95
}

/// A non-empty host name made of host bytes.
pub open spec fn valid_host(host: Seq<u8>) -> bool {
    host.len() > 0 && forall|i: int| 0 <= i < host.len() ==> is_host_byte(#[trigger] host[i])
}

/// A node that can be dialled: a valid host and a port that is not zero.
pub open spec fn valid_node(node: NodeView) -> bool {
    valid_host(node.host) && node.port > 0
}

/// Whether every byte of `s` is a decimal digit.
pub open spec fn all_digits(s: Seq<u8>) -> bool {
    forall|i: int| 0 <= i < s.len() ==> 48 <= #[trigger] s[i] <= 57
}

/// The number that the decimal digits of `s` write.
pub open spec fn digits_value(s: Seq<u8>) -> nat
    decreases s.len(),
{
    if s.len() == 0 {
        0
    } else {
        digits_value(s.drop_last()) * 10 + (s.last() - 48) as nat
    }
}

/// The port that `text` writes: one to five digits with a value from 1 to
/// 65535.
pub open spec fn port_of(text: Seq<u8>) -> Option<u16> {
    if 1 <= text.len() <= 5 && all_digits(text) && 1 <= digits_value(text) <= 65535 {
        Some(digits_value(text) as u16)
    } else {
        None
    }
}

/// The node that the part of an address behind `://` names.  An address
/// says nothing of metadata.
pub open spec fn authority_of(scheme: Scheme, rest: Seq<u8>) -> Option<NodeView> {
    let rest = if rest.len() > 0 && rest.last() == 47 {
        rest.drop_last()
    } else {
        rest
    };
    match find_from(rest, seq![58u8], 0) {
        None => if valid_host(rest) {
            Some(NodeView { scheme, host: rest, port: scheme.spec_default_port(), metadata: None })
        } else {
            None
        },
        Some(colon) => {
            let host = rest.subrange(0, colon);
            match port_of(rest.subrange(colon + 1, rest.len() as int)) {
                Some(port) => if valid_host(host) {
                    Some(NodeView { scheme, host, port, metadata: None })
                } else {
                    None
                },
                None => None,
            }
        },
    }
}

/// The node that an address names.  An address is `http://` or `https://`,
/// a host, optionally `:` and a port, optionally one closing `/`.
pub open spec fn node_of_address(address: Seq<u8>) -> Option<NodeView> {
    if occurs_at(address, ascii("https://"@), 0) {
        authority_of(Scheme::Https, address.subrange(8, address.len() as int))
    } else if occurs_at(address, ascii("http://"@), 0) {
        authority_of(Scheme::Http, address.subrange(7, address.len() as int))
    } else {
        None
    }
}

/// The decimal digits of `n`.
pub open spec fn decimal(n: nat) -> Seq<u8>
    decreases n,
{
    if n < 10 {
        seq![(48 + n) as u8]
    } else {
        decimal(n / 10).push((48 + n % 10) as u8)
    }
}

/// The address of a node in full: scheme, host and port.
pub open spec fn address_of(node: NodeView) -> Seq<u8> {
    node.scheme.spec_text() + ascii("://"@) + node.host + seq![58u8] + decimal(node.port as nat)
}

/// Appends the decimal digits of `n` to `out`.
pub fn push_decimal(out: &mut Vec<u8>, n: u64)
    ensures
        final(out)@ == old(out)@ + decimal(n as nat),
    decreases n,
{
    if n < 10 {
        out.push(48 + n as u8);
        assert(out@ =~= old(out)@ + decimal(n as nat));
    } else {
        push_decimal(out, n / 10);
        out.push(48 + (n % 10) as u8);
        assert(out@ =~= old(out)@ + decimal(n as nat));
    }
}

/// Whether `b` may stand in a host name.
fn host_byte(b: u8) -> (r: bool)
    ensures
        r == is_host_byte(b),
{
    (48 <= b && b <= 57) || (65 <= b && b <= 90) || (97 <= b && b <= 122) || b == 45 || b == 46
        || b == 95
}

/// Whether `host` is a valid host name.
fn host_is_valid(host: &[u8]) -> (r: bool)
    ensures
        r == valid_host(host@),
{
    if host.len() == 0 {
        return false;
    }
    let mut i: usize = 0;
    while i < host.len()
        invariant
            i <= host.len(),
            forall|j: int| 0 <= j < i ==> is_host_byte(#[trigger] host@[j]),
        decreases host.len() - i,
    {
        if !host_byte(host[i]) {
            return false;
        }
        i += 1;
    }
    true
}

/// The port that `text` writes.
fn parse_port(text: &[u8]) -> (r: Option<u16>)
    ensures
        r == port_of(text@),
{
    if text.len() < 1 || text.len() > 5 {
        return None;
    }
    let mut value: u32 = 0;
    let mut i: usize = 0;
    while i < text.len()
        invariant
            i <= text.len() <= 5,
            all_digits(text@.subrange(0, i as int)),
            value == digits_value(text@.subrange(0, i as int)),
            value < pow10(i as nat),
        decreases text.len() - i,
    {
        let b: u8 = text[i];
        if b < 48 || b > 57 {
            return None;
        }
        proof {
            let next = text@.subrange(0, i + 1);
            assert(next.drop_last() =~= text@.subrange(0, i as int));
            assert(next.last() == b);
            assert(pow10(i as nat) <= 10000) by {
                reveal_with_fuel(pow10, 6);
            }
            reveal_with_fuel(pow10, 2);
            assert forall|j: int| 0 <= j < next.len() implies 48 <= #[trigger] next[j] <= 57 by {
                if j < i {
                    assert(next[j] == text@.subrange(0, i as int)[j]);
                }
            }
        }
        value = value * 10 + (b - 48) as u32;
        i += 1;
    }
    assert(text@.subrange(0, i as int) =~= text@);
    if value < 1 || value > 65535 {
        return None;
    }
    Some(value as u16)
}

/// Ten to the power `e`.
pub open spec fn pow10(e: nat) -> nat
    decreases e,
{
    if e == 0 {
        1
    } else {
        10 * pow10((e - 1) as nat)
    }
}

/// One addressable endpoint of the cluster.  Never changes once made.
#[derive(Debug)]
pub struct Node {
    scheme: Scheme,
    host: Vec<u8>,
    port: u16,
    metadata: Option<NodeMetadata>,
}

impl View for Node {
    type V = NodeView;

    closed spec fn view(&self) -> NodeView {
        NodeView {
            scheme: self.scheme,
            host: self.host@,
            port: self.port,
            metadata: metadata_view(self.metadata),
        }
    }
}

impl Node {
    #[verifier::type_invariant]
    spec fn well_formed(&self) -> bool {
        valid_node(self@)
    }

    /// A node with the given scheme, host and port and without metadata,
    /// unless the host is not a valid host name or the port is zero.
    pub fn new(scheme: Scheme, host: &[u8], port: u16) -> (r: Result<Node, ConfigurationError>)
        ensures
            match r {
                Ok(node) => node@ == (NodeView { scheme, host: host@, port, metadata: None })
                    && valid_node(node@),
                Err(e) => e == ConfigurationError::MalformedUrl && !valid_node(
                    NodeView { scheme, host: host@, port, metadata: None },
                ),
            },
    {
        if port == 0 || !host_is_valid(host) {
            return Err(ConfigurationError::MalformedUrl);
        }
        Ok(Node { scheme, host: copy(host), port, metadata: None })
    }

    /// This node with `metadata` in place of what was known of it.
    pub fn with_metadata(self, metadata: NodeMetadata) -> (r: Node)
        ensures
            r@ == (NodeView { metadata: Some(metadata@), ..self@ }),
            valid_node(r@),
    {
        proof {
            use_type_invariant(&self);
        }
        Node { scheme: self.scheme, host: self.host, port: self.port, metadata: Some(metadata) }
    }

    /// What is known about this node beyond its address.
    pub fn metadata(&self) -> (r: Option<&NodeMetadata>)
        ensures
            match r {
                Some(m) => self@.metadata == Some(m@),
                None => self@.metadata.is_none(),
            },
    {
        self.metadata.as_ref()
    }

    /// The node that an address names.
    pub fn parse(address: &[u8]) -> (r: Result<Node, ConfigurationError>)
        ensures
            match r {
                Ok(node) => node_of_address(address@) == Some(node@) && valid_node(node@),
                Err(e) => e == ConfigurationError::MalformedUrl && node_of_address(address@)
                    .is_none(),
            },
    {
        proof {
            reveal_strlit("https://");
            reveal_strlit("http://");
        }
        let https = bytes_of("https://");
        let http = bytes_of("http://");
        let (scheme, from) = if matches_at(address, https.as_slice(), 0) {
            (Scheme::Https, https.len())
        } else if matches_at(address, http.as_slice(), 0) {
            (Scheme::Http, http.len())
        } else {
            return Err(ConfigurationError::MalformedUrl);
        };
        let mut to: usize = address.len();
        if to > from && address[to - 1] == 47 {
            to = to - 1;
        }
        let rest = slice_copy(address, from, to);
        proof {
            let tail = address@.subrange(from as int, address@.len() as int);
            if tail.len() > 0 && tail.last() == 47 {
                assert(tail.drop_last() =~= rest@);
            } else {
                assert(tail =~= rest@);
            }
            lemma_find_from(rest@, seq![58u8], 0);
        }
        let colon: Vec<u8> = vec![58u8];
        assert(colon@ =~= seq![58u8]);
        match find(rest.as_slice(), colon.as_slice(), 0) {
            None => {
                if !host_is_valid(rest.as_slice()) {
                    return Err(ConfigurationError::MalformedUrl);
                }
                Ok(Node { scheme, host: rest, port: scheme.default_port(), metadata: None })
            },
            Some(at) => {
                let host = slice_copy(rest.as_slice(), 0, at);
                let port = match parse_port(slice_copy(rest.as_slice(), at + 1, rest.len()).as_slice()) {
                    None => {
                        return Err(ConfigurationError::MalformedUrl);
                    },
                    Some(port) => port,
                };
                if !host_is_valid(host.as_slice()) {
                    return Err(ConfigurationError::MalformedUrl);
                }
                Ok(Node { scheme, host, port, metadata: None })
            },
        }
    }

    /// The scheme of this node.
    pub fn scheme(&self) -> (r: Scheme)
        ensures
            r == self@.scheme,
    {
        self.scheme
    }

    /// The host name of this node.
    pub fn host(&self) -> (r: &[u8])
        ensures
            r@ == self@.host,
            valid_host(r@),
    {
        proof {
            use_type_invariant(self);
        }
        self.host.as_slice()
    }

    /// The port of this node.
    pub fn port(&self) -> (r: u16)
        ensures
            r == self@.port,
            r > 0,
    {
        proof {
            use_type_invariant(self);
        }
        self.port
    }

    /// A second node with the same address and metadata.
    pub fn duplicate(&self) -> (r: Node)
        ensures
            r@ == self@,
            valid_node(r@),
    {
        proof {
            use_type_invariant(self);
        }
        let metadata = match &self.metadata {
            Some(m) => Some(
                NodeMetadata {
                    roles: copy_all(&m.roles),
                    version: match &m.version {
                        Some(v) => Some(copy(v.as_slice())),
                        None => None,
                    },
                },
            ),
            None => None,
        };
        Node { scheme: self.scheme, host: copy(self.host.as_slice()), port: self.port, metadata }
    }

    /// Whether `other` has the same scheme, host and port.
    pub fn same_as(&self, other: &Node) -> (r: bool)
        ensures
            r == same_address(self@, other@),
    {
        let same_scheme = match (self.scheme, other.scheme) {
            (Scheme::Http, Scheme::Http) => true,
            (Scheme::Https, Scheme::Https) => true,
            _ => false,
        };
        let same_host = self.host.len() == other.host.len() && matches_at(
            self.host.as_slice(),
            other.host.as_slice(),
            0,
        );
        proof {
            if self.host@.len() == other.host@.len() {
                assert(self.host@.subrange(0, other.host@.len() as int) =~= self.host@);
            }
        }
        same_scheme && same_host && self.port == other.port
    }

    /// The address of this node in full: scheme, host and port.
    pub fn address(&self) -> (r: Vec<u8>)
        ensures
            r@ == address_of(self@),
    {
        proof {
            reveal_strlit("://");
        }
        let mut out = self.scheme.text();
        push_all(&mut out, bytes_of("://").as_slice());
        push_all(&mut out, self.host.as_slice());
        out.push(58);
        push_decimal(&mut out, self.port as u64);
        out
    }
}

/// The nodes of `nodes`, as plain values.
pub open spec fn node_views(nodes: Seq<Node>) -> Seq<NodeView> {
    Seq::new(nodes.len(), |i: int| nodes[i]@)
}

/// Whether some node of `nodes` is secure (`secure` true) or plain (`secure`
/// false).
pub open spec fn has_scheme(nodes: Seq<NodeView>, secure: bool) -> bool {
    exists|i: int| 0 <= i < nodes.len() && (#[trigger] nodes[i]).scheme.secure() == secure
}

/// The node that a round-robin pool over `nodes` hands out for `ticket`.
pub open spec fn selected(nodes: Seq<NodeView>, ticket: nat) -> NodeView
    recommends
        nodes.len() > 0,
{
    nodes[(ticket % nodes.len()) as int]
}

/// Issues the tickets by which a pool selects.  It is the only state that a
/// selection changes.
#[derive(Debug)]
pub struct Cursor {
    ticket: u64,
}

impl View for Cursor {
    type V = nat;

    closed spec fn view(&self) -> nat {
        self.ticket as nat
    }
}

impl Cursor {
    /// A cursor whose first ticket is 0.
    pub fn new() -> (r: Cursor)
        ensures
            r@ == 0,
    {
        Cursor { ticket: 0 }
    }

    /// A cursor whose first ticket is `ticket`.
    pub fn starting_at(ticket: u64) -> (r: Cursor)
        ensures
            r@ == ticket,
    {
        Cursor { ticket }
    }

    /// Hands out the current ticket and moves on to the next; after the
    /// largest ticket comes 0 again.
    pub fn take(&mut self) -> (ticket: u64)
        ensures
            ticket == old(self)@,
            final(self)@ == if old(self)@ == u64::MAX {
                0
            } else {
                old(self)@ + 1
            },
    {
        let ticket = self.ticket;
        self.ticket = if ticket == u64::MAX {
            0
        } else {
            ticket + 1
        };
        ticket
    }
}

/// A pool of exactly one node, which it always hands out.
#[derive(Debug)]
pub struct SingleNodeConnectionPool {
    node: Node,
}

impl SingleNodeConnectionPool {
    /// The node of this pool.
    pub closed spec fn node(&self) -> NodeView {
        self.node@
    }

    /// A pool that holds `node` alone.
    pub fn new(node: Node) -> (r: SingleNodeConnectionPool)
        ensures
            r.node() == node@,
    {
        SingleNodeConnectionPool { node }
    }

    /// The node of this pool: the same on every call.
    pub fn next_node(&self) -> (r: Node)
        ensures
            r@ == self.node(),
            valid_node(r@),
    {
        self.node.duplicate()
    }
}

/// A pool of several equivalent nodes, selected round-robin.
#[derive(Debug)]
pub struct MultiNodeConnectionPool {
    nodes: Vec<Node>,
}

impl MultiNodeConnectionPool {
    /// The nodes of this pool, in the order in which they were given.
    pub closed spec fn nodes(&self) -> Seq<NodeView> {
        node_views(self.nodes@)
    }

    /// A pool over `nodes`, which may still be empty.
    pub fn new(nodes: Vec<Node>) -> (r: MultiNodeConnectionPool)
        ensures
            r.nodes() == node_views(nodes@),
    {
        MultiNodeConnectionPool { nodes }
    }

    /// The number of nodes.
    pub fn len(&self) -> (n: usize)
        ensures
            n == self.nodes().len(),
    {
        self.nodes.len()
    }

    /// The node that stands for `ticket`, or nothing if the pool is empty.
    pub fn node_for(&self, ticket: u64) -> (r: Option<Node>)
        ensures
            match r {
                Some(node) => self.nodes().len() > 0 && node@ == selected(self.nodes(), ticket as nat)
                    && valid_node(node@),
                None => self.nodes().len() == 0,
            },
    {
        let n = self.nodes.len();
        if n == 0 {
            return None;
        }
        let i = (ticket % (n as u64)) as usize;
        Some(self.nodes[i].duplicate())
    }

    /// The next node in turn, or nothing if the pool is empty.  The pool
    /// itself is left as it was; only the cursor moves.
    pub fn next_node(&self, cursor: &mut Cursor) -> (r: Option<Node>)
        ensures
            match r {
                Some(node) => self.nodes().len() > 0 && node@ == selected(self.nodes(), old(cursor)@)
                    && valid_node(node@),
                None => self.nodes().len() == 0,
            },
            final(cursor)@ == if old(cursor)@ == u64::MAX {
                0
            } else {
                old(cursor)@ + 1
            },
    {
        let ticket = cursor.take();
        self.node_for(ticket)
    }
}

/// A single-node pool or a multi-node pool.
#[derive(Debug)]
pub enum ConnectionPool {
    Single(SingleNodeConnectionPool),
    Multi(MultiNodeConnectionPool),
}

impl ConnectionPool {
    /// The nodes of this pool.
    pub open spec fn nodes(&self) -> Seq<NodeView> {
        match self {
            ConnectionPool::Single(pool) => seq![pool.node()],
            ConnectionPool::Multi(pool) => pool.nodes(),
        }
    }

    /// Whether the pool holds no node.
    pub fn is_empty(&self) -> (r: bool)
        ensures
            r == (self.nodes().len() == 0),
    {
        match self {
            ConnectionPool::Single(_) => false,
            ConnectionPool::Multi(pool) => pool.len() == 0,
        }
    }

    /// The next node in turn, or nothing if the pool is empty.
    pub fn next_node(&self, cursor: &mut Cursor) -> (r: Option<Node>)
        ensures
            match r {
                Some(node) => self.nodes().len() > 0 && node@ == selected(self.nodes(), old(cursor)@)
                    && valid_node(node@),
                None => self.nodes().len() == 0,
            },
            final(cursor)@ == if old(cursor)@ == u64::MAX {
                0
            } else {
                old(cursor)@ + 1
            },
    {
        match self {
            ConnectionPool::Single(pool) => {
                let _ = cursor.take();
                Some(pool.next_node())
            },
            ConnectionPool::Multi(pool) => pool.next_node(cursor),
        }
    }

    /// Whether some node of the pool is secure (`secure` true) or plain
    /// (`secure` false).
    pub fn has_node_with(&self, secure: bool) -> (r: bool)
        ensures
            r == has_scheme(self.nodes(), secure),
    {
        match self {
            ConnectionPool::Single(pool) => {
                let r = pool.node.scheme().is_secure() == secure;
                assert(self.nodes()[0] == pool.node());
                r
            },
            ConnectionPool::Multi(pool) => {
                let mut i: usize = 0;
                while i < pool.nodes.len()
                    invariant
                        i <= pool.nodes.len(),
                        self.nodes() == node_views(pool.nodes@),
                        forall|j: int|
                            0 <= j < i ==> (#[trigger] self.nodes()[j]).scheme.secure() != secure,
                    decreases pool.nodes.len() - i,
                {
                    if pool.nodes[i].scheme().is_secure() == secure {
                        assert(self.nodes()[i as int].scheme.secure() == secure);
                        return true;
                    }
                    i += 1;
                }
                false
            },
        }
    }
}

/// The address of the cluster where none is configured.
pub const DEFAULT_ADDRESS: &'static str = "http://localhost:9200";

/// The bytes of [`DEFAULT_ADDRESS`].
pub open spec fn default_address() -> Seq<u8> {
    ascii("http://localhost:9200"@)
}

/// The address of the cluster: the configured one, or the default where
/// none is configured.
pub fn cluster_addr(configured: Option<&[u8]>) -> (r: Vec<u8>)
    ensures
        r@ == match configured {
            Some(address) => address@,
            None => default_address(),
        },
{
    proof {
        reveal_strlit("http://localhost:9200");
    }
    match configured {
        Some(address) => copy(address),
        None => bytes_of("http://localhost:9200"),
    }
}

/// A single-node pool hands out its one node for every ticket.
pub proof fn lemma_single_node_is_constant(node: NodeView, first: nat, second: nat)
    ensures
        selected(seq![node], first) == node,
        selected(seq![node], first) == selected(seq![node], second),
{
}

/// Round-robin selection is fair: among any `nodes.len()` tickets in a row
/// each node is handed out.
pub proof fn lemma_round_robin_reaches_every_node(nodes: Seq<NodeView>, first: nat, i: int) -> (k:
    nat)
    requires
        0 <= i < nodes.len(),
    ensures
        k < nodes.len(),
        selected(nodes, first + k) == nodes[i],
{
    let n = nodes.len();
    let r = first % n;
    let k: nat = if r <= i {
        (i - r) as nat
    } else {
        (i + n - r) as nat
    };
    assert((first + k) % n == i) by (nonlinear_arith)
        requires
            n > 0,
            0 <= i < n,
            r == first % n,
            k == if r <= i {
                (i - r) as nat
            } else {
                (i + n - r) as nat
            },
    ;
    k
}

/// Round-robin selection repeats with the period of the pool's size.
pub proof fn lemma_round_robin_period(nodes: Seq<NodeView>, ticket: nat)
    requires
        nodes.len() > 0,
    ensures
        selected(nodes, ticket + nodes.len()) == selected(nodes, ticket),
{
    let n = nodes.len();
    assert((ticket + n) % n == ticket % n) by (nonlinear_arith)
        requires
            n > 0,
    ;
}

/// The decimal digits of a number are digits, at least one of them, and
/// write that number.
pub proof fn lemma_decimal_writes_its_number(n: nat)
    ensures
        decimal(n).len() >= 1,
        all_digits(decimal(n)),
        digits_value(decimal(n)) == n,
    decreases n,
{
    if n < 10 {
        let d = decimal(n);
        assert(d.drop_last() =~= Seq::<u8>::empty());
        assert(digits_value(d.drop_last()) == 0);
    } else {
        lemma_decimal_writes_its_number(n / 10);
        let d = decimal(n);
        let init = decimal(n / 10);
        assert(d.drop_last() =~= init);
        assert(d.last() == (48 + n % 10) as u8);
        assert forall|i: int| 0 <= i < d.len() implies 48 <= #[trigger] d[i] <= 57 by {
            if i < init.len() {
                assert(d[i] == init[i]);
            }
        }
    }
}

/// A number below ten to the power `k` has at most `k` decimal digits.
pub proof fn lemma_decimal_len(n: nat, k: nat)
    requires
        k >= 1,
        n < pow10(k),
    ensures
        decimal(n).len() <= k,
    decreases n,
{
    reveal_with_fuel(pow10, 2);
    if n >= 10 {
        if k == 1 {
            assert(pow10(1) == 10);
        } else {
            assert(pow10(k) == 10 * pow10((k - 1) as nat));
            lemma_decimal_len(n / 10, (k - 1) as nat);
        }
    }
}

/// A port comes back from its decimal digits.
pub proof fn lemma_port_round_trip(port: u16)
    requires
        port > 0,
    ensures
        port_of(decimal(port as nat)) == Some(port),
{
    lemma_decimal_writes_its_number(port as nat);
    assert(pow10(5) == 100000) by {
        reveal_with_fuel(pow10, 6);
    }
    lemma_decimal_len(port as nat, 5);
}

/// A text whose first colon stands at `at` is found to have it there.
proof fn lemma_first_colon(rest: Seq<u8>, at: int, from: int)
    requires
        0 <= from <= at < rest.len(),
        rest[at] == 58,
        forall|k: int| from <= k < at ==> rest[k] != 58,
    ensures
        find_from(rest, seq![58u8], from) == Some(at),
    decreases at - from,
{
    let colon = seq![58u8];
    if from == at {
        assert(rest.subrange(at, at + 1) =~= colon);
    } else {
        assert(rest.subrange(from, from + 1)[0] == rest[from]);
        assert(!occurs_at(rest, colon, from));
        lemma_first_colon(rest, at, from + 1);
    }
}

/// What follows `://` in the address of a valid node names that node.
proof fn lemma_authority_round_trip(node: NodeView)
    requires
        valid_node(node),
    ensures
        authority_of(node.scheme, node.host + seq![58u8] + decimal(node.port as nat)) == Some(
            NodeView { metadata: None, ..node },
        ),
{
    let digits = decimal(node.port as nat);
    let rest = node.host + seq![58u8] + digits;
    let at = node.host.len() as int;
    lemma_decimal_writes_its_number(node.port as nat);
    lemma_port_round_trip(node.port);
    assert(rest.len() == at + 1 + digits.len());
    assert(rest.last() == digits.last());
    assert(rest[at] == 58);
    assert forall|k: int| 0 <= k < at implies rest[k] != 58 by {
        assert(rest[k] == node.host[k]);
        assert(is_host_byte(node.host[k]));
    }
    lemma_first_colon(rest, at, 0);
    assert(rest.subrange(0, at) =~= node.host);
    assert(rest.subrange(at + 1, rest.len() as int) =~= digits);
}

/// Reading the address of a valid node gives that node, without its
/// metadata: what [`Node::address`] writes, [`Node::parse`] reads back.
pub proof fn lemma_address_names_its_node(node: NodeView)
    requires
        valid_node(node),
    ensures
        node_of_address(address_of(node)) == Some(NodeView { metadata: None, ..node }),
{
    reveal_strlit("http");
    reveal_strlit("https");
    reveal_strlit("://");
    reveal_strlit("https://");
    reveal_strlit("http://");
    let address = address_of(node);
    let rest = node.host + seq![58u8] + decimal(node.port as nat);
    lemma_authority_round_trip(node);
    match node.scheme {
        Scheme::Https => {
            assert(address.subrange(0, 8) =~= ascii("https://"@));
            assert(address.subrange(8, address.len() as int) =~= rest);
        },
        Scheme::Http => {
            assert(address[4] == 58);
            if occurs_at(address, ascii("https://"@), 0) {
                assert(address.subrange(0, 8)[4] == ascii("https://"@)[4]);
            }
            assert(address.subrange(0, 7) =~= ascii("http://"@));
            assert(address.subrange(7, address.len() as int) =~= rest);
        },
    }
}

} // verus!
