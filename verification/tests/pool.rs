use opensearch_transport::error::ConfigurationError;
use opensearch_transport::pool::{
    cluster_addr, push_decimal, ConnectionPool, Cursor, MultiNodeConnectionPool, Node,
    NodeMetadata, Scheme, SingleNodeConnectionPool, DEFAULT_ADDRESS,
};

fn node(address: &[u8]) -> Node {
    Node::parse(address).unwrap()
}

fn parts(n: &Node) -> (Scheme, Vec<u8>, u16) {
    (n.scheme(), n.host().to_vec(), n.port())
}

#[test]
fn single_node_pool_always_returns_its_node() {
    let pool = SingleNodeConnectionPool::new(node(b"https://localhost:9200"));
    for _ in 0..100 {
        let next = pool.next_node();
        assert_eq!(parts(&next), (Scheme::Https, b"localhost".to_vec(), 9200));
    }
}

#[test]
fn single_node_pool_ignores_the_cursor() {
    let pool = ConnectionPool::Single(SingleNodeConnectionPool::new(node(b"http://a:1")));
    let mut cursor = Cursor::starting_at(u64::MAX - 1);
    for _ in 0..5 {
        let next = pool.next_node(&mut cursor).unwrap();
        assert_eq!(parts(&next), (Scheme::Http, b"a".to_vec(), 1));
    }
    assert!(!pool.is_empty());
}

#[test]
fn parse_reads_scheme_host_and_port() {
    assert_eq!(parts(&node(b"http://localhost:9200")), (Scheme::Http, b"localhost".to_vec(), 9200));
    assert_eq!(
        parts(&node(b"https://es-1.example.org:443/")),
        (Scheme::Https, b"es-1.example.org".to_vec(), 443)
    );
    assert_eq!(parts(&node(b"http://10.0.0.7:65535")), (Scheme::Http, b"10.0.0.7".to_vec(), 65535));
    assert_eq!(parts(&node(b"http://h:00080")), (Scheme::Http, b"h".to_vec(), 80));
}

#[test]
fn parse_fills_in_the_port_of_the_scheme() {
    assert_eq!(parts(&node(b"http://localhost")), (Scheme::Http, b"localhost".to_vec(), 80));
    assert_eq!(parts(&node(b"https://localhost/")), (Scheme::Https, b"localhost".to_vec(), 443));
    assert_eq!(Scheme::Http.default_port(), 80);
    assert_eq!(Scheme::Https.default_port(), 443);
    assert!(Scheme::Https.is_secure());
    assert!(!Scheme::Http.is_secure());
}

#[test]
fn parse_refuses_what_is_no_node_address() {
    let malformed: [&[u8]; 18] = [
        b"",
        b"localhost:9200",
        b"ftp://localhost:9200",
        b"HTTP://localhost:9200",
        b"http:/localhost",
        b"http://",
        b"https://",
        b"http:///",
        b"http://:9200",
        b"http://localhost:",
        b"http://localhost:0",
        b"http://localhost:65536",
        b"http://localhost:123456",
        b"http://localhost:92a0",
        b"http://localhost:9200/path",
        b"http://localhost:9200//",
        b"http://user@localhost:9200",
        b"http://local host",
    ];
    for address in malformed {
        assert_eq!(Node::parse(address).unwrap_err(), ConfigurationError::MalformedUrl);
    }
    assert_eq!(Node::parse(b"http://[::1]:9200").unwrap_err(), ConfigurationError::MalformedUrl);
}

#[test]
fn new_refuses_an_invalid_host_or_port() {
    assert!(Node::new(Scheme::Http, b"localhost", 9200).is_ok());
    assert_eq!(Node::new(Scheme::Http, b"", 9200).unwrap_err(), ConfigurationError::MalformedUrl);
    assert_eq!(
        Node::new(Scheme::Http, b"localhost", 0).unwrap_err(),
        ConfigurationError::MalformedUrl
    );
    assert_eq!(
        Node::new(Scheme::Http, b"a/b", 9200).unwrap_err(),
        ConfigurationError::MalformedUrl
    );
}

#[test]
fn address_writes_scheme_host_and_port() {
    assert_eq!(node(b"http://localhost").address(), b"http://localhost:80".to_vec());
    assert_eq!(node(b"https://Es_1.x:9243/").address(), b"https://Es_1.x:9243".to_vec());
    let again = Node::parse(&node(b"https://localhost/").address()).unwrap();
    assert_eq!(parts(&again), (Scheme::Https, b"localhost".to_vec(), 443));
}

#[test]
fn a_node_carries_its_metadata_along() {
    let bare = node(b"https://a:1");
    assert!(bare.metadata().is_none());
    let known = bare.with_metadata(NodeMetadata {
        roles: vec![b"data".to_vec(), b"ingest".to_vec()],
        version: Some(b"2.11.0".to_vec()),
    });
    assert_eq!(parts(&known), (Scheme::Https, b"a".to_vec(), 1));
    let copy = known.duplicate();
    let metadata = copy.metadata().unwrap();
    assert_eq!(metadata.roles, vec![b"data".to_vec(), b"ingest".to_vec()]);
    assert_eq!(metadata.version, Some(b"2.11.0".to_vec()));
    assert!(copy.same_as(&node(b"https://a:1")));
    let pool = SingleNodeConnectionPool::new(known);
    assert_eq!(pool.next_node().metadata().unwrap().roles.len(), 2);
    let unversioned =
        node(b"http://b:2").with_metadata(NodeMetadata { roles: Vec::new(), version: None });
    let metadata_copy = unversioned.duplicate();
    assert!(metadata_copy.metadata().unwrap().roles.is_empty());
    assert_eq!(metadata_copy.metadata().unwrap().version, None);
}

#[test]
fn the_default_address_names_a_node() {
    let address = cluster_addr(None);
    assert_eq!(address, DEFAULT_ADDRESS.as_bytes().to_vec());
    assert_eq!(address, b"http://localhost:9200".to_vec());
    assert_eq!(parts(&node(&address)), (Scheme::Http, b"localhost".to_vec(), 9200));
    assert_eq!(cluster_addr(Some(b"https://other:1")), b"https://other:1".to_vec());
}

#[test]
fn same_as_compares_scheme_host_and_port() {
    let a = node(b"http://a:1");
    assert!(a.same_as(&a.duplicate()));
    assert!(!a.same_as(&node(b"https://a:1")));
    assert!(!a.same_as(&node(b"http://b:1")));
    assert!(!a.same_as(&node(b"http://a:2")));
    assert!(!a.same_as(&node(b"http://ab:1")));
    assert!(!node(b"http://ab:1").same_as(&a));
}

#[test]
fn push_decimal_writes_the_digits() {
    let mut out = b"n=".to_vec();
    push_decimal(&mut out, 0);
    out.push(b',');
    push_decimal(&mut out, 9);
    out.push(b',');
    push_decimal(&mut out, 10);
    out.push(b',');
    push_decimal(&mut out, 65535);
    out.push(b',');
    push_decimal(&mut out, u64::MAX);
    assert_eq!(out, b"n=0,9,10,65535,18446744073709551615".to_vec());
}

fn three_nodes() -> MultiNodeConnectionPool {
    MultiNodeConnectionPool::new(vec![node(b"http://a:1"), node(b"http://b:2"), node(b"http://c:3")])
}

#[test]
fn multi_node_pool_selects_round_robin() {
    let pool = three_nodes();
    assert_eq!(pool.len(), 3);
    let mut cursor = Cursor::new();
    let mut ports = Vec::new();
    for _ in 0..7 {
        ports.push(pool.next_node(&mut cursor).unwrap().port());
    }
    assert_eq!(ports, vec![1, 2, 3, 1, 2, 3, 1]);
}

#[test]
fn multi_node_pool_reaches_every_node_from_any_start() {
    let pool = three_nodes();
    for start in [0u64, 1, 2, 3, 1000, u64::MAX - 5] {
        let mut cursor = Cursor::starting_at(start);
        let mut seen = [false; 3];
        for _ in 0..3 {
            let port = pool.next_node(&mut cursor).unwrap().port();
            seen[(port - 1) as usize] = true;
        }
        assert_eq!(seen, [true, true, true]);
    }
}

#[test]
fn node_for_takes_the_ticket_modulo_the_size() {
    let pool = three_nodes();
    assert_eq!(pool.node_for(0).unwrap().port(), 1);
    assert_eq!(pool.node_for(4).unwrap().port(), 2);
    assert_eq!(pool.node_for(5).unwrap().port(), 3);
    assert_eq!(pool.node_for(u64::MAX).unwrap().port(), 1);
}

#[test]
fn cursor_starts_again_after_the_largest_ticket() {
    let mut cursor = Cursor::starting_at(u64::MAX - 1);
    assert_eq!(cursor.take(), u64::MAX - 1);
    assert_eq!(cursor.take(), u64::MAX);
    assert_eq!(cursor.take(), 0);
    assert_eq!(cursor.take(), 1);
    let mut fresh = Cursor::new();
    assert_eq!(fresh.take(), 0);
}

#[test]
fn an_empty_pool_hands_out_nothing() {
    let pool = MultiNodeConnectionPool::new(Vec::new());
    assert_eq!(pool.len(), 0);
    let mut cursor = Cursor::new();
    assert!(pool.next_node(&mut cursor).is_none());
    assert!(pool.node_for(7).is_none());
    assert_eq!(cursor.take(), 1);
    let pool = ConnectionPool::Multi(pool);
    assert!(pool.is_empty());
    assert!(pool.next_node(&mut cursor).is_none());
}

#[test]
fn has_node_with_looks_at_every_scheme() {
    let plain = ConnectionPool::Single(SingleNodeConnectionPool::new(node(b"http://a:1")));
    assert!(plain.has_node_with(false));
    assert!(!plain.has_node_with(true));
    let mixed = ConnectionPool::Multi(MultiNodeConnectionPool::new(vec![
        node(b"https://a:1"),
        node(b"http://b:2"),
    ]));
    assert!(mixed.has_node_with(false));
    assert!(mixed.has_node_with(true));
    let empty = ConnectionPool::Multi(MultiNodeConnectionPool::new(Vec::new()));
    assert!(!empty.has_node_with(false));
    assert!(!empty.has_node_with(true));
}
