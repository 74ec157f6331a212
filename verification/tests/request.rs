use opensearch_transport::headers::Header;
use opensearch_transport::pool::Node;
use opensearch_transport::request::{
    push_escaped, push_query, url, Method, Param, RequestDescriptor, Response,
};

fn param(name: &[u8], value: &[u8]) -> Param {
    Param { name: name.to_vec(), value: value.to_vec() }
}

fn escaped(s: &[u8]) -> Vec<u8> {
    let mut out = Vec::new();
    push_escaped(&mut out, s);
    out
}

#[test]
fn unreserved_bytes_stand_for_themselves() {
    assert_eq!(escaped(b"AZaz09-._~"), b"AZaz09-._~".to_vec());
    assert_eq!(escaped(b""), b"".to_vec());
}

#[test]
fn other_bytes_are_written_in_hexadecimal() {
    assert_eq!(escaped(b"a b"), b"a%20b".to_vec());
    assert_eq!(escaped(b"a+b&c=d"), b"a%2Bb%26c%3Dd".to_vec());
    assert_eq!(escaped(b"/?#%"), b"%2F%3F%23%25".to_vec());
    assert_eq!(escaped(&[0x00, 0x0a, 0x7f, 0xff, 0xc3, 0xa9]), b"%00%0A%7F%FF%C3%A9".to_vec());
    assert_eq!(escaped(b"*"), b"%2A".to_vec());
}

#[test]
fn push_escaped_appends() {
    let mut out = b"q=".to_vec();
    push_escaped(&mut out, b"x y");
    assert_eq!(out, b"q=x%20y".to_vec());
}

#[test]
fn the_query_joins_the_parameters() {
    let mut out = Vec::new();
    push_query(&mut out, &Vec::new());
    assert_eq!(out, b"".to_vec());
    push_query(&mut out, &vec![param(b"pretty", b"true")]);
    assert_eq!(out, b"?pretty=true".to_vec());
    let mut out = b"/x".to_vec();
    push_query(&mut out, &vec![param(b"a", b"1"), param(b"b c", b""), param(b"", b"&")]);
    assert_eq!(out, b"/x?a=1&b%20c=&=%26".to_vec());
}

#[test]
fn the_url_is_address_path_and_query() {
    let node = Node::parse(b"https://localhost:9200").unwrap();
    assert_eq!(url(&node, b"/", &Vec::new()), b"https://localhost:9200/".to_vec());
    assert_eq!(url(&node, b"", &Vec::new()), b"https://localhost:9200/".to_vec());
    assert_eq!(
        url(&node, b"/_cluster/health", &vec![param(b"pretty", b"true"), param(b"q", b"a b&c")]),
        b"https://localhost:9200/_cluster/health?pretty=true&q=a%20b%26c".to_vec()
    );
    assert_eq!(url(&node, b"posts/_doc/1", &Vec::new()), b"https://localhost:9200/posts/_doc/1".to_vec());
    assert_eq!(url(&node, b"///a//b/", &Vec::new()), b"https://localhost:9200/a//b/".to_vec());
    let plain = Node::parse(b"http://es").unwrap();
    assert_eq!(url(&plain, b"/_bulk", &Vec::new()), b"http://es:80/_bulk".to_vec());
}

#[test]
fn a_new_descriptor_is_bare() {
    let d = RequestDescriptor::new(Method::Post, b"/posts/_doc");
    assert_eq!(d.method, Method::Post);
    assert_eq!(d.path, b"/posts/_doc".to_vec());
    assert!(d.query.is_empty());
    assert!(d.headers.is_empty());
    assert!(d.body.is_none());
    assert!(d.timeout_ms.is_none());
}

#[test]
fn a_response_answers_for_its_parts() {
    let response = Response {
        status: 404,
        headers: vec![
            Header { name: b"Content-Type".to_vec(), value: b"application/json".to_vec() },
            Header { name: b"content-length".to_vec(), value: b"2".to_vec() },
        ],
        body: b"{}".to_vec(),
    };
    assert_eq!(response.status_code(), 404);
    assert!(!response.is_success());
    assert_eq!(response.header(b"content-type"), Some(&b"application/json"[..]));
    assert_eq!(response.header(b"CONTENT-LENGTH"), Some(&b"2"[..]));
    assert_eq!(response.header(b"etag"), None);
    assert_eq!(response.body(), b"{}");
}

#[test]
fn success_is_the_2xx_range() {
    for (status, expected) in [(199, false), (200, true), (204, true), (299, true), (300, false), (500, false)] {
        let response = Response { status, headers: Vec::new(), body: Vec::new() };
        assert_eq!(response.is_success(), expected);
    }
}
