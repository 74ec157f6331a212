use opensearch_transport::auth::{basic, Credentials};
use opensearch_transport::headers::{
    contains_name, find_value, header_is_valid, headers_are_valid, merge, names_match, Header,
};

fn header(name: &[u8], value: &[u8]) -> Header {
    Header { name: name.to_vec(), value: value.to_vec() }
}

fn pairs(headers: &[Header]) -> Vec<(Vec<u8>, Vec<u8>)> {
    headers.iter().map(|h| (h.name.clone(), h.value.clone())).collect()
}

#[test]
fn names_are_compared_without_regard_to_case() {
    assert!(names_match(b"Content-Type", b"content-type"));
    assert!(names_match(b"ACCEPT", b"accept"));
    assert!(names_match(b"", b""));
    assert!(!names_match(b"accept", b"accept-encoding"));
    assert!(!names_match(b"x-a", b"x_a"));
    assert!(!names_match(b"@", b"`"));
    assert!(!names_match(b"[", b"{"));
}

#[test]
fn merge_lets_the_second_list_win() {
    let base = vec![header(b"Accept", b"text/plain"), header(b"X-Base", b"1"), header(b"x-opaque-id", b"old")];
    let over = vec![header(b"accept", b"application/json"), header(b"X-Opaque-Id", b"new")];
    let merged = merge(&base, &over);
    assert_eq!(
        pairs(&merged),
        vec![
            (b"X-Base".to_vec(), b"1".to_vec()),
            (b"accept".to_vec(), b"application/json".to_vec()),
            (b"X-Opaque-Id".to_vec(), b"new".to_vec()),
        ]
    );
}

#[test]
fn merge_with_an_empty_list_changes_nothing() {
    let base = vec![header(b"a", b"1"), header(b"b", b"2")];
    assert_eq!(pairs(&merge(&base, &Vec::new())), pairs(&base));
    assert_eq!(pairs(&merge(&Vec::new(), &base)), pairs(&base));
    assert!(merge(&Vec::new(), &Vec::new()).is_empty());
}

#[test]
fn find_value_gives_the_last_header_of_a_name() {
    let headers = vec![header(b"a", b"1"), header(b"B", b"2"), header(b"A", b"3")];
    assert_eq!(find_value(&headers, b"a"), Some(&b"3"[..]));
    assert_eq!(find_value(&headers, b"b"), Some(&b"2"[..]));
    assert_eq!(find_value(&headers, b"c"), None);
    assert!(contains_name(&headers, b"b"));
    assert!(!contains_name(&headers, b"c"));
}

#[test]
fn a_header_that_could_break_its_line_is_invalid() {
    assert!(header_is_valid(&header(b"x-opaque-id", b"some value\twith a tab")));
    assert!(header_is_valid(&header(b"a", b"")));
    assert!(!header_is_valid(&header(b"", b"v")));
    assert!(!header_is_valid(&header(b"x y", b"v")));
    assert!(!header_is_valid(&header(b"x:y", b"v")));
    assert!(!header_is_valid(&header(b"x", b"v\r\nInjected: 1")));
    assert!(!header_is_valid(&header(b"x", b"v\n")));
    assert!(!header_is_valid(&header(b"x", &[0x7f])));
    assert!(!header_is_valid(&header(b"x", &[0])));
    assert!(header_is_valid(&header(b"x", &[0x80, 0xff])));
    assert!(headers_are_valid(&vec![header(b"a", b"1"), header(b"b", b"2")]));
    assert!(!headers_are_valid(&vec![header(b"a", b"1"), header(b"b\n", b"2")]));
    assert!(headers_are_valid(&Vec::new()));
}

#[test]
fn basic_authorization_of_admin() {
    assert_eq!(basic(b"admin", b"admin"), b"Basic YWRtaW46YWRtaW4=".to_vec());
    assert_eq!(basic(b"", b""), b"Basic Og==".to_vec());
    assert_eq!(
        basic(b"Aladdin", b"open sesame"),
        b"Basic QWxhZGRpbjpvcGVuIHNlc2FtZQ==".to_vec()
    );
}

#[test]
fn authorization_of_each_kind_of_credentials() {
    let basic = Credentials::Basic(b"admin".to_vec(), b"admin".to_vec());
    assert_eq!(basic.authorization(), b"Basic YWRtaW46YWRtaW4=".to_vec());
    let bearer = Credentials::Bearer(b"t0k3n".to_vec());
    assert_eq!(bearer.authorization(), b"Bearer t0k3n".to_vec());
    let key = Credentials::ApiKey(b"id".to_vec(), b"key".to_vec());
    assert_eq!(key.authorization(), b"ApiKey aWQ6a2V5".to_vec());
    let h = key.header();
    assert_eq!(h.name, b"authorization".to_vec());
    assert_eq!(h.value, b"ApiKey aWQ6a2V5".to_vec());
}
