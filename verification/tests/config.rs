use opensearch_transport::auth::Credentials;
use opensearch_transport::cert::{Certificate, CertificateValidation};
use opensearch_transport::config::{
    TransportBuilder, TransportConfig, Warning, DEFAULT_MAX_ATTEMPTS, DEFAULT_TIMEOUT_MS,
};
use opensearch_transport::error::{ConfigurationError, ErrorKind, TransportError};
use opensearch_transport::pool::{
    ConnectionPool, MultiNodeConnectionPool, Node, SingleNodeConnectionPool,
};

const PEM: &[u8] = b"-----BEGIN CERTIFICATE-----\nAQIDBAU=\n-----END CERTIFICATE-----\n";

fn single(address: &[u8]) -> ConnectionPool {
    ConnectionPool::Single(SingleNodeConnectionPool::new(Node::parse(address).unwrap()))
}

fn multi(addresses: &[&[u8]]) -> ConnectionPool {
    ConnectionPool::Multi(MultiNodeConnectionPool::new(
        addresses.iter().map(|a| Node::parse(a).unwrap()).collect(),
    ))
}

fn defect(builder: TransportBuilder) -> ConfigurationError {
    match builder.build() {
        Ok(_) => panic!("the configuration was accepted"),
        Err(e) => e,
    }
}

fn built(builder: TransportBuilder) -> TransportConfig {
    builder.build().unwrap()
}

#[test]
fn a_new_builder_has_the_defaults() {
    let config = built(TransportBuilder::new(single(b"https://localhost:9200")));
    assert!(config.credentials().is_none());
    assert!(config.proxy().is_none());
    assert!(config.headers().is_empty());
    assert_eq!(config.timeout_ms(), DEFAULT_TIMEOUT_MS);
    assert_eq!(config.timeout_ms(), 60000);
    assert_eq!(config.max_attempts(), DEFAULT_MAX_ATTEMPTS);
    assert_eq!(config.max_attempts(), 1);
    assert!(matches!(config.cert_validation(), CertificateValidation::Default));
    assert!(config.warnings().is_empty());
    assert!(!config.pool().is_empty());
}

#[test]
fn the_builder_keeps_what_it_is_given() {
    let proxy = Node::parse(b"http://localhost:8888").unwrap();
    let config = built(
        TransportBuilder::new(single(b"https://localhost:9200"))
            .auth(Credentials::Bearer(b"t".to_vec()))
            .cert_validation(CertificateValidation::Full(Certificate::from_pem(PEM).unwrap()))
            .proxy(proxy, Some(b"u"), Some(b"p"))
            .header(b"x-opaque-id", b"1")
            .header(b"accept", b"application/json")
            .timeout(1500)
            .max_attempts(4),
    );
    assert!(matches!(config.credentials(), Some(Credentials::Bearer(t)) if t == b"t"));
    assert!(matches!(config.cert_validation(), CertificateValidation::Full(c) if c.len() == 1));
    let proxy = config.proxy().unwrap();
    assert_eq!(proxy.node.port(), 8888);
    assert_eq!(proxy.credentials, Some((b"u".to_vec(), b"p".to_vec())));
    assert_eq!(config.headers().len(), 2);
    assert_eq!(config.headers()[0].name, b"x-opaque-id".to_vec());
    assert_eq!(config.headers()[1].value, b"application/json".to_vec());
    assert_eq!(config.timeout_ms(), 1500);
    assert_eq!(config.max_attempts(), 4);
}

#[test]
fn a_proxy_has_credentials_only_with_user_and_password() {
    for (user, password) in [(None, None), (Some(&b"u"[..]), None), (None, Some(&b"p"[..]))] {
        let node = Node::parse(b"http://localhost:8888").unwrap();
        let config =
            built(TransportBuilder::new(single(b"http://a:1")).proxy(node, user, password));
        assert_eq!(config.proxy().unwrap().credentials, None);
    }
}

#[test]
fn an_empty_pool_is_refused_when_the_configuration_is_built() {
    assert_eq!(defect(TransportBuilder::new(multi(&[]))), ConfigurationError::EmptyPool);
    assert_eq!(
        defect(TransportBuilder::new(multi(&[])).max_attempts(0).timeout(0)),
        ConfigurationError::EmptyPool
    );
}

#[test]
fn an_attempt_limit_of_zero_is_refused() {
    let builder = TransportBuilder::new(single(b"http://a:1")).max_attempts(0).timeout(0);
    assert_eq!(defect(builder), ConfigurationError::ZeroAttempts);
}

#[test]
fn a_timeout_of_zero_is_refused() {
    let builder = TransportBuilder::new(single(b"http://a:1")).timeout(0).header(b"", b"");
    assert_eq!(defect(builder), ConfigurationError::ZeroTimeout);
}

#[test]
fn an_invalid_default_header_is_refused() {
    let builder = TransportBuilder::new(single(b"http://a:1")).header(b"x", b"a\r\nb: c");
    assert_eq!(defect(builder), ConfigurationError::InvalidHeader);
    let builder = TransportBuilder::new(single(b"http://a:1")).header(b"ok", b"1").header(b"", b"1");
    assert_eq!(defect(builder), ConfigurationError::InvalidHeader);
}

#[test]
fn a_malformed_address_is_a_configuration_error() {
    let e = Node::parse(b"localhost").unwrap_err();
    assert_eq!(e, ConfigurationError::MalformedUrl);
    let e = TransportError::from_configuration(e);
    assert_eq!(e.kind(), ErrorKind::Configuration);
    assert_eq!(e.message(), b"configuration error: malformed node address".to_vec());
}

#[test]
fn a_relaxed_policy_on_a_plain_node_is_warned_about() {
    let config = built(
        TransportBuilder::new(single(b"http://a:1")).cert_validation(CertificateValidation::Disabled),
    );
    assert_eq!(config.warnings(), vec![Warning::PolicyWithoutEffect]);
    let config = built(TransportBuilder::new(single(b"http://a:1")).cert_validation(
        CertificateValidation::Certificate(Certificate::from_pem(PEM).unwrap()),
    ));
    assert_eq!(config.warnings(), vec![Warning::PolicyWithoutEffect]);
    let config = built(
        TransportBuilder::new(single(b"http://a:1"))
            .cert_validation(CertificateValidation::Full(Certificate::from_pem(PEM).unwrap())),
    );
    assert!(config.warnings().is_empty());
    let config = built(TransportBuilder::new(single(b"http://a:1")));
    assert!(config.warnings().is_empty());
}

#[test]
fn validation_switched_off_on_a_secure_node_is_warned_about() {
    let config = built(
        TransportBuilder::new(single(b"https://a:1")).cert_validation(CertificateValidation::Disabled),
    );
    assert_eq!(config.warnings(), vec![Warning::ValidationDisabled]);
    let config = built(
        TransportBuilder::new(multi(&[b"https://a:1", b"http://b:2"]))
            .cert_validation(CertificateValidation::Disabled),
    );
    assert_eq!(config.warnings(), vec![Warning::PolicyWithoutEffect, Warning::ValidationDisabled]);
    let config = built(TransportBuilder::new(single(b"https://a:1")).cert_validation(
        CertificateValidation::Certificate(Certificate::from_pem(PEM).unwrap()),
    ));
    assert!(config.warnings().is_empty());
}

#[test]
fn credentials_on_a_plain_node_are_accepted() {
    let config = built(
        TransportBuilder::new(single(b"http://a:1"))
            .auth(Credentials::Basic(b"admin".to_vec(), b"admin".to_vec())),
    );
    assert!(config.credentials().is_some());
    assert!(config.warnings().is_empty());
}
