use kodex::security::url::{is_blocked_ip, parse_ipv4, validate_resolved, IpAddress, UrlError};
use kodex::security::validate_url;
use kodex::types::KodexError;

#[test]
fn test_valid_url() {
    assert!(validate_url("https://example.com/page").is_ok());
    assert!(validate_url("http://example.com").is_ok());
}

#[test]
fn test_blocked_scheme() {
    assert!(validate_url("file:///etc/passwd").is_err());
    assert!(validate_url("ftp://example.com").is_err());
    assert!(validate_url("data:text/plain,hello").is_err());
}

#[test]
fn test_blocked_metadata() {
    assert!(validate_url("http://metadata.google.internal/").is_err());
}

#[test]
fn test_blocked_private_ip() {
    assert!(validate_url("http://127.0.0.1/").is_err());
    assert!(validate_url("http://10.0.0.1/").is_err());
}

#[test]
fn url_errors_name_the_reason() {
    match validate_url("ftp://example.com") {
        Err(KodexError::UrlValidation(UrlError::BlockedScheme(s))) => assert_eq!(s, "ftp"),
        other => panic!("unexpected: {other:?}"),
    }
    match validate_url("example.com") {
        Err(KodexError::UrlValidation(UrlError::NoScheme)) => {}
        other => panic!("unexpected: {other:?}"),
    }
    match validate_url("http:///path") {
        Err(KodexError::UrlValidation(UrlError::EmptyHost)) => {}
        other => panic!("unexpected: {other:?}"),
    }
    match validate_url("http://192.168.1.5:8080/x") {
        Err(KodexError::UrlValidation(UrlError::BlockedIp(IpAddress::V4(192, 168, 1, 5)))) => {}
        other => panic!("unexpected: {other:?}"),
    }
    assert_eq!(validate_url("HTTPS://Example.com").unwrap(), "HTTPS://Example.com");
}

#[test]
fn ipv4_literals_parse_strictly() {
    let cs: Vec<char> = "10.1.2.3".chars().collect();
    assert!(matches!(parse_ipv4(&cs), Some(IpAddress::V4(10, 1, 2, 3))));
    for bad in ["256.1.1.1", "1.2.3", "01.2.3.4", "a.b.c.d", "1.2.3.4.5"] {
        let cs: Vec<char> = bad.chars().collect();
        assert!(parse_ipv4(&cs).is_none(), "{bad}");
    }
}

#[test]
fn resolved_addresses_are_checked_in_order() {
    let ok = [IpAddress::V4(93, 184, 216, 34)];
    assert!(validate_resolved("https://example.com", &ok).is_ok());
    let bad = [IpAddress::V4(93, 184, 216, 34), IpAddress::V4(169, 254, 169, 254), IpAddress::V4(10, 0, 0, 1)];
    match validate_resolved("https://example.com", &bad) {
        Err(KodexError::UrlValidation(UrlError::BlockedIp(IpAddress::V4(169, 254, 169, 254)))) => {}
        other => panic!("unexpected: {other:?}"),
    }
    assert!(is_blocked_ip(&IpAddress::V4(172, 20, 0, 1)));
    assert!(!is_blocked_ip(&IpAddress::V4(172, 32, 0, 1)));
}
