use axum::http::HeaderMap;
use ketu::headers::{client_ip, client_ip_from_text, is_forwarded_header, is_forwarded_value, reported_target, text_eq_ignore_ascii_case};

#[test]
fn forwarded_header_is_detected() {
    let mut headers = HeaderMap::new();
    headers.insert("x-ketu-forwarded", "true".parse().unwrap());
    assert!(is_forwarded_header(&headers));
}

#[test]
fn forwarded_header_is_case_insensitive() {
    let mut headers = HeaderMap::new();
    headers.insert("x-ketu-forwarded", "TRUE".parse().unwrap());
    assert!(is_forwarded_header(&headers));
}

#[test]
fn missing_forwarded_header_returns_false() {
    let headers = HeaderMap::new();
    assert!(!is_forwarded_header(&headers));
}

#[test]
fn non_true_forwarded_header_value_returns_false() {
    let mut headers = HeaderMap::new();
    headers.insert("x-ketu-forwarded", "yes".parse().unwrap());
    assert!(!is_forwarded_header(&headers));
}

#[test]
fn numeric_forwarded_header_value_returns_false() {
    let mut headers = HeaderMap::new();
    headers.insert("x-ketu-forwarded", "1".parse().unwrap());
    assert!(!is_forwarded_header(&headers));
}

#[test]
fn forwarded_header_name_is_case_insensitive_and_first_value_counts() {
    let mut headers = HeaderMap::new();
    headers.insert(axum::http::HeaderName::from_bytes(b"X-Ketu-Forwarded").unwrap(), "tRuE".parse().unwrap());
    assert!(is_forwarded_header(&headers));
    let mut headers = HeaderMap::new();
    headers.append("x-ketu-forwarded", "no".parse().unwrap());
    headers.append("x-ketu-forwarded", "true".parse().unwrap());
    assert!(!is_forwarded_header(&headers));
}

#[test]
fn forwarded_value_with_non_ascii_bytes_is_not_read() {
    let mut headers = HeaderMap::new();
    headers.insert("x-ketu-forwarded", axum::http::HeaderValue::from_bytes(b"tru\xe9").unwrap());
    assert!(!is_forwarded_header(&headers));
}

#[test]
fn forwarded_value_text() {
    assert!(is_forwarded_value(Some("True")));
    assert!(!is_forwarded_value(Some(" true")));
    assert!(!is_forwarded_value(Some("truee")));
    assert!(!is_forwarded_value(None));
    assert!(text_eq_ignore_ascii_case("AbC", "aBc"));
    assert!(!text_eq_ignore_ascii_case("ab", "abc"));
}

#[test]
fn client_ip_is_first_trimmed_item() {
    let mut headers = HeaderMap::new();
    headers.insert("x-forwarded-for", " 10.0.0.1 , 10.0.0.2".parse().unwrap());
    assert_eq!(client_ip(&headers), "10.0.0.1");
}

#[test]
fn client_ip_falls_back_to_unknown() {
    let headers = HeaderMap::new();
    assert_eq!(client_ip(&headers), "unknown");
    let mut headers = HeaderMap::new();
    headers.insert("x-forwarded-for", " \t , 10.0.0.2".parse().unwrap());
    assert_eq!(client_ip(&headers), "unknown");
    let mut headers = HeaderMap::new();
    headers.insert("x-forwarded-for", axum::http::HeaderValue::from_bytes(b"1.2.3.\xff").unwrap());
    assert_eq!(client_ip(&headers), "unknown");
}

#[test]
fn client_ip_from_header_text() {
    assert_eq!(client_ip_from_text(Some("192.168.1.5")), "192.168.1.5");
    assert_eq!(client_ip_from_text(Some("\t192.168.1.5\t,x")), "192.168.1.5");
    assert_eq!(client_ip_from_text(Some("a b ,c")), "a b");
    assert_eq!(client_ip_from_text(Some(",1.1.1.1")), "unknown");
    assert_eq!(client_ip_from_text(Some("")), "unknown");
    assert_eq!(client_ip_from_text(None), "unknown");
}

#[test]
fn reported_target_reads_header() {
    let mut headers = HeaderMap::new();
    headers.insert("x-ketu-target", "http://localhost:11435".parse().unwrap());
    assert_eq!(reported_target(&headers), "http://localhost:11435");
    assert_eq!(reported_target(&HeaderMap::new()), "<missing>");
}
