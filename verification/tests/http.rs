use power_monitor::http::{extract_bearer, extract_path, http_response};

#[test]
fn extract_path_basic() {
    assert_eq!(
        extract_path(b"GET /json HTTP/1.1\r\nHost: localhost\r\n\r\n").as_deref(),
        Some("/json")
    );
}

#[test]
fn extract_path_root() {
    assert_eq!(
        extract_path(b"GET / HTTP/1.1\r\n\r\n").as_deref(),
        Some("/")
    );
}

#[test]
fn extract_path_malformed_returns_none() {
    assert!(extract_path(b"nonsense").is_none());
}

#[test]
fn extract_bearer_present() {
    let req = b"GET /json HTTP/1.1\r\nHost: x\r\nAuthorization: Bearer abc123\r\n\r\n";
    assert_eq!(extract_bearer(req).as_deref(), Some("abc123"));
}

#[test]
fn extract_bearer_case_insensitive_header() {
    let req = b"GET / HTTP/1.1\r\nauthorization: Bearer tok\r\n\r\n";
    assert_eq!(extract_bearer(req).as_deref(), Some("tok"));
}

#[test]
fn extract_bearer_missing_returns_none() {
    let req = b"GET / HTTP/1.1\r\nHost: x\r\n\r\n";
    assert!(extract_bearer(req).is_none());
}

#[test]
fn extract_bearer_wrong_scheme_returns_none() {
    let req = b"GET / HTTP/1.1\r\nAuthorization: Basic ZGVtbw==\r\n\r\n";
    assert!(extract_bearer(req).is_none());
}

#[test]
fn http_response_contains_headers_and_body() {
    let r = http_response("200 OK", "application/json", "{}");
    let s = std::str::from_utf8(&r).unwrap();
    assert!(s.starts_with("HTTP/1.1 200 OK\r\n"));
    assert!(s.contains("Content-Type: application/json\r\n"));
    assert!(s.contains("Content-Length: 2\r\n"));
    assert!(s.ends_with("\r\n\r\n{}"));
}
