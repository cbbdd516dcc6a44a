use open_forti_manager::engine::http_server::extract_session_id;

#[test]
fn test_extract_id() {
    assert_eq!(
        extract_session_id("GET /?id=abc123 HTTP/1.1"),
        Some("abc123".into())
    );
}

#[test]
fn test_extract_auth_id() {
    assert_eq!(
        extract_session_id("GET /?auth_id=xyz789&user=test HTTP/1.1"),
        Some("xyz789".into())
    );
}

#[test]
fn test_no_id() {
    assert_eq!(extract_session_id("GET / HTTP/1.1"), None);
}
