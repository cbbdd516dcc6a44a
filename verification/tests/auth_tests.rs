use open_forti_manager::engine::auth::{extract_cookie, percent_encode};

#[test]
fn test_extract_cookie() {
    let r = "HTTP/1.1 200 OK\r\nSet-Cookie: SVPNCOOKIE=abc123def456; path=/; secure\r\n\r\n<body>";
    assert_eq!(extract_cookie(r), Some("abc123def456".into()));
}

#[test]
fn test_extract_cookie_lowercase() {
    assert_eq!(extract_cookie("set-cookie: svpncookie=testval; path=/"), Some("testval".into()));
}

#[test]
fn test_extract_cookie_missing() {
    assert_eq!(extract_cookie("HTTP/1.1 200 OK\r\n\r\n"), None);
}

#[test]
fn test_percent_encode() {
    assert_eq!(percent_encode("hello world"), "hello+world");
    assert_eq!(percent_encode("user@domain"), "user%40domain");
    assert_eq!(percent_encode("aBc-123_.~"), "aBc-123_.~");
}
