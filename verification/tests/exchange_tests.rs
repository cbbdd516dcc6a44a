use open_forti_manager::config::VpnProfile;
use open_forti_manager::engine::auth::{
    allocate_tunnel, allocation_decision, extract_cookie, authenticate, fetch_config, config_request, content_length,
    login_outcome, login_request, logout, percent_encode, redirect_outcome, saml_exchange_outcome,
    saml_exchange_request, saml_url, start_tunnel, AllocStage, AllocationDecision, AuthPlan,
    HttpResponseReader, ReadStage, ReadStatus, Step,
};
use open_forti_manager::engine::http_server::{callback_response, success_page};
use open_forti_manager::engine::VpnError;

fn profile() -> VpnProfile {
    let mut p = VpnProfile::new("work", "vpn.example.com", "alice");
    p.password = Some("p@ss word".to_string());
    p
}

fn auth_text(e: &VpnError) -> String {
    match e {
        VpnError::Auth(m) => m.clone(),
        other => panic!("unexpected error {:?}", other),
    }
}

#[test]
fn login_request_layout() {
    let req = login_request(&profile());
    let form = "username=alice&credential=p%40ss+word&realm=&ajax=1";
    let expected = format!(
        "POST /remote/logincheck HTTP/1.1\r\nHost: vpn.example.com:443\r\nUser-Agent: FortiSSL-VPN/7.0\r\nContent-Type: application/x-www-form-urlencoded\r\nContent-Length: {}\r\nConnection: keep-alive\r\n\r\n{}",
        form.len(),
        form
    );
    assert_eq!(req, expected);
}

#[test]
fn percent_encode_multibyte_and_reserved() {
    assert_eq!(percent_encode("é/?"), "%C3%A9%2F%3F");
    assert_eq!(percent_encode(""), "");
}

#[test]
fn other_requests_layout() {
    let mut p = profile();
    p.port = Some(10443);
    assert_eq!(
        config_request(&p, "CK"),
        "GET /remote/fortisslvpn_xml HTTP/1.1\r\nHost: vpn.example.com:10443\r\nCookie: SVPNCOOKIE=CK\r\nUser-Agent: FortiSSL-VPN/7.0\r\nConnection: keep-alive\r\n\r\n"
    );
    assert_eq!(
        start_tunnel(&p, "CK"),
        "GET /remote/sslvpn-tunnel HTTP/1.1\r\nHost: vpn.example.com:10443\r\nCookie: SVPNCOOKIE=CK\r\nConnection: Keep-Alive\r\n\r\n"
    );
    assert_eq!(
        logout(&p, "CK"),
        "GET /remote/logout HTTP/1.1\r\nHost: vpn.example.com:10443\r\nCookie: SVPNCOOKIE=CK\r\nConnection: close\r\n\r\n"
    );
    assert_eq!(
        saml_exchange_request(&p, "S1"),
        "GET /remote/saml/auth_id?id=S1 HTTP/1.1\r\nHost: vpn.example.com:10443\r\nUser-Agent: FortiSSL-VPN/7.0\r\nConnection: keep-alive\r\n\r\n"
    );
}

#[test]
fn saml_url_with_and_without_realm() {
    let mut p = profile();
    assert_eq!(saml_url(&p), "https://vpn.example.com:443/remote/saml/start?redirect=1");
    p.realm = Some(String::new());
    assert_eq!(saml_url(&p), "https://vpn.example.com:443/remote/saml/start?redirect=1");
    p.realm = Some("staff".to_string());
    assert_eq!(saml_url(&p), "https://vpn.example.com:443/remote/saml/start?redirect=1&realm=staff");
}

#[test]
fn authenticate_picks_flow() {
    let mut p = profile();
    match authenticate(&p) {
        AuthPlan::Password(req) => assert_eq!(req, login_request(&p)),
        _ => panic!("password flow expected"),
    }
    p.saml_login = Some(true);
    match authenticate(&p) {
        AuthPlan::Saml { url, callback_port } => {
            assert_eq!(url, saml_url(&p));
            assert_eq!(callback_port, 8020);
        }
        _ => panic!("SAML flow expected"),
    }
    p.saml_port = Some(9000);
    match authenticate(&p) {
        AuthPlan::Saml { callback_port, .. } => assert_eq!(callback_port, 9000),
        _ => panic!("SAML flow expected"),
    }
}

#[test]
fn login_outcome_cookie_or_error() {
    let ok = login_outcome("HTTP/1.1 200 OK\r\nSet-Cookie: SVPNCOOKIE=xyz; path=/\r\n\r\n".to_string()).unwrap();
    assert_eq!(ok.cookie, "xyz");
    let err = login_outcome("HTTP/1.1 401\r\n\r\n".to_string()).err().unwrap();
    assert_eq!(auth_text(&err), "No SVPNCOOKIE in response");
}

#[test]
fn saml_exchange_outcome_decodes_lossy() {
    let ok = saml_exchange_outcome(b"HTTP/1.1 200 OK\r\nSet-Cookie: SVPNCOOKIE=abc; x\r\n\xff\r\n").unwrap();
    assert_eq!(ok, "abc");
    let err = saml_exchange_outcome(b"HTTP/1.1 200 OK\r\n\r\n").err().unwrap();
    assert_eq!(auth_text(&err), "No SVPNCOOKIE after SAML exchange");
}

#[test]
fn extract_cookie_first_matching_line_and_trim() {
    assert_eq!(extract_cookie("a\nSet-Cookie: SVPNCOOKIE=  v1 ;z\nSVPNCOOKIE=v2"), Some("v1".into()));
    // A line that mentions the cookie in mixed case only ends the search.
    assert_eq!(extract_cookie("X-Svpncookie=v1\nSVPNCOOKIE=v2"), None);
}

#[test]
fn fetch_config_takes_second_piece() {
    assert_eq!(fetch_config("HTTP/1.1 200 OK\r\n\r\n<xml/>"), "<xml/>");
    assert_eq!(fetch_config("H\r\n\r\nA\r\n\r\nB"), "A");
    assert_eq!(fetch_config("no blank line"), "");
}

#[test]
fn content_length_parsing() {
    let h: Vec<char> = "http/1.1 200 ok\r\ncontent-length:  42 \r\n\r\n".chars().collect();
    assert_eq!(content_length(&h), Some(42));
    let h: Vec<char> = "content-length: x\r\n".chars().collect();
    assert_eq!(content_length(&h), None);
    let h: Vec<char> = "host: a\r\n".chars().collect();
    assert_eq!(content_length(&h), None);
}

#[test]
fn allocation_decisions() {
    assert!(matches!(allocation_decision("HTTP/1.1 200 OK"), AllocationDecision::Allocated));
    match allocation_decision("HTTP/1.1 302 Found\r\nLocation: /remote/x\r\n\r\n") {
        AllocationDecision::Redirect(l) => assert_eq!(l, "/remote/x"),
        _ => panic!("redirect expected"),
    }
    match allocation_decision("HTTP/1.1 301 Moved\r\n\r\n") {
        AllocationDecision::Redirect(l) => assert_eq!(l, "/remote/login"),
        _ => panic!("redirect expected"),
    }
    match allocation_decision("HTTP/1.1 403 Forbidden") {
        AllocationDecision::Failed(e) => assert_eq!(auth_text(&e), "Allocation failed: HTTP/1.1 403 Forbidden"),
        _ => panic!("failure expected"),
    }
    assert!(redirect_outcome("HTTP/1.1 200 OK").is_ok());
    let e = redirect_outcome("HTTP/1.1 500").err().unwrap();
    assert_eq!(auth_text(&e), "Allocation failed after redirect: HTTP/1.1 500");
}

#[test]
fn allocation_failure_quotes_at_most_200_chars() {
    let long = "x".repeat(300);
    match allocation_decision(&long) {
        AllocationDecision::Failed(e) => assert_eq!(auth_text(&e), format!("Allocation failed: {}", "x".repeat(200))),
        _ => panic!("failure expected"),
    }
}

#[test]
fn allocate_tunnel_walks_the_exchange() {
    let p = profile();
    let mut stage = AllocStage::Start;
    match allocate_tunnel(&mut stage, &p, "CK", "") {
        Step::Send(r) => assert!(r.starts_with("GET /remote/index HTTP/1.1\r\n")),
        _ => panic!("send expected"),
    }
    assert_eq!(stage, AllocStage::IndexSent);
    match allocate_tunnel(&mut stage, &p, "CK", "HTTP/1.1 200 OK\r\n\r\n") {
        Step::Send(r) => assert_eq!(
            r,
            "GET /remote/fortisslvpn HTTP/1.1\r\nHost: vpn.example.com:443\r\nCookie: SVPNCOOKIE=CK\r\nConnection: keep-alive\r\n\r\n"
        ),
        _ => panic!("send expected"),
    }
    assert_eq!(stage, AllocStage::SlotRequested);
    match allocate_tunnel(&mut stage, &p, "CK", "HTTP/1.1 302 Found\r\nlocation: /next\r\n\r\n") {
        Step::Send(r) => assert_eq!(
            r,
            "GET /next HTTP/1.1\r\nHost: vpn.example.com:443\r\nUser-Agent: FortiSSL-VPN/7.0\r\nCookie: SVPNCOOKIE=CK\r\nConnection: keep-alive\r\n\r\n"
        ),
        _ => panic!("send expected"),
    }
    assert_eq!(stage, AllocStage::Redirected);
    assert!(matches!(allocate_tunnel(&mut stage, &p, "CK", "HTTP/1.1 200 OK"), Step::Finish(Ok(()))));
}

#[test]
fn http_reader_content_length() {
    let mut r = HttpResponseReader::new();
    assert_eq!(r.stage(), ReadStage::Headers);
    assert!(matches!(r.on_data(b"HTTP/1.1 200 OK\r\nContent-Length: 5\r\n"), ReadStatus::NeedMore));
    assert!(matches!(r.on_data(b"\r\nab"), ReadStatus::NeedMore));
    assert_eq!(r.stage(), ReadStage::Body);
    assert!(matches!(r.on_data(b"cde"), ReadStatus::Complete));
    assert_eq!(r.response(), "HTTP/1.1 200 OK\r\nContent-Length: 5\r\n\r\nabcde");
}

#[test]
fn http_reader_chunked_and_no_body() {
    let mut r = HttpResponseReader::new();
    assert!(matches!(r.on_data(b"HTTP/1.1 200 OK\r\nTransfer-Encoding: chunked\r\n\r\n3\r\nabc\r\n"), ReadStatus::NeedMore));
    assert_eq!(r.stage(), ReadStage::ChunkedBody);
    assert!(matches!(r.on_data(b"0\r\n\r\n"), ReadStatus::Complete));

    let mut r = HttpResponseReader::new();
    assert!(matches!(r.on_data(b"HTTP/1.1 302 Found\r\nLocation: /x\r\n\r\n"), ReadStatus::Complete));
}

#[test]
fn http_reader_eof_cases() {
    let mut r = HttpResponseReader::new();
    match r.on_eof() {
        ReadStatus::Failed(e) => assert_eq!(auth_text(&e), "empty response from gateway"),
        _ => panic!("failure expected"),
    }
    let mut r = HttpResponseReader::new();
    assert!(matches!(r.on_data(b"HTTP/1.1 200 OK\r\n"), ReadStatus::NeedMore));
    assert!(matches!(r.on_eof(), ReadStatus::Complete));
}

#[test]
fn http_reader_size_limit() {
    let mut r = HttpResponseReader::new();
    let big = vec![b'a'; 8 * 1024 * 1024 + 1];
    match r.on_data(&big) {
        ReadStatus::Failed(e) => assert_eq!(auth_text(&e), "HTTP response exceeded size limit"),
        _ => panic!("failure expected"),
    }
}

#[test]
fn callback_response_layout() {
    let ok = callback_response(true);
    let page = success_page();
    assert!(ok.starts_with("HTTP/1.1 200 OK\r\nContent-Type: text/html; charset=utf-8\r\n"));
    assert!(ok.contains(&format!("Content-Length: {}\r\n", page.len())));
    assert!(ok.ends_with(&page));
    let bad = callback_response(false);
    let body = "<html><body><h1>Error</h1><p>No session ID found.</p></body></html>";
    assert_eq!(
        bad,
        format!(
            "HTTP/1.1 400 Bad Request\r\nContent-Type: text/html; charset=utf-8\r\nContent-Length: {}\r\nConnection: close\r\n\r\n{}",
            body.len(),
            body
        )
    );
}

#[test]
fn error_messages() {
    assert_eq!(VpnError::Auth("x".into()).message(), "Auth error: x");
    assert_eq!(VpnError::Tls("y".into()).message(), "TLS error: y");
    assert_eq!(VpnError::Route("z".into()).message(), "Route error: z");
    let e = VpnError::Io(std::io::Error::new(std::io::ErrorKind::Other, "boom"));
    assert_eq!(e.message(), "I/O error: boom");
    let e = VpnError::Dns(std::io::Error::new(std::io::ErrorKind::NotFound, "nx"));
    assert_eq!(e.message(), "DNS error: nx");
    let e = VpnError::Tcp(std::io::Error::new(std::io::ErrorKind::Other, "rst"));
    assert_eq!(e.message(), "TCP error: rst");
}

#[test]
fn percent_encoded_values_are_form_safe() {
    let enc = percent_encode("a=b&c d/é\u{1F600}");
    assert_eq!(enc, "a%3Db%26c+d%2F%C3%A9%F0%9F%98%80");
    assert!(enc.chars().all(|c| c.is_ascii_alphanumeric() || "-_.~+%".contains(c)));
}
