use open_forti_manager::config::VpnProfile;
use open_forti_manager::engine::auth::{config_request, login_request, saml_exchange_request, start_tunnel, AllocStage};
use open_forti_manager::engine::connect::{ConnectAction, ConnectFlow, ConnectInput, ConnectStage};
use open_forti_manager::engine::VpnError;

fn exchange(a: ConnectAction) -> (String, String) {
    match a {
        ConnectAction::Exchange { request, what } => (request, what),
        _ => panic!("exchange expected"),
    }
}

#[test]
fn password_flow_walk() {
    let p = VpnProfile::new("w", "gw", "alice");
    let mut f = ConnectFlow::new();
    let (req, what) = exchange(f.step(&p, ConnectInput::Ready));
    assert_eq!(req, login_request(&p));
    assert_eq!(what, "login POST failed");
    assert_eq!(f.stage, ConnectStage::LoginSent);
    let resp = "HTTP/1.1 200 OK\r\nSet-Cookie: SVPNCOOKIE=CK; path=/\r\n\r\n".to_string();
    let (req, what) = exchange(f.step(&p, ConnectInput::Response(resp)));
    assert!(req.starts_with("GET /remote/index HTTP/1.1\r\n"));
    assert_eq!(what, "index request");
    assert_eq!(f.cookie, "CK");
    let (_, what) = exchange(f.step(&p, ConnectInput::Response("HTTP/1.1 200 OK\r\n\r\n".into())));
    assert_eq!(what, "alloc request");
    assert_eq!(f.stage, ConnectStage::Allocating(AllocStage::SlotRequested));
    let (req, what) = exchange(f.step(&p, ConnectInput::Response("HTTP/1.1 200 OK\r\n\r\n".into())));
    assert_eq!(req, config_request(&p, "CK"));
    assert_eq!(what, "config request");
    match f.step(&p, ConnectInput::Response("HTTP/1.1 200 OK\r\n\r\n<xml/>".into())) {
        ConnectAction::StartTunnel { request, config_xml } => {
            assert_eq!(request, start_tunnel(&p, "CK"));
            assert_eq!(config_xml, "<xml/>");
        }
        _ => panic!("tunnel start expected"),
    }
    assert_eq!(f.stage, ConnectStage::Done);
    assert!(!f.accepts(&ConnectInput::Ready));
}

#[test]
fn saml_flow_and_failures() {
    let mut p = VpnProfile::new("w", "gw", "alice");
    p.saml_login = Some(true);
    let mut f = ConnectFlow::new();
    match f.step(&p, ConnectInput::Ready) {
        ConnectAction::AwaitSaml { port, .. } => assert_eq!(port, 8020),
        _ => panic!("SAML wait expected"),
    }
    assert!(!f.accepts(&ConnectInput::Ready));
    match f.step(&p, ConnectInput::SessionId("S1".into())) {
        ConnectAction::ExchangeOnce { request, what } => {
            assert_eq!(request, saml_exchange_request(&p, "S1"));
            assert_eq!(what, "saml auth_id");
        }
        _ => panic!("single exchange expected"),
    }
    match f.step(&p, ConnectInput::Reply(b"HTTP/1.1 200 OK\r\n\r\n".to_vec())) {
        ConnectAction::Fail(VpnError::Auth(m)) => assert_eq!(m, "No SVPNCOOKIE after SAML exchange"),
        _ => panic!("failure expected"),
    }
    let p = VpnProfile::new("w", "gw", "alice");
    let mut f = ConnectFlow::new();
    f.step(&p, ConnectInput::Ready);
    f.step(&p, ConnectInput::Response("Set-Cookie: SVPNCOOKIE=CK\r\n".into()));
    f.step(&p, ConnectInput::Response(String::new()));
    match f.step(&p, ConnectInput::Response("HTTP/1.1 403".into())) {
        ConnectAction::Fail(VpnError::Auth(m)) => assert_eq!(m, "Allocation failed: HTTP/1.1 403"),
        _ => panic!("failure expected"),
    }
}
