use open_forti_manager::engine::backend::{
    extract_attr, network_setup_script, parse_split_dns_domains, parse_split_routes, parse_vpn_dns,
    parse_vpn_ip, try_parse_split_routes, tunnel_local_ip, BackendCore,
};
use open_forti_manager::vpn::ConnectionState;

const XML: &str = "<?xml version='1.0'?><sslvpn-tunnel><ipv4><assigned-addr ipv4='172.16.72.2' />\
<dns ip='10.0.0.53' /><dns ip=\"10.0.0.54\" /><dns ip='10.0.0.53' />\
<split-dns domains='corp.example, lab.example;corp.example' dnsserver1='10.0.0.53' />\
<split-tunnel-info><addr ip='10.10.0.0' mask='255.255.0.0' /><addr ip='192.168.5.0' mask='255.255.255.0'/>\
</split-tunnel-info></ipv4></sslvpn-tunnel>";

#[test]
fn xml_assigned_address() {
    assert_eq!(parse_vpn_ip(XML), "172.16.72.2");
    assert_eq!(parse_vpn_ip("<assigned-addr ipv4=\"1.2.3.4\"/>"), "1.2.3.4");
    assert_eq!(parse_vpn_ip("<nothing/>"), "0.0.0.0");
}

#[test]
fn xml_dns_servers_deduplicated() {
    assert_eq!(parse_vpn_dns(XML), vec!["10.0.0.53".to_string(), "10.0.0.54".to_string()]);
    assert!(parse_vpn_dns("<dns ip='' />").is_empty());
}

#[test]
fn xml_split_dns_domains() {
    assert_eq!(
        parse_split_dns_domains(XML),
        vec!["corp.example".to_string(), "lab.example".to_string()]
    );
}

#[test]
fn xml_split_routes_as_prefixes() {
    assert_eq!(
        parse_split_routes(XML),
        vec![("10.10.0.0".to_string(), "16".to_string()), ("192.168.5.0".to_string(), "24".to_string())]
    );
    // A mask that is not a dotted quad drops the route.
    assert!(parse_split_routes("<addr ip='1.1.1.1' mask='bogus' />").is_empty());
    assert!(try_parse_split_routes(XML).is_some());
}

#[test]
fn attribute_lookup() {
    let tag: Vec<char> = "<addr ip='1.2.3.4' mask=\"255.0.0.0\"".chars().collect();
    let ip: String = extract_attr(&tag, "ip").unwrap().into_iter().collect();
    let mask: String = extract_attr(&tag, "mask").unwrap().into_iter().collect();
    assert_eq!(ip, "1.2.3.4");
    assert_eq!(mask, "255.0.0.0");
    assert!(extract_attr(&tag, "gw").is_none());
}

#[test]
fn network_script_lines() {
    let routes = vec![("10.10.0.0".to_string(), "16".to_string())];
    let dns = vec!["10.0.0.53".to_string(), "10.0.0.54".to_string()];
    let none: Vec<String> = Vec::new();
    assert_eq!(
        network_setup_script(&routes, &dns, &none, "vpn0").unwrap(),
        "ip route add 10.10.0.0/16 dev vpn0 2>/dev/null\nresolvectl dns vpn0 10.0.0.53 10.0.0.54\nresolvectl domain vpn0 ~.\n"
    );
    let domains = vec!["corp.example".to_string(), "lab.example".to_string()];
    assert_eq!(
        network_setup_script(&Vec::new(), &dns, &domains, "vpn0").unwrap(),
        "resolvectl dns vpn0 10.0.0.53 10.0.0.54\nresolvectl domain vpn0 ~corp.example ~lab.example\n"
    );
    assert_eq!(
        network_setup_script(&routes, &none, &domains, "vpn0").unwrap(),
        "ip route add 10.10.0.0/16 dev vpn0 2>/dev/null\n"
    );
    assert!(network_setup_script(&Vec::new(), &none, &domains, "vpn0").is_none());
}

#[test]
fn local_ip_for_the_relay() {
    assert_eq!(tunnel_local_ip("172.16.72.2"), [172, 16, 72, 2]);
    assert_eq!(tunnel_local_ip("10.0.0.1/32"), [10, 0, 0, 1]);
    assert_eq!(tunnel_local_ip("not an ip"), [0, 0, 0, 0]);
    assert_eq!(tunnel_local_ip("01.2.3.4"), [0, 0, 0, 0]);
}

fn state_is(core: &BackendCore, s: &ConnectionState) -> bool {
    core.state == *s
}

#[test]
fn backend_connect_then_tunnel_up() {
    let mut core = BackendCore::new();
    assert!(state_is(&core, &ConnectionState::Disconnected));
    core.begin_connect("vpn.example.com");
    assert!(state_is(&core, &ConnectionState::Connecting));
    assert_eq!(core.log, vec!["Connecting to vpn.example.com\u{2026}".to_string()]);
    core.record_lines(vec!["[engine] Tunnel UP! (native TUN)".to_string()]);
    core.check_status(false);
    assert!(state_is(&core, &ConnectionState::Connected));
    // The engine finishing closes a connected tunnel.
    core.check_status(true);
    assert!(state_is(&core, &ConnectionState::Disconnected));
    assert_eq!(core.log.last().unwrap(), "Tunnel closed.");
}

#[test]
fn backend_error_line_fails_connection() {
    let mut core = BackendCore::new();
    core.begin_connect("h");
    core.record_lines(vec!["[engine] ERROR: Auth error: bad".to_string()]);
    core.check_status(false);
    assert!(state_is(&core, &ConnectionState::Error("[engine] ERROR: Auth error: bad".to_string())));
}

#[test]
fn backend_silent_engine_exit() {
    let mut core = BackendCore::new();
    core.begin_connect("h");
    core.check_status(true);
    assert!(state_is(&core, &ConnectionState::Error("Connection failed (no output)".to_string())));
}

#[test]
fn backend_disconnect_and_log_trim() {
    let mut core = BackendCore::new();
    core.begin_disconnect();
    assert!(state_is(&core, &ConnectionState::Disconnecting));
    core.finish_disconnect();
    assert!(state_is(&core, &ConnectionState::Disconnected));
    assert_eq!(core.log, vec!["Disconnecting\u{2026}".to_string(), "Disconnected.".to_string()]);
    let lines: Vec<String> = (0..1001).map(|i| i.to_string()).collect();
    let new = core.record_lines(lines.clone());
    assert_eq!(new, lines);
    assert_eq!(core.log.len(), 500);
    assert_eq!(core.log.last().unwrap(), "1000");
}

#[test]
fn backend_status_check_is_idempotent() {
    let mut core = BackendCore::new();
    core.begin_connect("h");
    core.record_lines(vec!["Tunnel UP!".to_string(), "ERROR: late".to_string()]);
    core.check_status(false);
    let once = core.state.clone();
    let log_once = core.log.clone();
    core.check_status(false);
    assert!(core.state == once);
    assert_eq!(core.log, log_once);
}

#[test]
fn backend_settled_state_ignores_log() {
    let mut core = BackendCore::new();
    core.state = ConnectionState::Error("boom".to_string());
    core.record_lines(vec!["Tunnel UP!".to_string(), "ERROR: x".to_string()]);
    let log_before = core.log.clone();
    core.check_status(false);
    assert!(state_is(&core, &ConnectionState::Error("boom".to_string())));
    assert_eq!(core.log, log_before);
}

#[test]
fn dns_servers_only_from_dns_tags() {
    let xml = "<dns ip='8.8.8.8' /><dns ip='8.8.8.8' /><dns domain='corp' /><addr ip='10.0.0.0' mask='255.0.0.0' />";
    assert_eq!(parse_vpn_dns(xml), vec!["8.8.8.8".to_string()]);
}
