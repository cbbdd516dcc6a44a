use open_forti_manager::engine::hdlc::{frame_packet, frame_raw};
use open_forti_manager::engine::pppstate::{
    build_ppp, Phase, CODE_CONF_REQ, CODE_ECHO_REP, CODE_ECHO_REQ, CODE_TERM_ACK, CODE_TERM_REQ,
    PROTO_IPV4, PROTO_LCP,
};
use open_forti_manager::engine::tunnel::{RelayCore, RelayStop};

#[test]
fn relay_start_sends_one_framed_lcp_request() {
    let (core, wire) = RelayCore::new([10, 0, 0, 1], 0x12345678);
    assert_eq!(wire.len(), 1);
    let w = &wire[0];
    assert_eq!(&w[2..4], &[0x50, 0x50]);
    assert_eq!(u16::from_be_bytes([w[6], w[7]]), PROTO_LCP);
    assert_eq!(w[8], CODE_CONF_REQ);
    assert_eq!(u16::from_be_bytes([w[0], w[1]]) as usize, w.len());
    assert!(core.ppp.outbox.is_empty());
    assert_eq!(core.frames_received, 0);
    assert!(core.acc.is_empty());
}

#[test]
fn relay_http_reply_stops() {
    let (mut core, _) = RelayCore::new([10, 0, 0, 1], 1);
    let out = core.on_tls_data(b"HTTP/1.1 403 Forbidden\r\n\r\n");
    assert_eq!(out.stop, Some(RelayStop::HttpReply));
    assert!(out.to_tun.is_empty());
    assert!(out.to_gateway.is_empty());
}

#[test]
fn relay_ip_packet_goes_to_tun_even_split() {
    let (mut core, _) = RelayCore::new([10, 0, 0, 1], 1);
    let pkt = b"\x45\x00hello".to_vec();
    let wire = frame_packet(&pkt);
    let out1 = core.on_tls_data(&wire[..5]);
    assert!(out1.to_tun.is_empty());
    assert_eq!(out1.stop, None);
    assert_eq!(core.acc.len(), 5);
    let out2 = core.on_tls_data(&wire[5..]);
    assert_eq!(out2.to_tun, vec![pkt]);
    assert_eq!(core.frames_received, 1);
    assert!(core.acc.is_empty());
}

#[test]
fn relay_echo_request_is_answered() {
    let (mut core, _) = RelayCore::new([10, 0, 0, 1], 0x01020304);
    let req = build_ppp(PROTO_LCP, CODE_ECHO_REQ, 7, &[0, 0, 0, 0]);
    let out = core.on_tls_data(&frame_raw(&req));
    assert_eq!(out.to_gateway.len(), 1);
    let reply = &out.to_gateway[0][6..];
    assert_eq!(reply, &build_ppp(PROTO_LCP, CODE_ECHO_REP, 7, &[1, 2, 3, 4])[..]);
    assert_eq!(out.stop, None);
}

#[test]
fn relay_terminate_request_kills_link() {
    let (mut core, _) = RelayCore::new([10, 0, 0, 1], 1);
    let req = build_ppp(PROTO_LCP, CODE_TERM_REQ, 3, &[]);
    let out = core.on_tls_data(&frame_raw(&req));
    assert_eq!(out.stop, Some(RelayStop::LinkDead));
    assert_eq!(out.to_gateway.len(), 1);
    assert_eq!(out.to_gateway[0][8], CODE_TERM_ACK);
    assert_eq!(core.ppp.phase, Phase::Dead);
}

#[test]
fn relay_malformed_control_packet_stops() {
    let (mut core, _) = RelayCore::new([10, 0, 0, 1], 1);
    // LCP packet whose length field (2) is below its 4-byte header.
    let out = core.on_tls_data(&frame_raw(&[0xC0, 0x21, 1, 1, 0, 2]));
    assert_eq!(out.stop, Some(RelayStop::Malformed));
}

#[test]
fn relay_bad_header_bytes_are_skipped() {
    let (mut core, _) = RelayCore::new([10, 0, 0, 1], 1);
    let mut data = b"XY".to_vec();
    data.extend_from_slice(&frame_packet(b"\x45\x01"));
    let out = core.on_tls_data(&data);
    assert_eq!(out.to_tun, vec![b"\x45\x01".to_vec()]);
    assert_eq!(core.frames_received, 1);
}

#[test]
fn relay_tun_packets_wait_for_network_phase() {
    let (mut core, _) = RelayCore::new([10, 0, 0, 1], 1);
    assert_eq!(core.on_tun_packet(b"\x45\x00abc"), None);
    core.ppp.phase = Phase::Network;
    assert_eq!(core.on_tun_packet(b"\x45\x00abc"), Some(frame_packet(b"\x45\x00abc")));
    // IPv6 and empty packets are dropped.
    assert_eq!(core.on_tun_packet(b"\x60\x00abc"), None);
    assert_eq!(core.on_tun_packet(b""), None);
    let f = frame_packet(b"\x45");
    assert_eq!(u16::from_be_bytes([f[6], f[7]]), PROTO_IPV4);
}

#[test]
fn relay_ip_passes_with_full_counters_and_deadline() {
    let (mut core, _) = RelayCore::new([10, 0, 0, 1], 1);
    core.ppp.lcp_reqs = u32::MAX;
    let out = core.on_tls_data(&frame_packet(b"\x45\x02"));
    assert_eq!(out.stop, None);
    assert_eq!(out.to_tun, vec![b"\x45\x02".to_vec()]);
    let out = core.on_tls_data(&frame_raw(&build_ppp(PROTO_LCP, CODE_ECHO_REQ, 1, &[])));
    assert_eq!(out.stop, Some(RelayStop::Malformed));
    assert!(!core.negotiation_expired(25, 0));
    assert!(core.negotiation_expired(25, 1));
    core.ppp.phase = Phase::Network;
    assert!(!core.negotiation_expired(100, 0));
}
