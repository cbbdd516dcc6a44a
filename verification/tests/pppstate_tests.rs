use open_forti_manager::engine::pppstate::{
    build_ppp, wrap_ip, Phase, PppState, CODE_CONF_ACK, CODE_CONF_REJ, CODE_CONF_REQ, LCP_OPT_MRU, PROTO_IPCP,
    PROTO_LCP,
};

#[test]
fn test_start_sends_lcp() {
    let mut ppp = PppState::new([10, 0, 0, 1], 0x12345678);
    ppp.start();
    assert_eq!(ppp.outbox.len(), 1);
    let frame = &ppp.outbox[0];
    assert_eq!(u16::from_be_bytes([frame[0], frame[1]]), PROTO_LCP);
    assert_eq!(frame[2], CODE_CONF_REQ);
}

#[test]
fn test_lcp_conf_req_acked() {
    let mut ppp = PppState::new([10, 0, 0, 1], 0x12345678);
    // Gateway sends LCP Config-Request with MRU
    let gw_req = build_ppp(PROTO_LCP, CODE_CONF_REQ, 1, &[LCP_OPT_MRU, 4, 0x05, 0xDC]);
    ppp.handle(&gw_req);
    // We should ACK it
    assert!(ppp.lcp_acked_remote);
    assert!(ppp.outbox.iter().any(|f| f[2] == CODE_CONF_ACK));
}

#[test]
fn test_ip_passthrough() {
    let mut ppp = PppState::new([10, 0, 0, 1], 0x12345678);
    let ip_frame = wrap_ip(b"\x45\x00test");
    let result = ppp.handle(&ip_frame);
    assert_eq!(result, Some(b"\x45\x00test".to_vec()));
}

#[test]
fn ipcp_reject_is_bounded() {
    let mut ppp = PppState::new([10, 0, 0, 1], 1);
    ppp.phase = Phase::Ipcp;
    ppp.ipcp_reqs = 9;
    let rej = build_ppp(PROTO_IPCP, CODE_CONF_REJ, 9, &[]);
    ppp.handle(&rej);
    assert_eq!(ppp.ipcp_reqs, 10);
    assert_eq!(ppp.outbox.len(), 1);
    assert_eq!(&ppp.outbox[0][..3], &[0x80, 0x21, CODE_CONF_REQ]);
    assert_eq!(&ppp.outbox[0][6..], &[3, 6, 10, 0, 0, 1]);
    ppp.handle(&rej);
    assert_eq!(ppp.phase, Phase::Dead);
    assert_eq!(ppp.outbox.len(), 1);
}

#[test]
fn ipcp_request_is_acked_and_opens_network() {
    let mut ppp = PppState::new([10, 0, 0, 1], 1);
    ppp.phase = Phase::Ipcp;
    ppp.lcp_acked_local = true;
    ppp.lcp_acked_remote = true;
    let req = build_ppp(PROTO_IPCP, CODE_CONF_REQ, 4, &[3, 6, 10, 9, 9, 9]);
    ppp.handle(&req);
    assert_eq!(ppp.outbox, vec![build_ppp(PROTO_IPCP, CODE_CONF_ACK, 4, &[3, 6, 10, 9, 9, 9])]);
    assert_eq!(ppp.phase, Phase::Ipcp);
    ppp.handle(&build_ppp(PROTO_IPCP, CODE_CONF_ACK, 1, &[]));
    assert_eq!(ppp.phase, Phase::Network);
}

#[test]
fn ip_passes_with_full_counters() {
    let mut ppp = PppState::new([10, 0, 0, 1], 1);
    ppp.lcp_reqs = u32::MAX;
    ppp.ipcp_reqs = u32::MAX;
    assert_eq!(ppp.handle(&wrap_ip(b"\x45\x01")), Some(b"\x45\x01".to_vec()));
}
