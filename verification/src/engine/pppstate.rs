//! Native PPP state machine: LCP + IPCP negotiation (RFC 1661, 1332).
//!
//! Implements the client side of PPP over the Fortinet SSL-VPN tunnel:
//! - LCP: link establishment (MRU, magic number, auth rejection)
//! - IPCP: IP address + DNS negotiation
//!
//! Frames are exchanged as raw PPP packets (protocol + payload); the caller
//! adds the tunnel framing.

use vstd::prelude::*;
use crate::engine::hdlc::{hi_byte, lo_byte};

verus! {

// PPP protocol numbers
pub const PROTO_LCP: u16 = 0xC021;
pub const PROTO_IPCP: u16 = 0x8021;
pub const PROTO_IPV4: u16 = 0x0021;

// PPP/LCP/IPCP codes
pub const CODE_CONF_REQ: u8 = 1;
pub const CODE_CONF_ACK: u8 = 2;
pub const CODE_CONF_NAK: u8 = 3;
pub const CODE_CONF_REJ: u8 = 4;
pub const CODE_TERM_REQ: u8 = 5;
pub const CODE_TERM_ACK: u8 = 6;
pub const CODE_CODE_REJ: u8 = 7;
pub const CODE_ECHO_REQ: u8 = 9;
pub const CODE_ECHO_REP: u8 = 10;

// LCP option types
pub const LCP_OPT_MRU: u8 = 1;
pub const LCP_OPT_AUTH: u8 = 3;
pub const LCP_OPT_MAGIC: u8 = 5;

// IPCP option types
pub const IPCP_OPT_ADDR: u8 = 3;
pub const IPCP_OPT_DNS1: u8 = 129;
pub const IPCP_OPT_DNS2: u8 = 131;

/// Max Configure-Requests per protocol before giving up (RFC 1661 Max-Configure).
pub const MAX_CONF_REQ: u32 = 10;

#[derive(Debug, Clone, Copy, PartialEq, Eq, Structural)]
pub enum Phase {
    Lcp,
    Ipcp,
    /// Ready: IP traffic can flow.
    Network,
    Dead,
}

/// PPP negotiation state machine.
pub struct PppState {
    pub phase: Phase,
    pub magic: u32,
    pub ident: u8,
    /// The gateway acked our LCP Configure-Request.
    pub lcp_acked_local: bool,
    /// We acked the gateway's LCP Configure-Request.
    pub lcp_acked_remote: bool,
    pub ipcp_acked_local: bool,
    pub ipcp_acked_remote: bool,
    /// Our assigned IP (from config or IPCP negotiation).
    pub local_ip: [u8; 4],
    pub dns1: [u8; 4],
    pub dns2: [u8; 4],
    /// Outgoing PPP frames queued by the state machine.
    pub outbox: Vec<Vec<u8>>,
    /// Configure-Request counters that bound NAK/REJ ping-pong loops.
    pub lcp_reqs: u32,
    pub ipcp_reqs: u32,
}

/// Mathematical picture of a `PppState`: the same fields, with byte arrays
/// and queued frames as sequences.
#[verifier::ext_equal]
pub struct PppView {
    pub phase: Phase,
    pub magic: u32,
    pub ident: u8,
    pub lcp_acked_local: bool,
    pub lcp_acked_remote: bool,
    pub ipcp_acked_local: bool,
    pub ipcp_acked_remote: bool,
    pub local_ip: Seq<u8>,
    pub dns1: Seq<u8>,
    pub dns2: Seq<u8>,
    pub outbox: Seq<Seq<u8>>,
    pub lcp_reqs: u32,
    pub ipcp_reqs: u32,
}

impl View for PppState {
    type V = PppView;

    open spec fn view(&self) -> PppView {
        PppView {
            phase: self.phase,
            magic: self.magic,
            ident: self.ident,
            lcp_acked_local: self.lcp_acked_local,
            lcp_acked_remote: self.lcp_acked_remote,
            ipcp_acked_local: self.ipcp_acked_local,
            ipcp_acked_remote: self.ipcp_acked_remote,
            local_ip: self.local_ip@,
            dns1: self.dns1@,
            dns2: self.dns2@,
            outbox: self.outbox@.map_values(|f: Vec<u8>| f@),
            lcp_reqs: self.lcp_reqs,
            ipcp_reqs: self.ipcp_reqs,
        }
    }
}

/// Big-endian 16-bit value of two bytes.
pub open spec fn be16(a: u8, b: u8) -> int {
    a as int * 256 + b as int
}

/// A PPP control frame: protocol(2) + code(1) + id(1) + length(2) + options.
/// The length field is `4 + options.len()` cut to 16 bits.
pub open spec fn spec_build_ppp(proto: u16, code: u8, id: u8, options: Seq<u8>) -> Seq<u8> {
    seq![
        hi_byte(proto as int),
        lo_byte(proto as int),
        code,
        id,
        hi_byte(options.len() + 4int),
        lo_byte(options.len() + 4int),
    ] + options
}

/// A PPP IPv4 frame around an IP packet.
pub open spec fn spec_wrap_ip(ip: Seq<u8>) -> Seq<u8> {
    seq![0x00u8, 0x21u8] + ip
}

/// The four big-endian bytes of the magic number.
pub open spec fn magic_bytes(m: u32) -> Seq<u8> {
    seq![
        ((m as int / 16777216) % 256) as u8,
        ((m as int / 65536) % 256) as u8,
        ((m as int / 256) % 256) as u8,
        (m as int % 256) as u8,
    ]
}

/// Options of our LCP Configure-Request: MRU 1500 and the magic number.
pub open spec fn lcp_request_options(magic: u32) -> Seq<u8> {
    seq![LCP_OPT_MRU, 4u8, 0x05u8, 0xDCu8, LCP_OPT_MAGIC, 6u8] + magic_bytes(magic)
}

/// Options of our IPCP Configure-Request: our address, and zero DNS servers
/// to ask the gateway for its own.
pub open spec fn ipcp_request_options(ip: Seq<u8>) -> Seq<u8> {
    seq![IPCP_OPT_ADDR, 6u8] + ip + seq![IPCP_OPT_DNS1, 6u8, 0u8, 0u8, 0u8, 0u8, IPCP_OPT_DNS2, 6u8, 0u8, 0u8, 0u8, 0u8]
}

/// The identifier after `id` (wrapping).
pub open spec fn next_ident(id: u8) -> u8 {
    ((id as int + 1) % 256) as u8
}

/// Queue a frame.
pub open spec fn queued(s: PppView, frame: Seq<u8>) -> PppView {
    PppView { outbox: s.outbox.push(frame), ..s }
}

/// Sending our LCP Configure-Request: counted; past MAX_CONF_REQ the link dies
/// instead of a request being queued.
pub open spec fn spec_send_lcp_conf_req(s: PppView) -> PppView {
    let reqs = (s.lcp_reqs + 1) as u32;
    if reqs > MAX_CONF_REQ {
        PppView { lcp_reqs: reqs, phase: Phase::Dead, ..s }
    } else {
        PppView {
            lcp_reqs: reqs,
            ident: next_ident(s.ident),
            outbox: s.outbox.push(
                spec_build_ppp(PROTO_LCP, CODE_CONF_REQ, s.ident, lcp_request_options(s.magic)),
            ),
            ..s
        }
    }
}

/// Sending our IPCP Configure-Request, bounded as for LCP.
pub open spec fn spec_send_ipcp_conf_req(s: PppView) -> PppView {
    let reqs = (s.ipcp_reqs + 1) as u32;
    if reqs > MAX_CONF_REQ {
        PppView { ipcp_reqs: reqs, phase: Phase::Dead, ..s }
    } else {
        PppView {
            ipcp_reqs: reqs,
            ident: next_ident(s.ident),
            outbox: s.outbox.push(
                spec_build_ppp(PROTO_IPCP, CODE_CONF_REQ, s.ident, ipcp_request_options(s.local_ip)),
            ),
            ..s
        }
    }
}

/// After an IPCP Configure-Reject: a request for our address alone, counted
/// and bounded like every IPCP Configure-Request.
pub open spec fn spec_send_ipcp_addr_req(s: PppView) -> PppView {
    let reqs = (s.ipcp_reqs + 1) as u32;
    if reqs > MAX_CONF_REQ {
        PppView { ipcp_reqs: reqs, phase: Phase::Dead, ..s }
    } else {
        PppView {
            ipcp_reqs: reqs,
            ident: next_ident(s.ident),
            outbox: s.outbox.push(
                spec_build_ppp(PROTO_IPCP, CODE_CONF_REQ, s.ident, seq![IPCP_OPT_ADDR, 6u8] + s.local_ip),
            ),
            ..s
        }
    }
}

/// Split the options of a gateway LCP Configure-Request into the ones we
/// accept and the authentication options we reject, each list keeping the
/// raw option bytes in order. Parsing stops at the first option whose length
/// is below 2 or runs past the end.
pub open spec fn split_lcp_options(body: Seq<u8>) -> (Seq<u8>, Seq<u8>)
    decreases body.len(),
{
    if body.len() < 2 {
        (Seq::empty(), Seq::empty())
    } else {
        let olen = body[1] as int;
        if olen < 2 || olen > body.len() {
            (Seq::empty(), Seq::empty())
        } else {
            let chunk = body.take(olen);
            let rest = split_lcp_options(body.skip(olen));
            if body[0] == LCP_OPT_AUTH {
                (rest.0, chunk + rest.1)
            } else {
                (chunk + rest.0, rest.1)
            }
        }
    }
}

/// Adopt the values suggested by an IPCP Configure-Nak: each well-formed
/// option of length 6 for the address or a DNS server replaces that value;
/// later options win. Parsing stops as in `split_lcp_options`.
pub open spec fn apply_ipcp_nak(body: Seq<u8>, ip: Seq<u8>, d1: Seq<u8>, d2: Seq<u8>) -> (
    Seq<u8>,
    Seq<u8>,
    Seq<u8>,
)
    decreases body.len(),
{
    if body.len() < 2 {
        (ip, d1, d2)
    } else {
        let olen = body[1] as int;
        if olen < 2 || olen > body.len() {
            (ip, d1, d2)
        } else {
            let addr = body.subrange(2, 6);
            let (ip2, d12, d22) = if olen == 6 {
                if body[0] == IPCP_OPT_ADDR {
                    (addr, d1, d2)
                } else if body[0] == IPCP_OPT_DNS1 {
                    (ip, addr, d2)
                } else if body[0] == IPCP_OPT_DNS2 {
                    (ip, d1, addr)
                } else {
                    (ip, d1, d2)
                }
            } else {
                (ip, d1, d2)
            };
            apply_ipcp_nak(body.skip(olen), ip2, d12, d22)
        }
    }
}

/// Body of a control packet: after the 4-byte code/id/length header, up to
/// the length field (or the end of the packet if shorter).
pub open spec fn control_body(pkt: Seq<u8>) -> Seq<u8> {
    let len = be16(pkt[2], pkt[3]);
    pkt.subrange(4, if len < pkt.len() { len } else { pkt.len() as int })
}

/// A control packet that cannot be handled: at least four
/// bytes, but a length field below 4.
pub open spec fn control_packet_malformed(pkt: Seq<u8>) -> bool {
    pkt.len() >= 4 && be16(pkt[2], pkt[3]) < 4
}

/// A PPP frame carrying an LCP or IPCP packet that is malformed as above.
pub open spec fn frame_malformed(frame: Seq<u8>) -> bool {
    &&& frame.len() >= 2
    &&& (be16(frame[0], frame[1]) == PROTO_LCP as int || be16(frame[0], frame[1]) == PROTO_IPCP as int)
    &&& control_packet_malformed(frame.skip(2))
}

/// A PPP frame carrying LCP or IPCP (the frames that may send
/// Configure-Requests).
pub open spec fn control_frame(frame: Seq<u8>) -> bool {
    &&& frame.len() >= 2
    &&& (be16(frame[0], frame[1]) == PROTO_LCP as int || be16(frame[0], frame[1]) == PROTO_IPCP as int)
}

/// Counters leave room for one more Configure-Request of each protocol.
pub open spec fn counters_have_room(s: PppView) -> bool {
    s.lcp_reqs < u32::MAX && s.ipcp_reqs < u32::MAX
}

/// Once both LCP directions are acked while still in the LCP phase, move to
/// IPCP and send our IPCP request.
pub open spec fn after_lcp(s: PppView) -> PppView {
    if s.lcp_acked_local && s.lcp_acked_remote && s.phase == Phase::Lcp {
        spec_send_ipcp_conf_req(PppView { phase: Phase::Ipcp, ..s })
    } else {
        s
    }
}

/// Once both IPCP directions are acked while in the IPCP phase, the network
/// phase is reached.
pub open spec fn after_ipcp(s: PppView) -> PppView {
    if s.ipcp_acked_local && s.ipcp_acked_remote && s.phase == Phase::Ipcp {
        PppView { phase: Phase::Network, ..s }
    } else {
        s
    }
}

/// Effect of an incoming LCP packet.
pub open spec fn spec_handle_lcp(s: PppView, pkt: Seq<u8>) -> PppView {
    if pkt.len() < 4 {
        s
    } else {
        let code = pkt[0];
        let id = pkt[1];
        let body = control_body(pkt);
        let s1 = if code == CODE_CONF_REQ {
            let (acceptable, reject) = split_lcp_options(body);
            if reject.len() > 0 {
                queued(s, spec_build_ppp(PROTO_LCP, CODE_CONF_REJ, id, reject))
            } else {
                PppView {
                    lcp_acked_remote: true,
                    ..queued(s, spec_build_ppp(PROTO_LCP, CODE_CONF_ACK, id, acceptable))
                }
            }
        } else if code == CODE_CONF_ACK {
            PppView { lcp_acked_local: true, ..s }
        } else if code == CODE_CONF_NAK || code == CODE_CONF_REJ {
            spec_send_lcp_conf_req(s)
        } else if code == CODE_ECHO_REQ {
            queued(s, spec_build_ppp(PROTO_LCP, CODE_ECHO_REP, id, magic_bytes(s.magic)))
        } else if code == CODE_TERM_REQ {
            PppView {
                phase: Phase::Dead,
                ..queued(s, spec_build_ppp(PROTO_LCP, CODE_TERM_ACK, id, Seq::empty()))
            }
        } else {
            s
        };
        after_lcp(s1)
    }
}

/// Effect of an incoming IPCP packet.
pub open spec fn spec_handle_ipcp(s: PppView, pkt: Seq<u8>) -> PppView {
    if pkt.len() < 4 {
        s
    } else {
        let code = pkt[0];
        let id = pkt[1];
        let body = control_body(pkt);
        let s1 = if code == CODE_CONF_REQ {
            PppView {
                ipcp_acked_remote: true,
                ..queued(s, spec_build_ppp(PROTO_IPCP, CODE_CONF_ACK, id, body))
            }
        } else if code == CODE_CONF_ACK {
            PppView { ipcp_acked_local: true, ..s }
        } else if code == CODE_CONF_NAK {
            let (ip, d1, d2) = apply_ipcp_nak(body, s.local_ip, s.dns1, s.dns2);
            spec_send_ipcp_conf_req(PppView { local_ip: ip, dns1: d1, dns2: d2, ..s })
        } else if code == CODE_CONF_REJ {
            spec_send_ipcp_addr_req(s)
        } else {
            s
        };
        after_ipcp(s1)
    }
}

/// Effect of an incoming PPP frame and the IP packet it carries, if any.
pub open spec fn spec_handle(s: PppView, frame: Seq<u8>) -> (PppView, Option<Seq<u8>>) {
    if frame.len() < 2 {
        (s, None)
    } else {
        let proto = be16(frame[0], frame[1]);
        let payload = frame.skip(2);
        if proto == PROTO_LCP as int {
            (spec_handle_lcp(s, payload), None)
        } else if proto == PROTO_IPCP as int {
            (spec_handle_ipcp(s, payload), None)
        } else if proto == PROTO_IPV4 as int {
            (s, Some(payload))
        } else {
            (s, None)
        }
    }
}

/// The state a fresh machine starts in.
pub open spec fn initial_view(local_ip: Seq<u8>, magic: u32) -> PppView {
    PppView {
        phase: Phase::Lcp,
        magic,
        ident: 1,
        lcp_acked_local: false,
        lcp_acked_remote: false,
        ipcp_acked_local: false,
        ipcp_acked_remote: false,
        local_ip,
        dns1: seq![0u8, 0u8, 0u8, 0u8],
        dns2: seq![0u8, 0u8, 0u8, 0u8],
        outbox: Seq::empty(),
        lcp_reqs: 0,
        ipcp_reqs: 0,
    }
}

/// Append one byte sequence to a vector.
fn push_all(v: &mut Vec<u8>, data: &[u8])
    ensures
        final(v)@ == old(v)@ + data@,
{
    v.extend_from_slice(data);
}

/// Build a PPP control frame: protocol(2) + code(1) + id(1) + length(2) + options.
pub fn build_ppp(proto: u16, code: u8, id: u8, options: &[u8]) -> (frame: Vec<u8>)
    requires
        options@.len() + 6 <= usize::MAX,
    ensures
        frame@ == spec_build_ppp(proto, code, id, options@),
{
    let n = options.len() + 4;
    let len = n as u16;
    let p0 = (proto >> 8) as u8;
    let p1 = (proto & 0xff) as u8;
    let l0 = (len >> 8) as u8;
    let l1 = (len & 0xff) as u8;
    assert(p0 == ((proto / 256) % 256) as u8) by (bit_vector)
        requires p0 == (proto >> 8) as u8;
    assert(p1 == (proto % 256) as u8) by (bit_vector)
        requires p1 == (proto & 0xff) as u8;
    assert(l0 == ((n / 256) % 256) as u8) by (bit_vector)
        requires l0 == ((n as u16) >> 8) as u8;
    assert(l1 == (n % 256) as u8) by (bit_vector)
        requires l1 == ((n as u16) & 0xff) as u8;
    let mut frame: Vec<u8> = Vec::with_capacity(n + 2);
    frame.push(p0);
    frame.push(p1);
    frame.push(code);
    frame.push(id);
    frame.push(l0);
    frame.push(l1);
    push_all(&mut frame, options);
    assert(frame@ =~= spec_build_ppp(proto, code, id, options@));
    frame
}

/// Wrap a raw IP packet in a PPP IPv4 frame.
pub fn wrap_ip(ip: &[u8]) -> (frame: Vec<u8>)
    requires
        ip@.len() + 2 <= usize::MAX,
    ensures
        frame@ == spec_wrap_ip(ip@),
{
    let mut frame: Vec<u8> = Vec::with_capacity(2 + ip.len());
    frame.push(0x00);
    frame.push(0x21);
    push_all(&mut frame, ip);
    assert(frame@ =~= spec_wrap_ip(ip@));
    frame
}

/// The four big-endian bytes of a 32-bit value.
fn be_bytes(m: u32) -> (b: [u8; 4])
    ensures
        b@ == magic_bytes(m),
{
    let b0 = (m >> 24) as u8;
    let b1 = (m >> 16) as u8;
    let b2 = (m >> 8) as u8;
    let b3 = (m & 0xff) as u8;
    assert(b0 == ((m / 16777216) % 256) as u8) by (bit_vector)
        requires b0 == (m >> 24) as u8;
    assert(b1 == ((m / 65536) % 256) as u8) by (bit_vector)
        requires b1 == (m >> 16) as u8;
    assert(b2 == ((m / 256) % 256) as u8) by (bit_vector)
        requires b2 == (m >> 8) as u8;
    assert(b3 == (m % 256) as u8) by (bit_vector)
        requires b3 == (m & 0xff) as u8;
    let b = [b0, b1, b2, b3];
    assert(b@ =~= magic_bytes(m));
    b
}

/// Copy of `pkt[from..to]`.
fn copy_range(pkt: &[u8], from: usize, to: usize) -> (out: Vec<u8>)
    requires
        from <= to <= pkt@.len(),
    ensures
        out@ == pkt@.subrange(from as int, to as int),
{
    let mut out: Vec<u8> = Vec::with_capacity(to - from);
    let mut i = from;
    while i < to
        invariant
            from <= i <= to <= pkt@.len(),
            out@ == pkt@.subrange(from as int, i as int),
        decreases to - i,
    {
        out.push(pkt[i]);
        i = i + 1;
        assert(out@ =~= pkt@.subrange(from as int, i as int));
    }
    out
}

impl PppState {
    pub fn new(local_ip: [u8; 4], magic: u32) -> (s: Self)
        ensures
            s@ == initial_view(local_ip@, magic),
    {
        let s = Self {
            phase: Phase::Lcp,
            magic,
            ident: 1,
            lcp_acked_local: false,
            lcp_acked_remote: false,
            ipcp_acked_local: false,
            ipcp_acked_remote: false,
            local_ip,
            dns1: [0, 0, 0, 0],
            dns2: [0, 0, 0, 0],
            outbox: Vec::new(),
            lcp_reqs: 0,
            ipcp_reqs: 0,
        };
        assert(s@ =~= initial_view(local_ip@, magic));
        s
    }

    fn next_id(&mut self) -> (id: u8)
        ensures
            id == old(self).ident,
            final(self)@ == (PppView { ident: next_ident(old(self).ident), ..old(self)@ }),
    {
        let id = self.ident;
        self.ident = self.ident.wrapping_add(1);
        id
    }

    fn queue(&mut self, frame: Vec<u8>)
        ensures
            final(self)@ == queued(old(self)@, frame@),
    {
        let ghost before = self.outbox@;
        self.outbox.push(frame);
        assert(self.outbox@.map_values(|f: Vec<u8>| f@) =~= before.map_values(|f: Vec<u8>| f@).push(
            frame@,
        ));
    }

    /// Kick off negotiation: send LCP Configure-Request.
    pub fn start(&mut self)
        requires
            old(self).lcp_reqs < u32::MAX,
        ensures
            final(self)@ == spec_send_lcp_conf_req(old(self)@),
    {
        self.send_lcp_conf_req();
    }

    /// Queue our LCP Configure-Request (MRU + magic number), or give up after
    /// MAX_CONF_REQ requests.
    fn send_lcp_conf_req(&mut self)
        requires
            old(self).lcp_reqs < u32::MAX,
        ensures
            final(self)@ == spec_send_lcp_conf_req(old(self)@),
    {
        self.lcp_reqs += 1;
        if self.lcp_reqs > MAX_CONF_REQ {
            self.phase = Phase::Dead;
            return;
        }
        let id = self.next_id();
        let magic = be_bytes(self.magic);
        let opts = [LCP_OPT_MRU, 4, 0x05, 0xDC, LCP_OPT_MAGIC, 6, magic[0], magic[1], magic[2], magic[3]];
        assert(opts@ =~= lcp_request_options(self.magic));
        let frame = build_ppp(PROTO_LCP, CODE_CONF_REQ, id, &opts);
        self.queue(frame);
    }

    /// Queue our IPCP Configure-Request (our IP + DNS), bounded as above.
    fn send_ipcp_conf_req(&mut self)
        requires
            old(self).ipcp_reqs < u32::MAX,
        ensures
            final(self)@ == spec_send_ipcp_conf_req(old(self)@),
    {
        self.ipcp_reqs += 1;
        if self.ipcp_reqs > MAX_CONF_REQ {
            self.phase = Phase::Dead;
            return;
        }
        let id = self.next_id();
        let ip = self.local_ip;
        let opts = [
            IPCP_OPT_ADDR, 6, ip[0], ip[1], ip[2], ip[3],
            IPCP_OPT_DNS1, 6, 0, 0, 0, 0,
            IPCP_OPT_DNS2, 6, 0, 0, 0, 0,
        ];
        assert(opts@ =~= ipcp_request_options(self.local_ip@));
        let frame = build_ppp(PROTO_IPCP, CODE_CONF_REQ, id, &opts);
        self.queue(frame);
    }

    /// Process an incoming PPP frame (protocol + payload).
    /// Returns `Some(ip_packet)` when the frame carries IPv4 data for the TUN.
    pub fn handle(&mut self, frame: &[u8]) -> (res: Option<Vec<u8>>)
        requires
            !frame_malformed(frame@),
            control_frame(frame@) ==> counters_have_room(old(self)@),
        ensures
            final(self)@ == spec_handle(old(self)@, frame@).0,
            match spec_handle(old(self)@, frame@).1 {
                Some(ip) => res matches Some(v) && v@ == ip,
                None => res is None,
            },
    {
        if frame.len() < 2 {
            return None;
        }
        let f0 = frame[0];
        let f1 = frame[1];
        let proto = ((f0 as u16) << 8) | f1 as u16;
        assert(proto == f0 as u16 * 256 + f1 as u16) by (bit_vector)
            requires proto == ((f0 as u16) << 8) | f1 as u16;
        let payload = copy_range(frame, 2, frame.len());
        assert(payload@ =~= frame@.skip(2));
        if proto == PROTO_LCP {
            self.handle_lcp(payload.as_slice());
            None
        } else if proto == PROTO_IPCP {
            self.handle_ipcp(payload.as_slice());
            None
        } else if proto == PROTO_IPV4 {
            Some(payload)
        } else {
            None
        }
    }

    fn handle_lcp(&mut self, pkt: &[u8])
        requires
            !control_packet_malformed(pkt@),
            counters_have_room(old(self)@),
        ensures
            final(self)@ == spec_handle_lcp(old(self)@, pkt@),
    {
        if pkt.len() < 4 {
            return;
        }
        let code = pkt[0];
        let id = pkt[1];
        let body = control_body_of(pkt);
        if code == CODE_CONF_REQ {
            // Accept whatever the gateway asks, but reject authentication:
            // no PAP/CHAP on this link.
            let (acceptable, reject) = split_lcp_options_of(body.as_slice());
            if reject.len() > 0 {
                let f = build_ppp(PROTO_LCP, CODE_CONF_REJ, id, reject.as_slice());
                self.queue(f);
            } else {
                let f = build_ppp(PROTO_LCP, CODE_CONF_ACK, id, acceptable.as_slice());
                self.queue(f);
                self.lcp_acked_remote = true;
            }
        } else if code == CODE_CONF_ACK {
            self.lcp_acked_local = true;
        } else if code == CODE_CONF_NAK || code == CODE_CONF_REJ {
            // Retry with a fresh request.
            self.send_lcp_conf_req();
        } else if code == CODE_ECHO_REQ {
            let magic = be_bytes(self.magic);
            let f = build_ppp(PROTO_LCP, CODE_ECHO_REP, id, &magic);
            self.queue(f);
        } else if code == CODE_TERM_REQ {
            let empty: [u8; 0] = [];
            let f = build_ppp(PROTO_LCP, CODE_TERM_ACK, id, &empty);
            assert(empty@ =~= Seq::<u8>::empty());
            self.queue(f);
            self.phase = Phase::Dead;
        }
        // Both directions acked: move to IPCP.
        if self.lcp_acked_local && self.lcp_acked_remote && self.phase == Phase::Lcp {
            self.phase = Phase::Ipcp;
            self.send_ipcp_conf_req();
        }
    }

    fn handle_ipcp(&mut self, pkt: &[u8])
        requires
            !control_packet_malformed(pkt@),
            counters_have_room(old(self)@),
        ensures
            final(self)@ == spec_handle_ipcp(old(self)@, pkt@),
    {
        if pkt.len() < 4 {
            return;
        }
        let code = pkt[0];
        let id = pkt[1];
        let body = control_body_of(pkt);
        if code == CODE_CONF_REQ {
            // The gateway's IPCP request: ACK it.
            let f = build_ppp(PROTO_IPCP, CODE_CONF_ACK, id, body.as_slice());
            self.queue(f);
            self.ipcp_acked_remote = true;
        } else if code == CODE_CONF_ACK {
            self.ipcp_acked_local = true;
        } else if code == CODE_CONF_NAK {
            // The gateway suggests values: adopt them and ask again.
            let (ip, d1, d2) = apply_ipcp_nak_of(body.as_slice(), self.local_ip, self.dns1, self.dns2);
            self.local_ip = ip;
            self.dns1 = d1;
            self.dns2 = d2;
            self.send_ipcp_conf_req();
        } else if code == CODE_CONF_REJ {
            // Options rejected: request just our address (counted, bounded).
            self.ipcp_reqs = self.ipcp_reqs + 1;
            if self.ipcp_reqs > MAX_CONF_REQ {
                self.phase = Phase::Dead;
            } else {
                let id2 = self.next_id();
                let ip = self.local_ip;
                let opts = [IPCP_OPT_ADDR, 6, ip[0], ip[1], ip[2], ip[3]];
                assert(opts@ =~= seq![IPCP_OPT_ADDR, 6u8] + self.local_ip@);
                let f = build_ppp(PROTO_IPCP, CODE_CONF_REQ, id2, &opts);
                self.queue(f);
            }
        }
        if self.ipcp_acked_local && self.ipcp_acked_remote && self.phase == Phase::Ipcp {
            self.phase = Phase::Network;
        }
    }
}

/// Copy the body of a control packet (see `control_body`).
fn control_body_of(pkt: &[u8]) -> (body: Vec<u8>)
    requires
        pkt@.len() >= 4,
        !control_packet_malformed(pkt@),
    ensures
        body@ == control_body(pkt@),
        body@.len() <= 65535,
{
    let a = pkt[2];
    let b = pkt[3];
    let len = ((a as usize) << 8) | b as usize;
    assert(len == a as usize * 256 + b as usize) by (bit_vector)
        requires len == ((a as usize) << 8) | b as usize;
    let end = if len < pkt.len() { len } else { pkt.len() };
    copy_range(pkt, 4, end)
}

/// Whether a frame carries an LCP or IPCP packet whose length field is below
/// the 4-byte header: such a frame cannot be handled.
pub fn is_malformed_frame(frame: &[u8]) -> (b: bool)
    ensures
        b == frame_malformed(frame@),
{
    if frame.len() < 6 {
        return false;
    }
    let proto = frame[0] as u16 * 256 + frame[1] as u16;
    let len = frame[4] as u16 * 256 + frame[5] as u16;
    assert(frame@.skip(2)[2] == frame@[4] && frame@.skip(2)[3] == frame@[5]);
    (proto == PROTO_LCP || proto == PROTO_IPCP) && len < 4
}

/// Whether a frame carries LCP or IPCP.
pub fn is_control_frame(frame: &[u8]) -> (b: bool)
    ensures
        b == control_frame(frame@),
{
    if frame.len() < 2 {
        return false;
    }
    let proto = frame[0] as u16 * 256 + frame[1] as u16;
    proto == PROTO_LCP || proto == PROTO_IPCP
}

/// Exec counterpart of `split_lcp_options`.
fn split_lcp_options_of(body: &[u8]) -> (res: (Vec<u8>, Vec<u8>))
    ensures
        res.0@ == split_lcp_options(body@).0,
        res.1@ == split_lcp_options(body@).1,
        res.0@.len() + res.1@.len() <= body@.len(),
{
    let mut acceptable: Vec<u8> = Vec::new();
    let mut reject: Vec<u8> = Vec::new();
    let mut i: usize = 0;
    let mut go = true;
    assert(body@.skip(0) =~= body@);
    assert(acceptable@ + split_lcp_options(body@).0 =~= split_lcp_options(body@).0);
    assert(reject@ + split_lcp_options(body@).1 =~= split_lcp_options(body@).1);
    while go && body.len() - i >= 2
        invariant
            i <= body@.len(),
            split_lcp_options(body@).0 == acceptable@ + split_lcp_options(body@.skip(i as int)).0,
            split_lcp_options(body@).1 == reject@ + split_lcp_options(body@.skip(i as int)).1,
            acceptable@.len() + reject@.len() <= i,
            !go ==> split_lcp_options(body@.skip(i as int)) == (Seq::<u8>::empty(), Seq::<u8>::empty()),
        decreases body@.len() - i + (if go { 1int } else { 0int }),
    {
        let opt = body[i];
        let olen = body[i + 1] as usize;
        let ghost rest = body@.skip(i as int);
        if olen < 2 || olen > body.len() - i {
            go = false;
        } else {
            let ghost chunk = body@.subrange(i as int, i + olen);
            assert(rest.take(olen as int) =~= chunk);
            assert(rest.skip(olen as int) =~= body@.skip(i + olen));
            let mut j = i;
            let stop = i + olen;
            if opt == LCP_OPT_AUTH {
                let ghost r0 = reject@;
                while j < stop
                    invariant
                        i <= j <= stop <= body@.len(),
                        stop == i + olen,
                        reject@ == r0 + body@.subrange(i as int, j as int),
                    decreases stop - j,
                {
                    reject.push(body[j]);
                    j = j + 1;
                    assert(reject@ =~= r0 + body@.subrange(i as int, j as int));
                }
                assert(reject@ == r0 + chunk);
                assert(r0 + (chunk + split_lcp_options(body@.skip(i + olen)).1) =~= reject@ + split_lcp_options(body@.skip(i + olen)).1);
            } else {
                let ghost a0 = acceptable@;
                while j < stop
                    invariant
                        i <= j <= stop <= body@.len(),
                        stop == i + olen,
                        acceptable@ == a0 + body@.subrange(i as int, j as int),
                    decreases stop - j,
                {
                    acceptable.push(body[j]);
                    j = j + 1;
                    assert(acceptable@ =~= a0 + body@.subrange(i as int, j as int));
                }
                assert(acceptable@ == a0 + chunk);
                assert(a0 + (chunk + split_lcp_options(body@.skip(i + olen)).0) =~= acceptable@ + split_lcp_options(body@.skip(i + olen)).0);
            }
            i = i + olen;
        }
    }
    assert(body@.skip(i as int).len() < 2 ==> split_lcp_options(body@.skip(i as int)) == (Seq::<u8>::empty(), Seq::<u8>::empty()));
    assert(acceptable@ + Seq::<u8>::empty() =~= acceptable@);
    assert(reject@ + Seq::<u8>::empty() =~= reject@);
    (acceptable, reject)
}

/// Exec counterpart of `apply_ipcp_nak`.
fn apply_ipcp_nak_of(body: &[u8], ip: [u8; 4], d1: [u8; 4], d2: [u8; 4]) -> (res: ([u8; 4], [u8; 4], [u8; 4]))
    ensures
        (res.0@, res.1@, res.2@) == apply_ipcp_nak(body@, ip@, d1@, d2@),
{
    let mut ip = ip;
    let mut d1 = d1;
    let mut d2 = d2;
    let ghost goal = apply_ipcp_nak(body@, ip@, d1@, d2@);
    let mut i: usize = 0;
    let mut go = true;
    assert(body@.skip(0) =~= body@);
    while go && body.len() - i >= 2
        invariant
            i <= body@.len(),
            goal == apply_ipcp_nak(body@.skip(i as int), ip@, d1@, d2@),
            !go ==> goal == (ip@, d1@, d2@),
        decreases body@.len() - i + (if go { 1int } else { 0int }),
    {
        let opt = body[i];
        let olen = body[i + 1] as usize;
        let ghost rest = body@.skip(i as int);
        if olen < 2 || olen > body.len() - i {
            go = false;
        } else {
            assert(rest.skip(olen as int) =~= body@.skip(i + olen));
            if olen == 6 {
                let addr = [body[i + 2], body[i + 3], body[i + 4], body[i + 5]];
                assert(addr@ =~= rest.subrange(2, 6));
                if opt == IPCP_OPT_ADDR {
                    ip = addr;
                } else if opt == IPCP_OPT_DNS1 {
                    d1 = addr;
                } else if opt == IPCP_OPT_DNS2 {
                    d2 = addr;
                }
            }
            i = i + olen;
        }
    }
    (ip, d1, d2)
}


/// Order of the negotiation phases: Lcp, Ipcp, Network, Dead.
pub open spec fn phase_rank(p: Phase) -> int {
    match p {
        Phase::Lcp => 0,
        Phase::Ipcp => 1,
        Phase::Network => 2,
        Phase::Dead => 3,
    }
}

/// Reachable-state invariant: the IPCP phase (and later) is entered only
/// with both LCP directions acknowledged, LCP never lingers once both
/// directions are acknowledged, the network phase only with both IPCP
/// directions acknowledged, and a protocol that ran past MAX_CONF_REQ
/// Configure-Requests has killed the link.
pub open spec fn negotiation_inv(s: PppView) -> bool {
    &&& (s.phase == Phase::Ipcp || s.phase == Phase::Network) ==> (s.lcp_acked_local && s.lcp_acked_remote)
    &&& (s.lcp_acked_local && s.lcp_acked_remote) ==> s.phase != Phase::Lcp
    &&& s.phase == Phase::Network ==> (s.ipcp_acked_local && s.ipcp_acked_remote)
    &&& s.lcp_reqs > MAX_CONF_REQ ==> s.phase == Phase::Dead
    &&& s.ipcp_reqs > MAX_CONF_REQ ==> s.phase == Phase::Dead
}

/// A fresh state machine satisfies the negotiation invariant.
pub proof fn lemma_initial_inv(local_ip: Seq<u8>, magic: u32)
    ensures
        negotiation_inv(initial_view(local_ip, magic)),
        negotiation_inv(spec_send_lcp_conf_req(initial_view(local_ip, magic))),
{
}

/// Handling any frame preserves the negotiation invariant: IP traffic is
/// only let through the network phase after both LCP and IPCP completed in
/// both directions, and a Configure-Request storm always ends in a dead link.
pub proof fn lemma_handle_preserves_inv(s: PppView, frame: Seq<u8>)
    requires
        negotiation_inv(s),
        control_frame(frame) ==> counters_have_room(s),
    ensures
        negotiation_inv(spec_handle(s, frame).0),
{
}

/// Negotiation only moves forward: Lcp, then Ipcp, then Network; Dead is final.
pub proof fn lemma_handle_phase_monotone(s: PppView, frame: Seq<u8>)
    ensures
        phase_rank(spec_handle(s, frame).0.phase) >= phase_rank(s.phase),
        s.phase == Phase::Dead ==> spec_handle(s, frame).0.phase == Phase::Dead,
{
}

/// Frames are only ever appended to the outbox: what was queued stays queued,
/// in order.
pub proof fn lemma_handle_outbox_grows(s: PppView, frame: Seq<u8>)
    ensures
        spec_handle(s, frame).0.outbox.len() >= s.outbox.len(),
        spec_handle(s, frame).0.outbox.take(s.outbox.len() as int) == s.outbox,
{
    let t = spec_handle(s, frame).0.outbox;
    assert(t.take(s.outbox.len() as int) =~= s.outbox);
}

/// An IPv4 frame built by `wrap_ip` is handed back as the same packet and
/// leaves the negotiation state untouched.
pub proof fn lemma_ip_passthrough(s: PppView, ip: Seq<u8>)
    ensures
        spec_handle(s, spec_wrap_ip(ip)) == (s, Some(ip)),
{
    assert(spec_wrap_ip(ip).skip(2) =~= ip);
}

/// An LCP packet never opens the network phase: the phase stays, the link
/// dies, or (from the LCP phase, with both LCP directions acknowledged) the
/// machine moves to IPCP and its last queued frame is our IPCP
/// Configure-Request for the current address.
pub proof fn lemma_lcp_moves(s: PppView, pkt: Seq<u8>)
    ensures
        ({
            let t = spec_handle_lcp(s, pkt);
            ||| t.phase == s.phase
            ||| t.phase == Phase::Dead
            ||| (s.phase == Phase::Lcp && t.phase == Phase::Ipcp && t.lcp_acked_local && t.lcp_acked_remote
                && t.outbox.len() > 0 && t.outbox.last().take(3) == seq![0x80u8, 0x21u8, CODE_CONF_REQ]
                && t.outbox.last().skip(6) == ipcp_request_options(s.local_ip))
        }),
{
    let t = spec_handle_lcp(s, pkt);
    if t.phase == Phase::Ipcp && s.phase != Phase::Ipcp {
        let f = t.outbox.last();
        assert(f.take(3) =~= seq![0x80u8, 0x21u8, CODE_CONF_REQ]);
        assert(f.skip(6) =~= ipcp_request_options(s.local_ip));
    }
}

/// From the IPCP phase, an IPCP packet (of at least its 4-byte header) leads
/// to the network phase exactly when both IPCP directions are acknowledged
/// and the link is alive.
pub proof fn lemma_ipcp_network(s: PppView, pkt: Seq<u8>)
    requires
        s.phase == Phase::Ipcp,
        pkt.len() >= 4,
    ensures
        ({
            let t = spec_handle_ipcp(s, pkt);
            &&& t.phase == Phase::Network ==> (t.ipcp_acked_local && t.ipcp_acked_remote)
            &&& (t.ipcp_acked_local && t.ipcp_acked_remote && t.phase != Phase::Dead) ==> t.phase == Phase::Network
            &&& (t.phase == Phase::Ipcp || t.phase == Phase::Network || t.phase == Phase::Dead)
        }),
{
}

/// A gateway IPCP Configure-Request is acknowledged with exactly its own
/// options under its identifier, and marks the gateway's direction done.
pub proof fn lemma_ipcp_request_acked(s: PppView, pkt: Seq<u8>)
    requires
        pkt.len() >= 4,
        pkt[0] == CODE_CONF_REQ,
    ensures
        spec_handle_ipcp(s, pkt).outbox == s.outbox.push(spec_build_ppp(PROTO_IPCP, CODE_CONF_ACK, pkt[1], control_body(pkt))),
        spec_handle_ipcp(s, pkt).ipcp_acked_remote,
{
}

/// Configure-Rejects are bounded like Configure-Naks: once MAX_CONF_REQ IPCP
/// requests went out, a reject kills the link and queues nothing more.
pub proof fn lemma_ipcp_reject_bounded(s: PppView, pkt: Seq<u8>)
    requires
        pkt.len() >= 4,
        pkt[0] == CODE_CONF_REJ,
        MAX_CONF_REQ <= s.ipcp_reqs < u32::MAX,
    ensures
        spec_handle_ipcp(s, pkt).phase == Phase::Dead,
        spec_handle_ipcp(s, pkt).outbox == s.outbox,
{
}

/// A gateway Terminate-Request is answered with a Terminate-Ack carrying the
/// same identifier, and the link is dead afterwards.
pub proof fn lemma_terminate_request(s: PppView, id: u8, data: Seq<u8>)
    requires
        data.len() <= 1000,
    ensures
        spec_handle(s, spec_build_ppp(PROTO_LCP, CODE_TERM_REQ, id, data)).0.phase == Phase::Dead,
        spec_handle(s, spec_build_ppp(PROTO_LCP, CODE_TERM_REQ, id, data)).0.outbox
            == s.outbox.push(spec_build_ppp(PROTO_LCP, CODE_TERM_ACK, id, Seq::empty())),
{
    let f = spec_build_ppp(PROTO_LCP, CODE_TERM_REQ, id, data);
    assert(be16(f[0], f[1]) == PROTO_LCP as int);
    assert(f.skip(2)[0] == CODE_TERM_REQ);
}

/// An LCP Echo-Request is answered with an Echo-Reply carrying the same
/// identifier and our magic number, as the only frame queued, in any state
/// of the invariant.
pub proof fn lemma_echo_reply(s: PppView, id: u8, data: Seq<u8>)
    requires
        negotiation_inv(s),
        data.len() <= 1000,
    ensures
        spec_handle(s, spec_build_ppp(PROTO_LCP, CODE_ECHO_REQ, id, data)).0
            == queued(s, spec_build_ppp(PROTO_LCP, CODE_ECHO_REP, id, magic_bytes(s.magic))),
{
    let f = spec_build_ppp(PROTO_LCP, CODE_ECHO_REQ, id, data);
    assert(be16(f[0], f[1]) == PROTO_LCP as int);
    assert(f.skip(2)[0] == CODE_ECHO_REQ);
    assert(f.skip(2)[1] == id);
}


/// Every queued frame is short enough to be framed for the tunnel (its
/// length fits the 16-bit fields with room to spare).
pub open spec fn outbox_bounded(s: PppView) -> bool {
    &&& s.local_ip.len() == 4
    &&& forall|i: int| 0 <= i < s.outbox.len() ==> #[trigger] s.outbox[i].len() <= 65541
}

/// Handling a frame keeps the queued frames bounded.
pub proof fn lemma_handle_outbox_bounded(s: PppView, frame: Seq<u8>)
    requires
        outbox_bounded(s),
        !frame_malformed(frame),
    ensures
        outbox_bounded(spec_handle(s, frame).0),
{
    if frame.len() >= 2 {
        let pkt = frame.skip(2);
        let proto = be16(frame[0], frame[1]);
        if pkt.len() >= 4 && (proto == PROTO_LCP as int || proto == PROTO_IPCP as int) {
            let body = control_body(pkt);
            assert(be16(pkt[2], pkt[3]) <= 65535) by {
                assert(pkt[2] as int <= 255);
                assert(pkt[3] as int <= 255);
            }
            assert(body.len() <= 65535);
            lemma_split_lcp_options_len(body);
            lemma_apply_ipcp_nak_len(body, s.local_ip, s.dns1, s.dns2);
        }
    }
    let t = spec_handle(s, frame).0;
    assert forall|i: int| 0 <= i < t.outbox.len() implies #[trigger] t.outbox[i].len() <= 65541 by {
        if i < s.outbox.len() {
            lemma_handle_outbox_grows(s, frame);
            assert(t.outbox.take(s.outbox.len() as int)[i] == t.outbox[i]);
        }
    }
}

/// Starting keeps the queued frames bounded.
pub proof fn lemma_start_outbox_bounded(s: PppView)
    requires
        outbox_bounded(s),
    ensures
        outbox_bounded(spec_send_lcp_conf_req(s)),
{
}

proof fn lemma_split_lcp_options_len(body: Seq<u8>)
    ensures
        split_lcp_options(body).0.len() <= body.len(),
        split_lcp_options(body).1.len() <= body.len(),
    decreases body.len(),
{
    if body.len() >= 2 {
        let olen = body[1] as int;
        if !(olen < 2 || olen > body.len()) {
            lemma_split_lcp_options_len(body.skip(olen));
        }
    }
}

proof fn lemma_apply_ipcp_nak_len(body: Seq<u8>, ip: Seq<u8>, d1: Seq<u8>, d2: Seq<u8>)
    requires
        ip.len() == 4,
    ensures
        apply_ipcp_nak(body, ip, d1, d2).0.len() == 4,
    decreases body.len(),
{
    if body.len() >= 2 {
        let olen = body[1] as int;
        if !(olen < 2 || olen > body.len()) {
            let addr = body.subrange(2, 6);
            let (ip2, d12, d22) = if olen == 6 {
                if body[0] == IPCP_OPT_ADDR {
                    (addr, d1, d2)
                } else if body[0] == IPCP_OPT_DNS1 {
                    (ip, addr, d2)
                } else if body[0] == IPCP_OPT_DNS2 {
                    (ip, d1, addr)
                } else {
                    (ip, d1, d2)
                }
            } else {
                (ip, d1, d2)
            };
            lemma_apply_ipcp_nak_len(body.skip(olen), ip2, d12, d22);
        }
    }
}


// ---------------------------------------------------------------------------
// Option lists
// ---------------------------------------------------------------------------

/// A list of PPP options, each with its type byte and a length byte that
/// counts the whole option.
pub open spec fn well_formed_options(opts: Seq<Seq<u8>>) -> bool {
    forall|i: int| 0 <= i < opts.len() ==> 2 <= #[trigger] opts[i].len() && opts[i][1] == opts[i].len()
}

/// The bytes of an option list, one option after the other.
pub open spec fn concat_options(opts: Seq<Seq<u8>>) -> Seq<u8>
    decreases opts.len(),
{
    if opts.len() == 0 {
        Seq::empty()
    } else {
        opts[0] + concat_options(opts.drop_first())
    }
}

/// An IPCP option of type `kind` that carries a 4-byte address.
pub open spec fn address_option(o: Seq<u8>, kind: u8) -> bool {
    o.len() == 6 && o[0] == kind
}

/// Front-to-back scan of an option list for the address options of `kind`.
spec fn scan_address(opts: Seq<Seq<u8>>, kind: u8, v: Seq<u8>) -> Seq<u8>
    decreases opts.len(),
{
    if opts.len() == 0 {
        v
    } else {
        scan_address(
            opts.drop_first(),
            kind,
            if address_option(opts[0], kind) {
                opts[0].subrange(2, 6)
            } else {
                v
            },
        )
    }
}

proof fn lemma_scan_address(opts: Seq<Seq<u8>>, kind: u8, v: Seq<u8>)
    ensures
        (forall|i: int| 0 <= i < opts.len() ==> !#[trigger] address_option(opts[i], kind))
            ==> scan_address(opts, kind, v) == v,
        forall|i: int|
            0 <= i < opts.len() && #[trigger] address_option(opts[i], kind) && (forall|j: int|
                i < j < opts.len() ==> !#[trigger] address_option(opts[j], kind))
                ==> scan_address(opts, kind, v) == opts[i].subrange(2, 6),
    decreases opts.len(),
{
    if opts.len() > 0 {
        let rest = opts.drop_first();
        let v2 = if address_option(opts[0], kind) {
            opts[0].subrange(2, 6)
        } else {
            v
        };
        lemma_scan_address(rest, kind, v2);
        if forall|i: int| 0 <= i < opts.len() ==> !#[trigger] address_option(opts[i], kind) {
            assert forall|i: int| 0 <= i < rest.len() implies !#[trigger] address_option(rest[i], kind) by {
                assert(rest[i] == opts[i + 1]);
            }
        }
        assert forall|i: int|
            0 <= i < opts.len() && #[trigger] address_option(opts[i], kind) && (forall|j: int|
                i < j < opts.len() ==> !#[trigger] address_option(opts[j], kind))
            implies scan_address(opts, kind, v) == opts[i].subrange(2, 6) by {
            if i == 0 {
                assert forall|j: int| 0 <= j < rest.len() implies !#[trigger] address_option(rest[j], kind) by {
                    assert(rest[j] == opts[j + 1]);
                }
            } else {
                assert(rest[i - 1] == opts[i]);
                assert forall|j: int| i - 1 < j < rest.len() implies !#[trigger] address_option(rest[j], kind) by {
                    assert(rest[j] == opts[j + 1]);
                }
            }
        }
    }
}

proof fn lemma_nak_of_options(opts: Seq<Seq<u8>>, ip: Seq<u8>, d1: Seq<u8>, d2: Seq<u8>)
    requires
        well_formed_options(opts),
    ensures
        apply_ipcp_nak(concat_options(opts), ip, d1, d2) == (
            scan_address(opts, IPCP_OPT_ADDR, ip),
            scan_address(opts, IPCP_OPT_DNS1, d1),
            scan_address(opts, IPCP_OPT_DNS2, d2),
        ),
    decreases opts.len(),
{
    if opts.len() > 0 {
        let o = opts[0];
        let rest = opts.drop_first();
        let body = concat_options(opts);
        assert(body == o + concat_options(rest));
        assert(2 <= o.len() && o[1] == o.len());
        assert(body[1] == o[1]);
        assert(body[0] == o[0]);
        assert(body.skip(o.len() as int) =~= concat_options(rest));
        if o.len() == 6 {
            assert(body.subrange(2, 6) =~= o.subrange(2, 6));
        }
        assert forall|i: int| 0 <= i < rest.len() implies 2 <= #[trigger] rest[i].len() && rest[i][1] == rest[i].len() by {
            assert(rest[i] == opts[i + 1]);
        }
        let addr = o.subrange(2, 6);
        let ip2 = if address_option(o, IPCP_OPT_ADDR) { addr } else { ip };
        let d12 = if address_option(o, IPCP_OPT_DNS1) { addr } else { d1 };
        let d22 = if address_option(o, IPCP_OPT_DNS2) { addr } else { d2 };
        lemma_nak_of_options(rest, ip2, d12, d22);
    } else {
        assert(concat_options(opts).len() == 0);
    }
}

/// A gateway IPCP Configure-Nak is obeyed: our address becomes the one in
/// the last address option (type 3, length 6) of its option list, and the
/// DNS servers those of the last options of type 129 and 131; a value with
/// no such option stays. While the request budget lasts, the one frame
/// queued asks again for exactly the suggested address.
pub proof fn lemma_ipcp_nak_adopted(s: PppView, id: u8, opts: Seq<Seq<u8>>)
    requires
        s.local_ip.len() == 4,
        well_formed_options(opts),
        concat_options(opts).len() + 4 <= 65535,
    ensures
        ({
            let t = spec_handle(s, spec_build_ppp(PROTO_IPCP, CODE_CONF_NAK, id, concat_options(opts))).0;
            &&& (forall|i: int| 0 <= i < opts.len() ==> !#[trigger] address_option(opts[i], IPCP_OPT_ADDR))
                ==> t.local_ip == s.local_ip
            &&& forall|i: int|
                0 <= i < opts.len() && #[trigger] address_option(opts[i], IPCP_OPT_ADDR) && (forall|j: int|
                    i < j < opts.len() ==> !#[trigger] address_option(opts[j], IPCP_OPT_ADDR))
                    ==> t.local_ip == opts[i].subrange(2, 6)
            &&& (forall|i: int| 0 <= i < opts.len() ==> !#[trigger] address_option(opts[i], IPCP_OPT_DNS1))
                ==> t.dns1 == s.dns1
            &&& forall|i: int|
                0 <= i < opts.len() && #[trigger] address_option(opts[i], IPCP_OPT_DNS1) && (forall|j: int|
                    i < j < opts.len() ==> !#[trigger] address_option(opts[j], IPCP_OPT_DNS1))
                    ==> t.dns1 == opts[i].subrange(2, 6)
            &&& (forall|i: int| 0 <= i < opts.len() ==> !#[trigger] address_option(opts[i], IPCP_OPT_DNS2))
                ==> t.dns2 == s.dns2
            &&& forall|i: int|
                0 <= i < opts.len() && #[trigger] address_option(opts[i], IPCP_OPT_DNS2) && (forall|j: int|
                    i < j < opts.len() ==> !#[trigger] address_option(opts[j], IPCP_OPT_DNS2))
                    ==> t.dns2 == opts[i].subrange(2, 6)
            &&& s.ipcp_reqs < MAX_CONF_REQ ==> t.outbox == s.outbox.push(
                seq![0x80u8, 0x21u8, CODE_CONF_REQ, s.ident, 0u8, 22u8, IPCP_OPT_ADDR, 6u8] + t.local_ip
                    + seq![IPCP_OPT_DNS1, 6u8, 0u8, 0u8, 0u8, 0u8, IPCP_OPT_DNS2, 6u8, 0u8, 0u8, 0u8, 0u8],
            )
        }),
{
    let body = concat_options(opts);
    let f = spec_build_ppp(PROTO_IPCP, CODE_CONF_NAK, id, body);
    let pkt = f.skip(2);
    assert(be16(f[0], f[1]) == PROTO_IPCP as int);
    assert(pkt[0] == CODE_CONF_NAK);
    assert(be16(pkt[2], pkt[3]) == body.len() + 4);
    assert(control_body(pkt) =~= body);
    lemma_nak_of_options(opts, s.local_ip, s.dns1, s.dns2);
    lemma_scan_address(opts, IPCP_OPT_ADDR, s.local_ip);
    lemma_scan_address(opts, IPCP_OPT_DNS1, s.dns1);
    lemma_scan_address(opts, IPCP_OPT_DNS2, s.dns2);
    let ip = scan_address(opts, IPCP_OPT_ADDR, s.local_ip);
    lemma_apply_ipcp_nak_len(body, s.local_ip, s.dns1, s.dns2);
    assert(ip.len() == 4);
    let t = spec_handle(s, f).0;
    if s.ipcp_reqs < MAX_CONF_REQ {
        let req = spec_build_ppp(PROTO_IPCP, CODE_CONF_REQ, s.ident, ipcp_request_options(ip));
        assert(req =~= seq![0x80u8, 0x21u8, CODE_CONF_REQ, s.ident, 0u8, 22u8, IPCP_OPT_ADDR, 6u8] + ip
            + seq![IPCP_OPT_DNS1, 6u8, 0u8, 0u8, 0u8, 0u8, IPCP_OPT_DNS2, 6u8, 0u8, 0u8, 0u8, 0u8]);
    }
}


/// An LCP authentication-protocol option.
pub open spec fn auth_option(o: Seq<u8>) -> bool {
    o[0] == LCP_OPT_AUTH
}

/// The authentication options of a list, in order.
pub open spec fn auth_options(opts: Seq<Seq<u8>>) -> Seq<Seq<u8>> {
    opts.filter(|o: Seq<u8>| auth_option(o))
}

/// The options of a list other than authentication, in order.
pub open spec fn other_options(opts: Seq<Seq<u8>>) -> Seq<Seq<u8>> {
    opts.filter(|o: Seq<u8>| !auth_option(o))
}

proof fn lemma_concat_front(o: Seq<u8>, x: Seq<Seq<u8>>)
    ensures
        concat_options(seq![o] + x) == o + concat_options(x),
{
    let y = seq![o] + x;
    assert(y[0] == o);
    assert(y.drop_first() =~= x);
}

proof fn lemma_filter_front(o: Seq<u8>, x: Seq<Seq<u8>>, pred: spec_fn(Seq<u8>) -> bool)
    ensures
        (seq![o] + x).filter(pred) == (if pred(o) {
            seq![o]
        } else {
            Seq::<Seq<u8>>::empty()
        }) + x.filter(pred),
{
    Seq::filter_distributes_over_add(seq![o], x, pred);
    reveal_with_fuel(Seq::filter, 2);
    assert(seq![o].drop_last() =~= Seq::<Seq<u8>>::empty());
    if pred(o) {
        assert(Seq::<Seq<u8>>::empty().push(o) =~= seq![o]);
    }
}

proof fn lemma_split_of_options(opts: Seq<Seq<u8>>)
    requires
        well_formed_options(opts),
    ensures
        split_lcp_options(concat_options(opts)) == (
            concat_options(other_options(opts)),
            concat_options(auth_options(opts)),
        ),
        concat_options(auth_options(opts)).len() == 0 <==> (forall|i: int|
            0 <= i < opts.len() ==> !#[trigger] auth_option(opts[i])),
    decreases opts.len(),
{
    if opts.len() == 0 {
        reveal_with_fuel(Seq::filter, 1);
        assert(auth_options(opts).len() == 0);
        assert(other_options(opts).len() == 0);
    } else {
        let o = opts[0];
        let rest = opts.drop_first();
        assert(opts =~= seq![o] + rest);
        assert(2 <= o.len() && o[1] == o.len());
        assert forall|i: int| 0 <= i < rest.len() implies 2 <= #[trigger] rest[i].len() && rest[i][1] == rest[i].len() by {
            assert(rest[i] == opts[i + 1]);
        }
        lemma_split_of_options(rest);
        let pa = |q: Seq<u8>| auth_option(q);
        let po = |q: Seq<u8>| !auth_option(q);
        lemma_filter_front(o, rest, pa);
        lemma_filter_front(o, rest, po);
        lemma_concat_front(o, rest);
        let body = concat_options(opts);
        assert(body == o + concat_options(rest));
        assert(body[1] == o[1]);
        assert(body[0] == o[0]);
        assert(body.take(o.len() as int) =~= o);
        assert(body.skip(o.len() as int) =~= concat_options(rest));
        if auth_option(o) {
            lemma_concat_front(o, auth_options(rest));
            assert(auth_options(opts) == seq![o] + auth_options(rest));
            assert(other_options(opts) =~= other_options(rest));
        } else {
            lemma_concat_front(o, other_options(rest));
            assert(other_options(opts) == seq![o] + other_options(rest));
            assert(auth_options(opts) =~= auth_options(rest));
            if forall|i: int| 0 <= i < rest.len() ==> !#[trigger] auth_option(rest[i]) {
                assert forall|i: int| 0 <= i < opts.len() implies !#[trigger] auth_option(opts[i]) by {
                    if i > 0 {
                        assert(opts[i] == rest[i - 1]);
                    }
                }
            }
            if forall|i: int| 0 <= i < opts.len() ==> !#[trigger] auth_option(opts[i]) {
                assert forall|i: int| 0 <= i < rest.len() implies !#[trigger] auth_option(rest[i]) by {
                    assert(rest[i] == opts[i + 1]);
                }
            }
        }
    }
}

/// A gateway LCP Configure-Request is answered first of all: with a
/// Configure-Ack that carries exactly its option bytes under its identifier
/// (marking the gateway's direction done) when none of its options is an
/// authentication option (type 3); otherwise with a Configure-Reject that
/// carries exactly its authentication options, in order, and nothing else.
pub proof fn lemma_lcp_request_answered(s: PppView, id: u8, opts: Seq<Seq<u8>>)
    requires
        well_formed_options(opts),
        concat_options(opts).len() + 4 <= 65535,
    ensures
        ({
            let t = spec_handle(s, spec_build_ppp(PROTO_LCP, CODE_CONF_REQ, id, concat_options(opts))).0;
            let n = s.outbox.len() as int;
            &&& t.outbox.len() > n
            &&& (forall|i: int| 0 <= i < opts.len() ==> !#[trigger] auth_option(opts[i])) ==> {
                &&& t.lcp_acked_remote
                &&& t.outbox[n] == spec_build_ppp(PROTO_LCP, CODE_CONF_ACK, id, concat_options(opts))
            }
            &&& (exists|i: int| 0 <= i < opts.len() && #[trigger] auth_option(opts[i])) ==> {
                &&& t.lcp_acked_remote == s.lcp_acked_remote
                &&& t.outbox[n] == spec_build_ppp(PROTO_LCP, CODE_CONF_REJ, id, concat_options(auth_options(opts)))
                &&& forall|i: int| 0 <= i < auth_options(opts).len() ==> #[trigger] auth_option(auth_options(opts)[i])
            }
        }),
{
    let body = concat_options(opts);
    let f = spec_build_ppp(PROTO_LCP, CODE_CONF_REQ, id, body);
    let pkt = f.skip(2);
    assert(be16(f[0], f[1]) == PROTO_LCP as int);
    assert(pkt[0] == CODE_CONF_REQ);
    assert(pkt[1] == id);
    assert(be16(pkt[2], pkt[3]) == body.len() + 4);
    assert(control_body(pkt) =~= body);
    lemma_split_of_options(opts);
    if forall|i: int| 0 <= i < opts.len() ==> !#[trigger] auth_option(opts[i]) {
        assert(other_options(opts) =~= opts) by {
            reveal_with_fuel(Seq::filter, 1);
            lemma_filter_all(opts);
        }
    }
    assert forall|i: int| 0 <= i < auth_options(opts).len() implies #[trigger] auth_option(auth_options(opts)[i]) by {
        opts.lemma_filter_pred(|o: Seq<u8>| auth_option(o), i);
    }
}

proof fn lemma_filter_all(opts: Seq<Seq<u8>>)
    requires
        forall|i: int| 0 <= i < opts.len() ==> !#[trigger] auth_option(opts[i]),
    ensures
        other_options(opts) == opts,
    decreases opts.len(),
{
    reveal_with_fuel(Seq::filter, 1);
    if opts.len() > 0 {
        let d = opts.drop_last();
        assert forall|i: int| 0 <= i < d.len() implies !#[trigger] auth_option(d[i]) by {
            assert(d[i] == opts[i]);
        }
        lemma_filter_all(d);
        assert(!auth_option(opts[opts.len() - 1]));
        assert(d.push(opts.last()) =~= opts);
    }
}

}
