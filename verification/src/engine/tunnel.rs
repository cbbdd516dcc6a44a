//! VPN tunnel relay decisions: gateway bytes are framed into PPP frames and
//! handed to the PPP state machine; IP packets go to the TUN device; queued
//! PPP frames and outgoing IP packets are framed for the gateway.
//!
//! The caller runs the loop: it reads the TLS stream and the TUN device,
//! writes what each step hands back, and enforces the stop flag and the
//! negotiation deadline.

use vstd::prelude::*;
use crate::engine::hdlc::{
    frame_packet, frame_raw, ip_protocol_field, lemma_pop_frame_raw, pop_frame, spec_frame_packet, spec_frame_raw,
    spec_pop_frame,
};
use crate::engine::pppstate::{
    counters_have_room, frame_malformed, initial_view, lemma_handle_outbox_bounded,
    lemma_ip_passthrough, lemma_start_outbox_bounded, outbox_bounded, spec_wrap_ip, spec_handle, spec_send_lcp_conf_req, Phase, is_malformed_frame, is_control_frame, control_frame,
    PppState, PppView,
};
use crate::text::{bytes_view, slice_bytes};

verus! {

/// Seconds within which PPP negotiation must reach the network phase.
pub const NEGOTIATION_TIMEOUT_SECS: u64 = 25;

/// Why the relay stops.
#[derive(Debug, Clone, Copy, PartialEq, Eq, Structural)]
pub enum RelayStop {
    /// The gateway answered with HTTP where a PPP frame was expected (tunnel
    /// mode refused, typically a realm problem).
    HttpReply,
    /// The PPP link was terminated or negotiation gave up.
    LinkDead,
    /// A control packet with a length field below 4, or a counter at its
    /// limit: the frame cannot be handled.
    Malformed,
}

/// What one batch of gateway bytes produced, in the order it is to be
/// carried out: packets for the TUN device first, then frames for the gateway.
pub struct TlsOutcome {
    pub to_tun: Vec<Vec<u8>>,
    pub to_gateway: Vec<Vec<u8>>,
    /// The network phase was reached with this batch (announce it once).
    pub network_reached: bool,
    pub stop: Option<RelayStop>,
}

/// Relay state: the PPP machine, the bytes received but not yet framed, and
/// the number of PPP frames received.
pub struct RelayCore {
    pub ppp: PppState,
    pub acc: Vec<u8>,
    pub frames_received: u64,
    pub announced_network: bool,
}

/// Every frame of a list, framed for the tunnel.
pub open spec fn framed_all(frames: Seq<Seq<u8>>) -> Seq<Seq<u8>> {
    frames.map_values(|f: Seq<u8>| spec_frame_raw(f))
}

/// `HTTP/1`.
pub open spec fn http_prefix() -> Seq<u8> {
    seq![72u8, 84u8, 84u8, 80u8, 47u8, 49u8]
}

/// Progress of framing buffered bytes: the PPP state, the bytes left, the IP
/// packets for the TUN device, the frame count, and whether a frame could not
/// be handled.
pub struct PumpView {
    pub ppp: PppView,
    pub acc: Seq<u8>,
    pub tun: Seq<Seq<u8>>,
    pub count: nat,
    pub fault: bool,
}

/// Pop every complete frame from the buffer: bad headers skip a byte, empty
/// frames are dropped, every other frame is counted and handled, its IP
/// packet (if any) queued for the TUN device.
#[verifier::opaque]
pub open spec fn pump(p: PumpView) -> PumpView
    decreases p.acc.len(),
{
    if p.fault {
        p
    } else {
        match spec_pop_frame(p.acc) {
            None => p,
            Some((frame, consumed)) => if 1 <= consumed <= p.acc.len() {
                let rest = p.acc.skip(consumed);
                if frame.len() == 0 {
                    pump(PumpView { acc: rest, ..p })
                } else if frame_blocked(p, frame) {
                    PumpView { acc: rest, fault: true, ..p }
                } else {
                    let (s2, ip) = spec_handle(p.ppp, frame);
                    pump(
                        PumpView {
                            ppp: s2,
                            acc: rest,
                            tun: match ip {
                                Some(x) => p.tun.push(x),
                                None => p.tun,
                            },
                            count: p.count + 1,
                            fault: false,
                        },
                    )
                }
            } else {
                p
            },
        }
    }
}

/// The state after one handled frame.
pub open spec fn pump_next(p: PumpView, frame: Seq<u8>, consumed: int) -> PumpView {
    let (s2, ip) = spec_handle(p.ppp, frame);
    PumpView {
        ppp: s2,
        acc: p.acc.skip(consumed),
        tun: match ip {
            Some(x) => p.tun.push(x),
            None => p.tun,
        },
        count: p.count + 1,
        fault: false,
    }
}

/// A frame that stops the pump: malformed, a control frame while a
/// Configure-Request counter is at its limit, or the frame count at its limit.
pub open spec fn frame_blocked(p: PumpView, frame: Seq<u8>) -> bool {
    frame_malformed(frame) || (control_frame(frame) && !counters_have_room(p.ppp)) || p.count >= u64::MAX
}

proof fn lemma_pump_done(p: PumpView)
    requires
        !p.fault,
        spec_pop_frame(p.acc) is None,
    ensures
        pump(p) == p,
{
    reveal(pump);
}

proof fn lemma_pump_step(p: PumpView, frame: Seq<u8>, consumed: int)
    requires
        !p.fault,
        spec_pop_frame(p.acc) == Some((frame, consumed)),
        1 <= consumed <= p.acc.len(),
    ensures
        frame.len() == 0 ==> pump(p) == pump(PumpView { acc: p.acc.skip(consumed), ..p }),
        frame.len() != 0 && frame_blocked(p, frame) ==> pump(p) == (PumpView {
            acc: p.acc.skip(consumed),
            fault: true,
            ..p
        }),
        frame.len() != 0 && !frame_blocked(p, frame) ==> pump(p) == pump(pump_next(p, frame, consumed)),
{
    reveal(pump);
}

proof fn lemma_pump_bounded(p: PumpView)
    requires
        outbox_bounded(p.ppp),
    ensures
        outbox_bounded(pump(p).ppp),
    decreases p.acc.len(),
{
    reveal(pump);
    if !p.fault {
        match spec_pop_frame(p.acc) {
            None => {},
            Some((frame, consumed)) => {
                if 1 <= consumed <= p.acc.len() {
                    let rest = p.acc.skip(consumed);
                    if frame.len() == 0 {
                        lemma_pump_bounded(PumpView { acc: rest, ..p });
                    } else if frame_blocked(p, frame) {
                    } else {
                        let (s2, ip) = spec_handle(p.ppp, frame);
                        lemma_handle_outbox_bounded(p.ppp, frame);
                        lemma_pump_bounded(
                            PumpView {
                                ppp: s2,
                                acc: rest,
                                tun: match ip {
                                    Some(x) => p.tun.push(x),
                                    None => p.tun,
                                },
                                count: p.count + 1,
                                fault: false,
                            },
                        );
                    }
                }
            },
        }
    }
}

/// Bytes not yet framed are kept: what remains buffered after pumping is
/// always the tail of what was buffered, so a frame split across reads is
/// completed by the next read.
pub proof fn lemma_pump_keeps_tail(p: PumpView)
    ensures
        pump(p).acc.len() <= p.acc.len(),
        pump(p).acc == p.acc.skip(p.acc.len() - pump(p).acc.len()),
    decreases p.acc.len(),
{
    assert(p.acc.skip(0) =~= p.acc);
    if p.fault {
        lemma_pump_faulted(p);
    } else {
        match spec_pop_frame(p.acc) {
            None => {
                lemma_pump_done(p);
            },
            Some((frame, consumed)) => {
                lemma_pop_frame_consumes(p.acc);
                let rest = p.acc.skip(consumed);
                lemma_pump_step(p, frame, consumed);
                if frame.len() == 0 {
                    let q = PumpView { acc: rest, ..p };
                    lemma_pump_keeps_tail(q);
                    assert(rest.skip(rest.len() - pump(q).acc.len()) =~= p.acc.skip(
                        p.acc.len() - pump(q).acc.len(),
                    ));
                } else if frame_blocked(p, frame) {
                    assert(rest =~= p.acc.skip(p.acc.len() - rest.len()));
                } else {
                    let q = pump_next(p, frame, consumed);
                    lemma_pump_keeps_tail(q);
                    assert(rest.skip(rest.len() - pump(q).acc.len()) =~= p.acc.skip(
                        p.acc.len() - pump(q).acc.len(),
                    ));
                }
            },
        }
    }
}

proof fn lemma_pump_faulted(p: PumpView)
    requires
        p.fault,
    ensures
        pump(p) == p,
{
    reveal(pump);
}

proof fn lemma_pop_frame_consumes(buf: Seq<u8>)
    ensures
        spec_pop_frame(buf) matches Some((_, c)) ==> 1 <= c <= buf.len(),
{
}

/// An IPv4 packet the relay frames for the gateway is, when those bytes come
/// back from the gateway, handed to the TUN device unchanged, in any PPP
/// state; the PPP state and the buffer are left as they were and one frame
/// is counted.
pub proof fn lemma_tun_packet_roundtrip(s: PppView, ip: Seq<u8>, tun: Seq<Seq<u8>>, count: nat)
    requires
        1 <= ip.len() <= 65527,
        ip[0] / 16 == 4,
        count < u64::MAX,
    ensures
        pump(PumpView { ppp: s, acc: spec_frame_packet(ip), tun, count, fault: false }) == (PumpView {
            ppp: s,
            acc: Seq::empty(),
            tun: tun.push(ip),
            count: count + 1,
            fault: false,
        }),
{
    let wrap = ip_protocol_field(ip) + ip;
    assert(wrap =~= spec_wrap_ip(ip));
    lemma_pop_frame_raw(wrap, Seq::<u8>::empty());
    assert(spec_frame_raw(wrap) + Seq::<u8>::empty() =~= spec_frame_raw(wrap));
    let p = PumpView { ppp: s, acc: spec_frame_packet(ip), tun, count, fault: false };
    let n = wrap.len() + 6int;
    assert(p.acc.skip(n) =~= Seq::<u8>::empty());
    assert(!frame_malformed(wrap));
    assert(!control_frame(wrap));
    assert(!frame_blocked(p, wrap));
    lemma_ip_passthrough(s, ip);
    lemma_pump_step(p, wrap, n);
    let next = pump_next(p, wrap, n);
    assert(next == (PumpView { ppp: s, acc: Seq::empty(), tun: tun.push(ip), count: count + 1, fault: false }));
    lemma_pump_done(next);
}

impl RelayCore {
    /// The queued PPP frames can be framed.
    pub open spec fn wf(&self) -> bool {
        outbox_bounded(self.ppp@)
    }

    /// Take the queued PPP frames, framed for the gateway.
    fn flush(&mut self) -> (wire: Vec<Vec<u8>>)
        requires
            old(self).wf(),
        ensures
            final(self).wf(),
            bytes_view(wire@) == framed_all(old(self).ppp@.outbox),
            final(self).ppp@ == (PppView { outbox: Seq::empty(), ..old(self).ppp@ }),
            final(self).acc == old(self).acc,
            final(self).frames_received == old(self).frames_received,
            final(self).announced_network == old(self).announced_network,
    {
        let mut frames: Vec<Vec<u8>> = Vec::new();
        std::mem::swap(&mut frames, &mut self.ppp.outbox);
        let ghost fv = bytes_view(frames@);
        assert(fv =~= old(self).ppp@.outbox);
        let mut wire: Vec<Vec<u8>> = Vec::new();
        let mut i: usize = 0;
        while i < frames.len()
            invariant
                i <= frames@.len(),
                fv == bytes_view(frames@),
                forall|k: int| 0 <= k < fv.len() ==> #[trigger] fv[k].len() <= 65541,
                bytes_view(wire@) == framed_all(fv.take(i as int)),
            decreases frames@.len() - i,
        {
            assert(fv[i as int] == frames@[i as int]@);
            let w = frame_raw(frames[i].as_slice());
            let ghost before = bytes_view(wire@);
            wire.push(w);
            assert(bytes_view(wire@) =~= before.push(w@));
            i = i + 1;
            assert(framed_all(fv.take(i as int)) =~= framed_all(fv.take(i - 1)).push(spec_frame_raw(fv[i - 1])));
        }
        assert(fv.take(frames@.len() as int) =~= fv);
        assert(self.ppp@ =~= (PppView { outbox: Seq::empty(), ..old(self).ppp@ }));
        wire
    }

    /// Start a relay: the PPP machine queues its LCP Configure-Request, which
    /// is handed back framed for the gateway.
    pub fn new(local_ip: [u8; 4], magic: u32) -> (res: (RelayCore, Vec<Vec<u8>>))
        ensures
            res.0.wf(),
            res.0.ppp@ == (PppView { outbox: Seq::empty(), ..spec_send_lcp_conf_req(initial_view(local_ip@, magic)) }),
            bytes_view(res.1@) == framed_all(spec_send_lcp_conf_req(initial_view(local_ip@, magic)).outbox),
            res.0.acc@ == Seq::<u8>::empty(),
            res.0.frames_received == 0,
            !res.0.announced_network,
    {
        let mut ppp = PppState::new(local_ip, magic);
        ppp.start();
        proof { lemma_start_outbox_bounded(initial_view(local_ip@, magic)); }
        let mut core = RelayCore { ppp, acc: Vec::new(), frames_received: 0, announced_network: false };
        let wire = core.flush();
        (core, wire)
    }

    /// The negotiation deadline has passed: the network phase is not reached
    /// and more than NEGOTIATION_TIMEOUT_SECS have elapsed (the elapsed time
    /// given as whole seconds and the nanoseconds beyond them).
    pub fn negotiation_expired(&self, elapsed_secs: u64, elapsed_subsec_nanos: u32) -> (b: bool)
        ensures
            b == (self.ppp.phase != Phase::Network && (elapsed_secs > NEGOTIATION_TIMEOUT_SECS || (elapsed_secs
                == NEGOTIATION_TIMEOUT_SECS && elapsed_subsec_nanos > 0))),
    {
        self.ppp.phase != Phase::Network && (elapsed_secs > NEGOTIATION_TIMEOUT_SECS || (elapsed_secs
            == NEGOTIATION_TIMEOUT_SECS && elapsed_subsec_nanos > 0))
    }

    /// An IP packet read from the TUN device: once the network phase is up,
    /// IPv4 packets are framed for the gateway; anything else is dropped.
    pub fn on_tun_packet(&self, pkt: &[u8]) -> (res: Option<Vec<u8>>)
        requires
            pkt@.len() + 8 <= usize::MAX,
        ensures
            match res {
                Some(w) => self.ppp.phase == Phase::Network && pkt@.len() > 0 && pkt@[0] / 16 == 4
                    && w@ == spec_frame_packet(pkt@),
                None => !(self.ppp.phase == Phase::Network && pkt@.len() > 0 && pkt@[0] / 16 == 4),
            },
    {
        if self.ppp.phase == Phase::Network && pkt.len() > 0 && pkt[0] / 16 == 4 {
            Some(frame_packet(pkt))
        } else {
            None
        }
    }

    /// Count and handle one frame popped from the gateway bytes; an IP packet
    /// it carries is queued for the TUN device. A malformed frame, or a
    /// counter at its limit, is refused (false) and changes nothing.
    fn take_frame(&mut self, frame: &[u8], to_tun: &mut Vec<Vec<u8>>) -> (ok: bool)
        requires
            old(self).wf(),
        ensures
            ok == !(frame_malformed(frame@) || (control_frame(frame@) && !counters_have_room(old(self).ppp@))
                || old(self).frames_received >= u64::MAX),
            ok ==> final(self).wf(),
            ok ==> final(self).ppp@ == spec_handle(old(self).ppp@, frame@).0,
            ok ==> final(self).frames_received == old(self).frames_received + 1,
            ok ==> bytes_view(final(to_tun)@) == match spec_handle(old(self).ppp@, frame@).1 {
                Some(x) => bytes_view(old(to_tun)@).push(x),
                None => bytes_view(old(to_tun)@),
            },
            final(self).acc == old(self).acc,
            final(self).announced_network == old(self).announced_network,
    {
        if self.frames_received == u64::MAX || (is_control_frame(frame) && (self.ppp.lcp_reqs == u32::MAX
            || self.ppp.ipcp_reqs == u32::MAX)) || is_malformed_frame(frame) {
            return false;
        }
        proof { lemma_handle_outbox_bounded(self.ppp@, frame@); }
        self.frames_received = self.frames_received + 1;
        let ghost before = bytes_view(to_tun@);
        match self.ppp.handle(frame) {
            Some(ip) => {
                to_tun.push(ip);
                assert(bytes_view(to_tun@) =~= before.push(ip@));
            },
            None => {},
        }
        true
    }

    /// Bytes read from the gateway.
    pub fn on_tls_data(&mut self, data: &[u8]) -> (out: TlsOutcome)
        requires
            old(self).wf(),
        ensures
            final(self).wf() || out.stop == Some(RelayStop::Malformed),
            ({
                let acc0 = old(self).acc@ + data@;
                if acc0.len() >= 6 && acc0.take(6) == http_prefix() {
                    out.stop == Some(RelayStop::HttpReply) && out.to_tun@.len() == 0 && out.to_gateway@.len() == 0
                } else {
                    let r = pump(PumpView {
                        ppp: old(self).ppp@,
                        acc: acc0,
                        tun: Seq::empty(),
                        count: old(self).frames_received as nat,
                        fault: false,
                    });
                    if r.fault {
                        out.stop == Some(RelayStop::Malformed)
                    } else {
                        &&& bytes_view(out.to_tun@) == r.tun
                        &&& bytes_view(out.to_gateway@) == framed_all(r.ppp.outbox)
                        &&& final(self).ppp@ == (PppView { outbox: Seq::empty(), ..r.ppp })
                        &&& final(self).acc@ == r.acc
                        &&& final(self).frames_received == r.count
                        &&& out.network_reached == (r.ppp.phase == Phase::Network && !old(self).announced_network)
                        &&& final(self).announced_network == (old(self).announced_network || r.ppp.phase == Phase::Network)
                        &&& out.stop == (if r.ppp.phase == Phase::Dead { Some(RelayStop::LinkDead) } else { None })
                    }
                }
            }),
    {
        self.acc.extend_from_slice(data);
        assert(self.acc@ =~= old(self).acc@ + data@);
        let ghost acc0 = self.acc@;
        let none: Vec<Vec<u8>> = Vec::new();
        if self.acc.len() >= 6 && self.acc[0] == 72 && self.acc[1] == 84 && self.acc[2] == 84 && self.acc[3] == 80
            && self.acc[4] == 47 && self.acc[5] == 49 {
            assert(acc0.take(6) =~= http_prefix());
            return TlsOutcome { to_tun: Vec::new(), to_gateway: none, network_reached: false, stop: Some(RelayStop::HttpReply) };
        }
        proof {
            if acc0.len() >= 6 && acc0.take(6) == http_prefix() {
                assert(acc0.take(6)[0] == 72u8);
            }
        }
        let ghost start = PumpView {
            ppp: self.ppp@,
            acc: acc0,
            tun: Seq::empty(),
            count: self.frames_received as nat,
            fault: false,
        };
        let ghost goal = pump(start);
        let ghost announced0 = self.announced_network;
        let mut to_tun: Vec<Vec<u8>> = Vec::new();
        let mut pos: usize = 0;
        let n = self.acc.len();
        assert(acc0.skip(0) =~= acc0);
        assert(bytes_view(to_tun@) =~= Seq::<Seq<u8>>::empty());
        loop
            invariant
                acc0 == old(self).acc@ + data@,
                !(acc0.len() >= 6 && acc0.take(6) == http_prefix()),
                goal == pump(PumpView {
                    ppp: old(self).ppp@,
                    acc: acc0,
                    tun: Seq::empty(),
                    count: old(self).frames_received as nat,
                    fault: false,
                }),
                pos <= n,
                n == self.acc@.len(),
                self.acc@ == acc0,
                self.wf(),
                self.announced_network == announced0,
                goal == pump(PumpView {
                    ppp: self.ppp@,
                    acc: acc0.skip(pos as int),
                    tun: bytes_view(to_tun@),
                    count: self.frames_received as nat,
                    fault: false,
                }),
            ensures
                pos <= n,
                self.acc@ == acc0,
                self.wf(),
                self.announced_network == announced0,
                goal == (PumpView {
                    ppp: self.ppp@,
                    acc: acc0.skip(pos as int),
                    tun: bytes_view(to_tun@),
                    count: self.frames_received as nat,
                    fault: false,
                }),
            decreases n - pos,
        {
            let ghost cur = PumpView {
                ppp: self.ppp@,
                acc: acc0.skip(pos as int),
                tun: bytes_view(to_tun@),
                count: self.frames_received as nat,
                fault: false,
            };
            let (_, tail) = self.acc.as_slice().split_at(pos);
            assert(tail@ =~= acc0.skip(pos as int));
            match pop_frame(tail) {
                None => {
                    proof { lemma_pump_done(cur); }
                    break;
                },
                Some((frame, consumed)) => {
                    proof { lemma_pump_step(cur, frame@, consumed as int); }
                    assert(acc0.skip(pos as int).skip(consumed as int) =~= acc0.skip(pos + consumed));
                    pos = pos + consumed;
                    if frame.len() == 0 {
                        continue;
                    }
                    let ok = self.take_frame(frame.as_slice(), &mut to_tun);
                    if !ok {
                        let w: Vec<Vec<u8>> = Vec::new();
                        return TlsOutcome { to_tun, to_gateway: w, network_reached: false, stop: Some(RelayStop::Malformed) };
                    }
                },
            }
        }
        proof { lemma_pump_bounded(start); }
        let rest = slice_bytes(self.acc.as_slice(), pos, n);
        assert(rest@ =~= acc0.skip(pos as int));
        self.acc = rest;
        let to_gateway = self.flush();
        let mut network_reached = false;
        if self.ppp.phase == Phase::Network && !self.announced_network {
            self.announced_network = true;
            network_reached = true;
        }
        let stop = if self.ppp.phase == Phase::Dead { Some(RelayStop::LinkDead) } else { None };
        TlsOutcome { to_tun, to_gateway, network_reached, stop }
    }
}

}
