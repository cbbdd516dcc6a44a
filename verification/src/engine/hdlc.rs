//! Fortinet SSL-VPN tunnel framing.
//!
//! On the TLS wire each PPP packet is prefixed with a 6-byte header; there is
//! no HDLC byte-stuffing on that side, the raw PPP frame (protocol + payload)
//! follows the header directly.
//!
//! Header layout:
//!   [0..1]  total length   = 6 + payload_len   (big-endian u16)
//!   [2..3]  magic          = 0x50 0x50
//!   [4..5]  payload length = payload_len       (big-endian u16)
//!   [6..]   raw PPP frame  (protocol(2) + data)

use vstd::prelude::*;

verus! {

pub const TUNNEL_MAGIC: [u8; 2] = [0x50, 0x50];

pub const HEADER_LEN: usize = 6;

/// High byte of a length as the header writes it (the length is cut to 16 bits).
pub open spec fn hi_byte(n: int) -> u8 {
    ((n / 256) % 256) as u8
}

/// Low byte of a length as the header writes it.
pub open spec fn lo_byte(n: int) -> u8 {
    (n % 256) as u8
}

/// The 6-byte header written in front of a PPP frame of `size` bytes.
pub open spec fn tunnel_header(size: int) -> Seq<u8> {
    seq![hi_byte(size + 6), lo_byte(size + 6), 0x50u8, 0x50u8, hi_byte(size), lo_byte(size)]
}

/// A tunnel frame: header followed by the raw PPP frame.
pub open spec fn spec_frame_raw(ppp: Seq<u8>) -> Seq<u8> {
    tunnel_header(ppp.len() as int) + ppp
}

/// PPP protocol field chosen for an IP packet: IPv6 (0x0057) when the first
/// byte is 0x60, IPv4 (0x0021) otherwise.
pub open spec fn ip_protocol_field(ip: Seq<u8>) -> Seq<u8> {
    if ip.len() > 0 && ip[0] == 0x60u8 {
        seq![0x00u8, 0x57u8]
    } else {
        seq![0x00u8, 0x21u8]
    }
}

pub open spec fn spec_frame_packet(ip: Seq<u8>) -> Seq<u8> {
    spec_frame_raw(ip_protocol_field(ip) + ip)
}

/// Total-length field of a buffered header.
pub open spec fn header_total(buf: Seq<u8>) -> int {
    buf[0] as int * 256 + buf[1] as int
}

/// Payload-length field of a buffered header.
pub open spec fn header_size(buf: Seq<u8>) -> int {
    buf[4] as int * 256 + buf[5] as int
}

/// A header is accepted when the magic matches, the total covers at least one
/// payload byte and both length fields agree.
pub open spec fn header_valid(buf: Seq<u8>) -> bool {
    &&& buf[2] == 0x50u8
    &&& buf[3] == 0x50u8
    &&& header_total(buf) >= 7
    &&& header_total(buf) - 6 == header_size(buf)
}

/// What `pop_frame` yields for a receive buffer: `None` when more bytes are
/// needed, `Some((empty, 1))` to skip one byte of a bad header, otherwise the
/// PPP frame and the number of bytes it occupied.
pub open spec fn spec_pop_frame(buf: Seq<u8>) -> Option<(Seq<u8>, int)> {
    if buf.len() < 6 {
        None
    } else if !header_valid(buf) {
        Some((Seq::<u8>::empty(), 1))
    } else if buf.len() < 6 + header_size(buf) {
        None
    } else {
        Some((buf.subrange(6, 6 + header_size(buf)), 6 + header_size(buf)))
    }
}

pub open spec fn spec_deframe_packet(frame: Seq<u8>) -> Option<Seq<u8>> {
    match spec_pop_frame(frame) {
        Some((ppp, _)) => if ppp.len() == 0 { None } else { Some(ppp) },
        None => None,
    }
}

pub open spec fn spec_deframe_ip(frame: Seq<u8>) -> Option<Seq<u8>> {
    match spec_deframe_packet(frame) {
        Some(ppp) => if ppp.len() >= 2 { Some(ppp.skip(2)) } else { None },
        None => None,
    }
}

proof fn lemma_split_u16(n: int)
    requires
        0 <= n < 65536,
    ensures
        hi_byte(n) as int == n / 256,
        lo_byte(n) as int == n % 256,
        (n / 256) * 256 + n % 256 == n,
{
}

/// Wrap a raw PPP frame (protocol + payload) in a tunnel frame.
pub fn frame_raw(ppp_data: &[u8]) -> (frame: Vec<u8>)
    requires
        ppp_data@.len() + HEADER_LEN <= usize::MAX,
    ensures
        frame@ == spec_frame_raw(ppp_data@),
{
    let size = ppp_data.len();
    let total = size + HEADER_LEN;
    let mut frame: Vec<u8> = Vec::with_capacity(total);
    let b0 = (total >> 8) as u8;
    let b1 = (total & 0xff) as u8;
    let b4 = (size >> 8) as u8;
    let b5 = (size & 0xff) as u8;
    assert(b0 == ((total / 256) % 256) as u8) by (bit_vector)
        requires b0 == (total >> 8) as u8;
    assert(b1 == (total % 256) as u8) by (bit_vector)
        requires b1 == (total & 0xff) as u8;
    assert(b4 == ((size / 256) % 256) as u8) by (bit_vector)
        requires b4 == (size >> 8) as u8;
    assert(b5 == (size % 256) as u8) by (bit_vector)
        requires b5 == (size & 0xff) as u8;
    frame.push(b0);
    frame.push(b1);
    frame.push(TUNNEL_MAGIC[0]);
    frame.push(TUNNEL_MAGIC[1]);
    frame.push(b4);
    frame.push(b5);
    frame.extend_from_slice(ppp_data);
    assert(frame@ =~= spec_frame_raw(ppp_data@));
    frame
}

/// Wrap a raw IP packet as a tunnel frame with a PPP protocol header: IPv6
/// (0x0057) when the first byte is exactly 0x60, IPv4 (0x0021) for anything
/// else, including IPv6 packets with traffic-class bits in the first byte.
pub fn frame_packet(ip_data: &[u8]) -> (frame: Vec<u8>)
    requires
        ip_data@.len() + 2 + HEADER_LEN <= usize::MAX,
    ensures
        frame@ == spec_frame_packet(ip_data@),
{
    let proto: [u8; 2] = if ip_data.len() > 0 && ip_data[0] == 0x60 {
        [0x00, 0x57]
    } else {
        [0x00, 0x21]
    };
    let mut ppp: Vec<u8> = Vec::with_capacity(2 + ip_data.len());
    ppp.push(proto[0]);
    ppp.push(proto[1]);
    ppp.extend_from_slice(ip_data);
    assert(ppp@ =~= ip_protocol_field(ip_data@) + ip_data@);
    frame_raw(ppp.as_slice())
}

/// Try to pop one complete PPP frame from the front of `buf`.
///
/// Returns `Some((ppp_frame, consumed_bytes))` when a full frame is present,
/// or `None` when more bytes are needed. A header that does not parse yields
/// an empty frame and one consumed byte, so the caller resynchronises.
pub fn pop_frame(buf: &[u8]) -> (res: Option<(Vec<u8>, usize)>)
    ensures
        match spec_pop_frame(buf@) {
            None => res is None,
            Some((ppp, consumed)) => res matches Some((v, n)) && v@ == ppp && n == consumed,
        },
        res matches Some((v, n)) ==> 1 <= n <= buf@.len(),
{
    if buf.len() < HEADER_LEN {
        return None;
    }
    let a0 = buf[0];
    let a1 = buf[1];
    let a4 = buf[4];
    let a5 = buf[5];
    let total = ((a0 as usize) << 8) | a1 as usize;
    let size = ((a4 as usize) << 8) | a5 as usize;
    assert(total == a0 as usize * 256 + a1 as usize) by (bit_vector)
        requires total == ((a0 as usize) << 8) | a1 as usize;
    assert(size == a4 as usize * 256 + a5 as usize) by (bit_vector)
        requires size == ((a4 as usize) << 8) | a5 as usize;
    if buf[2] != TUNNEL_MAGIC[0] || buf[3] != TUNNEL_MAGIC[1] || total < 7 || total - HEADER_LEN != size {
        // Bad/desynced header: skip one byte and let the caller retry.
        return Some((Vec::new(), 1));
    }
    if buf.len() < HEADER_LEN + size {
        return None;
    }
    let mut ppp: Vec<u8> = Vec::with_capacity(size);
    let end = HEADER_LEN + size;
    let mut i: usize = HEADER_LEN;
    while i < end
        invariant
            HEADER_LEN <= i <= end,
            end <= buf@.len(),
            ppp@ == buf@.subrange(6, i as int),
        decreases end - i,
    {
        ppp.push(buf[i]);
        i = i + 1;
        assert(ppp@ =~= buf@.subrange(6, i as int));
    }
    Some((ppp, end))
}

/// Extract the full PPP frame from a single tunnel frame.
pub fn deframe_packet(frame: &[u8]) -> (res: Option<Vec<u8>>)
    ensures
        match spec_deframe_packet(frame@) {
            None => res is None,
            Some(ppp) => res matches Some(v) && v@ == ppp,
        },
{
    match pop_frame(frame) {
        Some((ppp, _)) => if ppp.len() == 0 { None } else { Some(ppp) },
        None => None,
    }
}

/// Extract just the IP payload (strip the 2-byte PPP protocol header).
pub fn deframe_ip(frame: &[u8]) -> (res: Option<Vec<u8>>)
    ensures
        match spec_deframe_ip(frame@) {
            None => res is None,
            Some(ip) => res matches Some(v) && v@ == ip,
        },
{
    match deframe_packet(frame) {
        Some(ppp) => {
            if ppp.len() >= 2 {
                let mut ip: Vec<u8> = Vec::with_capacity(ppp.len() - 2);
                let mut i: usize = 2;
                while i < ppp.len()
                    invariant
                        2 <= i <= ppp@.len(),
                        ip@ == ppp@.subrange(2, i as int),
                    decreases ppp@.len() - i,
                {
                    ip.push(ppp[i]);
                    i = i + 1;
                    assert(ip@ =~= ppp@.subrange(2, i as int));
                }
                assert(ip@ =~= ppp@.skip(2));
                Some(ip)
            } else {
                None
            }
        },
        None => None,
    }
}

/// A frame written by `frame_raw` for a non-empty PPP frame that fits the
/// 16-bit length fields is popped back whole, consuming exactly its own
/// length, whatever bytes follow it on the wire.
pub proof fn lemma_pop_frame_raw(ppp: Seq<u8>, rest: Seq<u8>)
    requires
        1 <= ppp.len() <= 65529,
    ensures
        spec_pop_frame(spec_frame_raw(ppp) + rest) == Some((ppp, ppp.len() + 6int)),
{
    let n = ppp.len() as int;
    let buf = spec_frame_raw(ppp) + rest;
    lemma_split_u16(n);
    lemma_split_u16(n + 6);
    assert(header_total(buf) == n + 6);
    assert(header_size(buf) == n);
    assert(buf.subrange(6, 6 + n) =~= ppp);
}

/// Deframing a tunnel frame built by `frame_packet` gives back the PPP frame
/// (protocol field + packet), and `deframe_ip` gives back the packet itself.
pub proof fn lemma_deframe_frame_packet(ip: Seq<u8>)
    requires
        ip.len() <= 65527,
    ensures
        spec_deframe_packet(spec_frame_packet(ip)) == Some(ip_protocol_field(ip) + ip),
        spec_deframe_ip(spec_frame_packet(ip)) == Some(ip),
{
    let ppp = ip_protocol_field(ip) + ip;
    lemma_pop_frame_raw(ppp, Seq::<u8>::empty());
    assert(spec_frame_raw(ppp) + Seq::<u8>::empty() =~= spec_frame_raw(ppp));
    assert(ppp.skip(2) =~= ip);
}

/// Two frames written back to back are popped in order: the first pop
/// consumes exactly the first frame, leaving the second at the front.
pub proof fn lemma_pop_consecutive_frames(a: Seq<u8>, b: Seq<u8>)
    requires
        1 <= a.len() <= 65529,
        1 <= b.len() <= 65529,
    ensures
        spec_pop_frame(spec_frame_raw(a) + spec_frame_raw(b)) == Some((a, a.len() + 6int)),
        (spec_frame_raw(a) + spec_frame_raw(b)).skip(a.len() + 6int) == spec_frame_raw(b),
        spec_pop_frame((spec_frame_raw(a) + spec_frame_raw(b)).skip(a.len() + 6int)) == Some((b, b.len() + 6int)),
{
    let fa = spec_frame_raw(a);
    let fb = spec_frame_raw(b);
    let wire = fa + fb;
    lemma_pop_frame_raw(a, fb);
    assert(wire.skip(a.len() + 6int) =~= fb);
    lemma_pop_frame_raw(b, Seq::<u8>::empty());
    assert(fb + Seq::<u8>::empty() =~= fb);
}

}
