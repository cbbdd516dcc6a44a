use open_forti_manager::engine::hdlc::{deframe_packet, frame_packet, frame_raw, pop_frame};

#[test]
fn test_header_layout() {
    let frame = frame_raw(b"\xc0\x21test");
    // total = 6 + 6 = 12
    assert_eq!(frame[0], 0x00);
    assert_eq!(frame[1], 12);
    assert_eq!(frame[2], 0x50);
    assert_eq!(frame[3], 0x50);
    // payload size = 6
    assert_eq!(frame[4], 0x00);
    assert_eq!(frame[5], 6);
    assert_eq!(&frame[6..], b"\xc0\x21test");
}

#[test]
fn test_roundtrip() {
    let frame = frame_packet(b"ip data");
    let ppp = deframe_packet(&frame).expect("deframe");
    assert_eq!(&ppp[..2], &[0x00, 0x21]);
    assert_eq!(&ppp[2..], b"ip data");
}

#[test]
fn test_pop_multiple_frames() {
    let mut wire = frame_raw(b"\xc0\x21one");
    wire.extend_from_slice(&frame_raw(b"\x80\x21two"));

    let (f1, c1) = pop_frame(&wire).expect("first");
    assert_eq!(f1, b"\xc0\x21one");
    let (f2, c2) = pop_frame(&wire[c1..]).expect("second");
    assert_eq!(f2, b"\x80\x21two");
    assert_eq!(c1 + c2, wire.len());
}

#[test]
fn test_partial_frame() {
    let frame = frame_raw(b"\xc0\x21hello");
    // Only the header + 2 bytes present
    assert!(pop_frame(&frame[..8]).is_none());
}

#[test]
fn test_bad_header_skips_byte() {
    let (ppp, consumed) = pop_frame(b"XXXXXXXX").expect("skip");
    assert!(ppp.is_empty());
    assert_eq!(consumed, 1);
}

#[test]
fn ipv6_protocol_only_for_first_byte_0x60() {
    let f = frame_packet(b"\x60\x00");
    assert_eq!(&f[6..8], &[0x00, 0x57]);
    let f = frame_packet(b"\x6a\x00");
    assert_eq!(&f[6..8], &[0x00, 0x21]);
}
