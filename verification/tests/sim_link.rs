use neutrino_ble::node_id::{hex32, link_addr};
use neutrino_ble::sim_link::{decode_frame, encode_frame, unhex32, SimError, SimLink, SENDER_BYTES};

const US: [u8; 32] = [0xaa; 32];
const PEER: [u8; 32] = [0x0b; 32];

#[test]
fn a_frame_is_the_sender_id_and_the_datagram() {
    let frame = encode_frame(&US, b"hello");
    assert_eq!(frame.len(), SENDER_BYTES + 5);
    assert_eq!(&frame[..32], &US);
    assert_eq!(&frame[32..], b"hello");
    assert_eq!(decode_frame(&frame), Some((hex32(&US).into_bytes(), b"hello".to_vec())));
}

#[test]
fn an_empty_datagram_is_a_datagram() {
    assert_eq!(decode_frame(&encode_frame(&US, b"")), Some((link_addr(&US), Vec::new())));
}

#[test]
fn a_frame_too_short_to_name_its_sender_is_dropped() {
    for n in 0..32 {
        assert_eq!(decode_frame(&vec![7u8; n]), None);
    }
    assert!(decode_frame(&[7u8; 32]).is_some());
}

#[test]
fn frames_of_different_senders_differ() {
    assert_ne!(encode_frame(&US, b"x"), encode_frame(&PEER, b"x"));
    assert_ne!(encode_frame(&US, b"x"), encode_frame(&US, b"y"));
}

#[test]
fn a_datagram_goes_where_the_peer_was_configured_last() {
    let link = SimLink::new(US, vec![(PEER, 9001), (PEER, 9002)]);
    let (addr, frame) = link.plan_send(hex32(&PEER).as_bytes(), b"hi").expect("a plan");
    assert_eq!(*addr, 9002);
    assert_eq!(frame, encode_frame(&US, b"hi"));
}

#[test]
fn sends_that_cannot_be_planned_say_why() {
    let link = SimLink::new(US, vec![(PEER, 9001)]);
    assert_eq!(link.plan_send(b"abc", b"hi"), Err(SimError::AddressLength));
    assert_eq!(link.plan_send(&[b'G'; 64], b"hi"), Err(SimError::AddressDigit));
    assert_eq!(link.plan_send(hex32(&US).as_bytes(), b"hi"), Err(SimError::UnknownPeer));
    assert_eq!(SimError::AddressLength.message(), "sim link: address must be 64 hex");
    assert_eq!(SimError::AddressDigit.message(), "sim link: bad hex in address");
    assert_eq!(SimError::UnknownPeer.message(), "sim link: unknown peer");
    assert_eq!(unhex32(hex32(&PEER).as_bytes()), Ok(PEER));
}
