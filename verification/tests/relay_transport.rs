use neutrino_ble::node_id::{hex32, link_addr};
use neutrino_ble::peer_map::PeerMap;
use neutrino_ble::relay_transport::{
    accept_lane, dial_target, dialled, next_hop, node_key, reader_goes_on, unhex32, DialOutcome, DialTarget,
    Enqueued, Hop, Lane, LinkError, Route, Routes, Settled, MEDIA_ALPN, MEDIA_CAPACITY, RELAY_ALPN,
};

const A: [u8; 32] = [1u8; 32];
const B: [u8; 32] = [2u8; 32];

fn route(id: usize, conn: &'static str) -> Route<&'static str> {
    Route { id, conn }
}

// `unhex32` is the exact inverse of `hex32` on every byte value.
#[test]
fn unhex32_inverts_hex32() {
    let mut key = [0u8; 32];
    for (i, b) in key.iter_mut().enumerate() {
        *b = (i * 8 + 7) as u8; // covers low/high nibble variety incl. 0xff
    }
    assert_eq!(unhex32(hex32(&key).as_bytes()).expect("round-trip"), key);
}

// Load-bearing cross-layer invariant: the link's `node_key` must equal the
// ed25519 public key that the server name is derived from for the same secret.
#[test]
fn node_key_matches_ed25519_public_key() {
    let secret = [7u8; 32];
    let expected = ed25519_dalek::SigningKey::from_bytes(&secret).verifying_key().to_bytes();
    assert_eq!(node_key(&secret), expected);
    assert_ne!(node_key(&secret), secret);
    assert_ne!(node_key(&[1u8; 32]), node_key(&[2u8; 32]));
}

/// What sending to `addr` comes to on a node that knows nobody.
fn send_from_nowhere(addr: &[u8]) -> Result<(), LinkError> {
    let routes: Routes<&str> = Routes::new();
    let addrs: PeerMap<&str> = PeerMap::new();
    let key = unhex32(addr)?;
    next_hop(&routes, &addrs, &key, false, false).map(|_| ())
}

// A destination with no seeded address that has never dialed us is unroutable.
#[test]
fn send_to_unknown_peer_is_an_error() {
    assert!(send_from_nowhere(hex32(&[9u8; 32]).as_bytes()).is_err());
    assert_eq!(send_from_nowhere(hex32(&[9u8; 32]).as_bytes()), Err(LinkError::NoKnownAddress));
    assert_eq!(LinkError::NoKnownAddress.message(), "link: no known address for peer");
}

// The seam's address is exactly 64 lowercase hex chars; anything else is
// rejected at the boundary, before any dial is attempted.
#[test]
fn send_to_malformed_address_is_an_error() {
    let uppercase = hex32(&[9u8; 32]).to_uppercase();
    for addr in [
        &b""[..],             // empty
        b"abc123",            // too short
        &[b'a'; 63],          // one short
        &[b'a'; 65],          // one long
        uppercase.as_bytes(), // not canonical lowercase
        &[b'g'; 64],          // right length, not hex
    ] {
        assert!(send_from_nowhere(addr).is_err(), "address {addr:?} must be rejected");
    }
    let letters = hex32(&[0xabu8; 32]).to_uppercase();
    assert_eq!(unhex32(letters.as_bytes()), Err(LinkError::AddressDigit));
}

#[test]
fn address_errors_say_what_is_wrong() {
    assert_eq!(
        unhex32(b"abc123").unwrap_err().message(),
        "link: peer address must be the 64-char lowercase hex of a 32-byte node id, got 6 bytes"
    );
    assert_eq!(
        unhex32(b"").unwrap_err().message(),
        "link: peer address must be the 64-char lowercase hex of a 32-byte node id, got 0 bytes"
    );
    assert_eq!(
        unhex32(&[b'a'; 1065]).unwrap_err().message(),
        "link: peer address must be the 64-char lowercase hex of a 32-byte node id, got 1065 bytes"
    );
    assert_eq!(
        unhex32(&[b'g'; 64]).unwrap_err().message(),
        "link: peer address must be lowercase hex (a 32-byte node id)"
    );
}

#[test]
fn a_learned_address_is_dialled_before_discovery_is_asked() {
    let mut addrs: PeerMap<&str> = PeerMap::new();
    addrs.insert(A, "10.0.0.1");
    addrs.insert(A, "10.0.0.2");
    for by_id in [false, true] {
        assert!(matches!(dial_target(&addrs, &A, by_id), Ok(DialTarget::At(addr)) if *addr == "10.0.0.2"));
    }
    assert!(matches!(dial_target(&addrs, &B, false), Err(LinkError::NoKnownAddress)));
}

#[test]
fn a_peer_is_dialled_by_its_id_only_if_it_is_a_key() {
    let addrs: PeerMap<&str> = PeerMap::new();
    let peer = node_key(&[7u8; 32]);
    assert!(matches!(dial_target(&addrs, &peer, true), Ok(DialTarget::ById(id)) if id == peer));
    // y = 2 is not on the curve.
    let mut off_curve = [0u8; 32];
    off_curve[0] = 2;
    assert!(ed25519_dalek::VerifyingKey::from_bytes(&off_curve).is_err());
    let error = dial_target(&addrs, &off_curve, true).unwrap_err();
    assert_eq!(error, LinkError::InvalidPeerId { cause: "data is not a valid public key".to_string() });
    assert_eq!(error.message(), "link: invalid peer id: data is not a valid public key");
}

#[test]
fn keys_are_taken_for_peer_ids_as_the_curve_says() {
    let addrs: PeerMap<&str> = PeerMap::new();
    for b in 0..=255u8 {
        let mut key = [0u8; 32];
        key[0] = b;
        key[17] = b.wrapping_mul(3);
        let is_key = ed25519_dalek::VerifyingKey::from_bytes(&key).is_ok();
        assert_eq!(dial_target(&addrs, &key, true).is_ok(), is_key);
    }
}

#[test]
fn an_open_connection_is_reused_and_a_closed_one_dialled_again() {
    let mut routes = Routes::new();
    let mut addrs = PeerMap::new();
    addrs.insert(A, "10.0.0.1");
    assert!(routes.adopt(A, route(1, "first"), false));
    assert!(matches!(next_hop(&routes, &addrs, &A, true, false), Ok(Hop::Reuse(conn)) if *conn == "first"));
    assert!(matches!(
        next_hop(&routes, &addrs, &A, false, false),
        Ok(Hop::Dial(DialTarget::At(addr))) if *addr == "10.0.0.1"
    ));
    // Nothing is known of B, whatever is said of a connection that is not there.
    assert!(matches!(next_hop(&routes, &addrs, &B, true, false), Err(LinkError::NoKnownAddress)));
}

#[test]
fn dial_failures_name_the_peer() {
    let failed = dialled(&A, DialOutcome::<u8>::Failed { cause: "no route".to_string() }).unwrap_err();
    assert_eq!(failed.message(), format!("link connect to {}: no route", hex32(&A)));
    let late = dialled(&A, DialOutcome::<u8>::TimedOut).unwrap_err();
    assert_eq!(late.message(), format!("link connect to {} timed out after 30s", hex32(&A)));
    assert_eq!(dialled(&A, DialOutcome::Connected(5)), Ok(5));
    assert_eq!(LinkError::Send { cause: "too large".to_string() }.message(), "send_datagram: too large");
}

#[test]
fn a_live_connection_that_came_up_while_dialling_is_kept() {
    let mut routes = Routes::new();
    assert_eq!(routes.settle_dial(A, route(1, "first"), true), Settled::Installed);
    assert_eq!(routes.settle_dial(A, route(2, "second"), true), Settled::Superseded);
    assert_eq!(routes.get(&A), Some(&route(1, "first")));
    assert_eq!(routes.settle_dial(A, route(3, "third"), false), Settled::Installed);
    assert_eq!(routes.get(&A), Some(&route(3, "third")));
    assert!(routes.get(&B).is_none());
}

#[test]
fn an_accepted_connection_does_not_displace_a_live_one() {
    let mut routes = Routes::new();
    assert!(routes.adopt(A, route(1, "first"), true));
    assert!(!routes.adopt(A, route(2, "second"), true));
    assert_eq!(routes.reusable(&A, true), Some(&"first"));
    assert!(routes.adopt(A, route(3, "third"), false));
    assert_eq!(routes.reusable(&A, true), Some(&"third"));
    assert_eq!(routes.reusable(&A, false), None);
}

#[test]
fn a_dying_connection_takes_only_its_own_route_away() {
    let mut routes = Routes::new();
    routes.adopt(A, route(1, "old"), false);
    routes.adopt(B, route(1, "other"), false);
    routes.adopt(A, route(2, "new"), false);
    assert!(!routes.reader_closed(&A, 1));
    assert_eq!(routes.get(&A), Some(&route(2, "new")));
    assert!(routes.reader_closed(&A, 2));
    assert!(routes.get(&A).is_none());
    assert!(!routes.reader_closed(&A, 2));
    assert_eq!(routes.get(&B), Some(&route(1, "other")));
}

#[test]
fn a_reader_stops_only_when_the_link_is_gone() {
    assert!(reader_goes_on(Enqueued::Accepted));
    assert!(reader_goes_on(Enqueued::Full));
    assert!(!reader_goes_on(Enqueued::Closed));
}

#[test]
fn connections_are_told_apart_by_their_protocol() {
    assert_eq!(RELAY_ALPN, "neutrino/iroh-relay/0");
    assert_eq!(MEDIA_ALPN, "neutrino/media-probe/0");
    for waiting in [0, MEDIA_CAPACITY, 100] {
        assert_eq!(accept_lane(b"neutrino/iroh-relay/0", waiting), Lane::Relay);
        assert_eq!(accept_lane(b"neutrino/iroh-relay/1", waiting), Lane::Refused);
        assert_eq!(accept_lane(b"", waiting), Lane::Refused);
    }
}

#[test]
fn an_overflowing_call_is_refused_at_the_door() {
    let mut waiting = 0;
    for _ in 0..8 {
        if accept_lane(b"neutrino/media-probe/0", waiting) == Lane::Media {
            waiting += 1;
        }
    }
    assert_eq!(waiting, 4);
    assert_eq!(accept_lane(b"neutrino/media-probe/0", waiting), Lane::Refused);
    assert_eq!(accept_lane(b"neutrino/iroh-relay/0", waiting), Lane::Relay);
}

#[test]
fn a_reply_to_a_tagged_datagram_goes_to_its_sender() {
    for key in [A, B, [0u8; 32], [255u8; 32]] {
        assert_eq!(unhex32(&link_addr(&key)), Ok(key));
    }
}
