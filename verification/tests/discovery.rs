use neutrino_ble::discovery::{
    epoch_millis, mdns_step, DiscoveredPeer, DiscoveryDrain, MdnsAction, MdnsEvent, DISCOVERY_LOCALPART,
};
use neutrino_ble::node_id::hex32;

const A: [u8; 32] = [1u8; 32];
const B: [u8; 32] = [2u8; 32];

fn peer(name: &str, at: u64) -> DiscoveredPeer {
    DiscoveredPeer { localpart: "n".to_string(), display_name: name.to_string(), last_seen_ms: at }
}

#[test]
fn a_snapshot_becomes_the_directory() {
    let mut drain = DiscoveryDrain::new();
    let got = drain.absorb(vec![(A, "ann".to_string()), (B, "bob".to_string()), (A, "anna".to_string())], 7);
    let mut peers = got.peers;
    peers.sort_by(|x, y| x.0.cmp(&y.0));
    assert_eq!(peers, vec![(hex32(&A), peer("anna", 7)), (hex32(&B), peer("bob", 7))]);
    assert!(got.appeared);
    assert_eq!(DISCOVERY_LOCALPART, "n");
}

#[test]
fn only_a_peer_that_the_last_snapshot_lacked_is_news() {
    let mut drain = DiscoveryDrain::new();
    assert!(!drain.absorb(Vec::new(), 0).appeared);
    assert!(drain.absorb(vec![(A, String::new())], 1).appeared);
    assert!(!drain.absorb(vec![(A, "renamed".to_string())], 2).appeared);
    assert!(drain.absorb(vec![(B, String::new()), (A, String::new())], 3).appeared);
    assert!(!drain.absorb(vec![(B, String::new())], 4).appeared);
    let gone = drain.absorb(Vec::new(), 5);
    assert!(!gone.appeared && gone.peers.is_empty());
    // A peer that comes back is news again.
    assert!(drain.absorb(vec![(B, String::new())], 6).appeared);
}

#[test]
fn an_announced_peer_is_seeded_and_is_news_once() {
    let event = MdnsEvent::Discovered { id: B, dialable: true };
    for known in [false, true] {
        assert_eq!(
            mdns_step(&A, &event, known, 9),
            MdnsAction::Seed { server_name: hex32(&B), peer: peer("", 9), kick: !known }
        );
    }
}

#[test]
fn announcements_that_lead_nowhere_are_ignored() {
    for known in [false, true] {
        for event in [
            MdnsEvent::Discovered { id: A, dialable: true },
            MdnsEvent::Discovered { id: A, dialable: false },
            MdnsEvent::Discovered { id: B, dialable: false },
            MdnsEvent::Expired { id: B },
            MdnsEvent::Other,
        ] {
            assert_eq!(mdns_step(&A, &event, known, 9), MdnsAction::Ignore);
        }
    }
}

#[test]
fn timestamps_are_milliseconds_since_the_epoch() {
    assert_eq!(epoch_millis(None), 0);
    assert_eq!(epoch_millis(Some(0)), 0);
    assert_eq!(epoch_millis(Some(1_700_000_000_000)), 1_700_000_000_000);
    let wide: u128 = (5u128 << 64) + 42;
    assert_eq!(epoch_millis(Some(wide)), wide as u64);
    assert_eq!(epoch_millis(Some(u128::MAX)), u64::MAX);
}
