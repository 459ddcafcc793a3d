use neutrino_ble::peer_map::{same_key, PeerMap};

const A: [u8; 32] = [1u8; 32];
const B: [u8; 32] = [2u8; 32];

#[test]
fn the_last_entry_for_a_key_counts() {
    let mut map = PeerMap::from_pairs(vec![(A, 1), (B, 2), (A, 3)]);
    assert_eq!(map.get(&A), Some(&3));
    assert_eq!(map.get(&B), Some(&2));
    assert_eq!(map.insert(B, 4), Some(2));
    assert_eq!(map.remove(&A), Some(3));
    assert_eq!(map.remove(&A), None);
    assert_eq!(map.get(&A), None);
    map.insert_all(vec![(A, 5), (A, 6)]);
    let mut pairs = map.into_pairs();
    pairs.sort();
    assert_eq!(pairs, vec![(A, 6), (B, 4)]);
}

#[test]
fn keys_are_compared_in_full() {
    for i in 0..32 {
        let mut other = A;
        other[i] = 9;
        assert!(!same_key(&A, &other));
    }
    assert!(same_key(&A, &[1u8; 32]));
    let empty: PeerMap<u8> = PeerMap::new();
    assert!(empty.get(&A).is_none());
}
