use neutrino_ble::node_id::{hex32, link_addr, parse_hex32, parse_link_addr, HexError};

#[test]
fn keys_are_rendered_in_lowercase_hex() {
    let mut key = [0u8; 32];
    key[0] = 0x09;
    key[1] = 0xaf;
    key[31] = 0xff;
    let expected = format!("09af{}ff", "0".repeat(58));
    assert_eq!(hex32(&key), expected);
    assert_eq!(link_addr(&key), expected.as_bytes());
}

#[test]
fn every_byte_value_round_trips() {
    for b in 0..=255u8 {
        let mut key = [b; 32];
        key[5] = b.wrapping_add(1);
        assert_eq!(parse_hex32(&hex32(&key)), Some(key));
        assert_eq!(parse_link_addr(&link_addr(&key)), Ok(key));
        assert_eq!(hex32(&key).into_bytes(), link_addr(&key));
    }
}

#[test]
fn addresses_are_rejected_for_their_length_or_a_digit() {
    assert_eq!(parse_link_addr(b""), Err(HexError::Length));
    assert_eq!(parse_link_addr(&[b'g'; 63]), Err(HexError::Length));
    assert_eq!(parse_link_addr(&[b'a'; 65]), Err(HexError::Length));
    for digit in [b'g', b'A', b'/', b':', b'`', b' ', 0, 255] {
        let mut addr = [b'0'; 64];
        addr[63] = digit;
        assert_eq!(parse_link_addr(&addr), Err(HexError::Digit));
    }
}

#[test]
fn distinct_keys_render_differently() {
    assert_ne!(hex32(&[1u8; 32]), hex32(&[2u8; 32]));
    assert_ne!(link_addr(&[1u8; 32]), link_addr(&[2u8; 32]));
}

#[test]
fn text_that_is_not_ascii_is_no_key() {
    // 64 bytes, 63 characters.
    let text = format!("{}\u{e9}", "a".repeat(62));
    assert_eq!(text.len(), 64);
    assert_eq!(parse_hex32(&text), None);
}
