//! Node identity: raw keys, their hex rendering as server names, and link
//! addresses.

use vstd::prelude::*;
use vstd::string::*;
use vstd::utf8::*;

verus! {

/// A node's identity: the raw bytes of its public key.
pub type NodeKey = [u8; 32];

/// A peer's address on a datagram link: the lowercase hex of its node key, as
/// ASCII bytes.
pub type LinkAddr = Vec<u8>;

/// The lowercase hex digit of value `n`.
pub open spec fn hex_digit(n: int) -> char {
    if n < 10 {
        ('0' as int + n) as char
    } else {
        ('a' as int + (n - 10)) as char
    }
}

/// The value of the hex digit at position `i` of the rendering of `bytes`:
/// each byte gives its high half, then its low half.
pub open spec fn hex_nibble(bytes: Seq<u8>, i: int) -> int {
    if i % 2 == 0 {
        bytes[i / 2] as int / 16
    } else {
        bytes[i / 2] as int % 16
    }
}

/// `bytes` rendered in lowercase hex, two digits a byte.
pub open spec fn hex_text(bytes: Seq<u8>) -> Seq<char> {
    Seq::new(2 * bytes.len(), |i: int| hex_digit(hex_nibble(bytes, i)))
}

/// `bytes` rendered in lowercase hex, as ASCII bytes.
pub open spec fn hex_ascii(bytes: Seq<u8>) -> Seq<u8> {
    Seq::new(2 * bytes.len(), |i: int| hex_digit(hex_nibble(bytes, i)) as u8)
}

/// Whether `c` is a lowercase hex digit.
pub open spec fn is_hex_digit(c: char) -> bool {
    '0' <= c <= '9' || 'a' <= c <= 'f'
}

/// The value of a lowercase hex digit.
pub open spec fn hex_value(c: char) -> int {
    if c <= '9' {
        c as int - '0' as int
    } else {
        c as int - 'a' as int + 10
    }
}

/// The key that `text` is the canonical rendering of, if it is one: exactly 64
/// lowercase hex digits.
pub open spec fn text_key(text: Seq<char>) -> Option<Seq<u8>> {
    if text.len() == 64 && forall|i: int| 0 <= i < 64 ==> is_hex_digit(#[trigger] text[i]) {
        Some(Seq::new(32, |i: int| (16 * hex_value(text[2 * i]) + hex_value(text[2 * i + 1])) as u8))
    } else {
        None
    }
}

/// The bytes of a link address, as characters.
pub open spec fn ascii_chars(addr: Seq<u8>) -> Seq<char> {
    Seq::new(addr.len(), |i: int| addr[i] as char)
}

/// The key that the link address `addr` names, if it is a link address.
pub open spec fn addr_key(addr: Seq<u8>) -> Option<Seq<u8>> {
    text_key(ascii_chars(addr))
}

/// The one-character string of a hex digit.
fn hex_str(n: u8) -> (r: &'static str)
    requires
        n < 16,
    ensures
        r@ == seq![hex_digit(n as int)],
{
    proof {
        reveal_strlit("0");
        reveal_strlit("1");
        reveal_strlit("2");
        reveal_strlit("3");
        reveal_strlit("4");
        reveal_strlit("5");
        reveal_strlit("6");
        reveal_strlit("7");
        reveal_strlit("8");
        reveal_strlit("9");
        reveal_strlit("a");
        reveal_strlit("b");
        reveal_strlit("c");
        reveal_strlit("d");
        reveal_strlit("e");
        reveal_strlit("f");
    }
    match n {
        0 => "0",
        1 => "1",
        2 => "2",
        3 => "3",
        4 => "4",
        5 => "5",
        6 => "6",
        7 => "7",
        8 => "8",
        9 => "9",
        10 => "a",
        11 => "b",
        12 => "c",
        13 => "d",
        14 => "e",
        _ => "f",
    }
}

/// Lowercase-hex a node key: the node's `server_name`, whose bytes are its
/// address on a datagram link.
pub fn hex32(bytes: &[u8; 32]) -> (r: String)
    ensures
        r@ == hex_text(bytes@),
{
    let mut s = String::new();
    let mut i: usize = 0;
    while i < 32
        invariant
            i <= 32,
            s@ == hex_text(bytes@).take(2 * i),
        decreases 32 - i,
    {
        let b = bytes[i];
        s.append(hex_str(b / 16));
        s.append(hex_str(b % 16));
        i += 1;
        assert(s@ =~= hex_text(bytes@).take(2 * i));
    }
    assert(hex_text(bytes@).take(64) =~= hex_text(bytes@));
    s
}

/// The ASCII code of a hex digit.
fn hex_code(n: u8) -> (r: u8)
    requires
        n < 16,
    ensures
        r == hex_digit(n as int) as u8,
{
    if n < 10 {
        '0' as u8 + n
    } else {
        'a' as u8 + (n - 10)
    }
}

/// The link address of a node key: the bytes of its [`hex32`] rendering.
pub fn link_addr(key: &NodeKey) -> (r: LinkAddr)
    ensures
        r@ == hex_ascii(key@),
{
    let mut out: Vec<u8> = Vec::new();
    let mut i: usize = 0;
    while i < 32
        invariant
            i <= 32,
            out@ == hex_ascii(key@).take(2 * i),
        decreases 32 - i,
    {
        let b = key[i];
        out.push(hex_code(b / 16));
        out.push(hex_code(b % 16));
        i += 1;
        assert(out@ =~= hex_ascii(key@).take(2 * i));
    }
    assert(hex_ascii(key@).take(64) =~= hex_ascii(key@));
    out
}

/// The value of a lowercase hex digit, if the byte is one.
fn nibble(b: u8) -> (r: Option<u8>)
    ensures
        r is Some <==> is_hex_digit(b as char),
        r matches Some(n) ==> n < 16 && n == hex_value(b as char),
{
    if '0' as u8 <= b && b <= '9' as u8 {
        Some(b - '0' as u8)
    } else if 'a' as u8 <= b && b <= 'f' as u8 {
        Some(b - 'a' as u8 + 10)
    } else {
        None
    }
}

/// Why a byte string is not the hex of a node key.
#[derive(Clone, Copy, Debug, PartialEq, Eq, Structural)]
pub enum HexError {
    /// It is not 64 bytes long.
    Length,
    /// It is 64 bytes long, and some byte is not a lowercase hex digit.
    Digit,
}

/// The strict inverse of [`link_addr`]: exactly 64 lowercase hex digits. It is
/// not lenient, because addresses are compared as exact bytes.
pub fn parse_link_addr(addr: &[u8]) -> (r: Result<NodeKey, HexError>)
    ensures
        r is Ok <==> addr_key(addr@) is Some,
        r matches Ok(key) ==> addr_key(addr@) == Some(key@),
        r matches Err(e) ==> (e == HexError::Length <==> addr@.len() != 64),
{
    if addr.len() != 64 {
        return Err(HexError::Length);
    }
    let mut key: NodeKey = [0u8; 32];
    let mut i: usize = 0;
    let ghost text = ascii_chars(addr@);
    while i < 32
        invariant
            i <= 32,
            addr@.len() == 64,
            text == ascii_chars(addr@),
            forall|j: int| 0 <= j < 2 * i ==> is_hex_digit(#[trigger] text[j]),
            forall|j: int| 0 <= j < i ==> #[trigger] key@[j] == 16 * hex_value(text[2 * j]) + hex_value(text[2 * j + 1]),
        decreases 32 - i,
    {
        match (nibble(addr[2 * i]), nibble(addr[2 * i + 1])) {
            (Some(hi), Some(lo)) => {
                key[i] = hi * 16 + lo;
            },
            _ => {
                assert(!is_hex_digit(text[2 * i]) || !is_hex_digit(text[2 * i + 1]));
                return Err(HexError::Digit);
            },
        }
        i += 1;
    }
    assert(key@ =~= addr_key(addr@)->0);
    Ok(key)
}

/// Parse a node key out of its [`hex32`] rendering; the strict inverse of it.
pub fn parse_hex32(s: &str) -> (r: Option<NodeKey>)
    ensures
        r is Some <==> text_key(s@) is Some,
        r matches Some(key) ==> text_key(s@) == Some(key@),
{
    let bytes = s.as_bytes();
    proof {
        lemma_utf8_key(s@);
    }
    match parse_link_addr(bytes) {
        Ok(key) => Some(key),
        Err(_) => None,
    }
}

/// A string is a canonical rendering exactly when its UTF-8 bytes are a link
/// address, and both name the same key.
proof fn lemma_utf8_key(text: Seq<char>)
    ensures
        addr_key(encode_utf8(text)) == text_key(text),
{
    let bytes = encode_utf8(text);
    if text_key(text) is Some {
        assert(is_ascii_chars(text));
        is_ascii_chars_encode_utf8(text);
        assert(ascii_chars(bytes) =~= text);
    } else if addr_key(bytes) is Some {
        let ascii = ascii_chars(bytes);
        assert(forall|i: int| 0 <= i < 64 ==> is_hex_digit(#[trigger] ascii[i]));
        assert(is_ascii_chars(ascii));
        is_ascii_chars_encode_utf8(ascii);
        assert(encode_utf8(ascii) =~= bytes);
        encode_utf8_decode_utf8(ascii);
        encode_utf8_decode_utf8(text);
        assert(text == ascii);
    }
}

/// Reading a rendered key gives the key back, from its text as from its bytes.
pub proof fn law_hex_round_trip(key: NodeKey)
    ensures
        text_key(hex_text(key@)) == Some(key@),
        addr_key(hex_ascii(key@)) == Some(key@),
{
    let text = hex_text(key@);
    assert forall|i: int| 0 <= i < 64 implies is_hex_digit(#[trigger] text[i]) && hex_value(text[i]) == hex_nibble(key@, i) by {
        assert(0 <= hex_nibble(key@, i) < 16);
    }
    assert(text_key(text)->0 =~= key@) by {
        assert forall|i: int| 0 <= i < 32 implies text_key(text)->0[i] == #[trigger] key@[i] by {
            assert(is_hex_digit(text[2 * i]));
            assert(is_hex_digit(text[2 * i + 1]));
        }
    }
    assert(ascii_chars(hex_ascii(key@)) =~= text);
}

/// A text or an address that names a key is the one rendering of that key: no
/// second spelling is accepted.
pub proof fn law_hex_is_canonical(text: Seq<char>, addr: Seq<u8>)
    ensures
        text_key(text) matches Some(key) ==> key.len() == 32 && hex_text(key) == text,
        addr_key(addr) matches Some(key) ==> key.len() == 32 && hex_ascii(key) == addr,
{
    lemma_canonical(text);
    lemma_canonical(ascii_chars(addr));
    if addr_key(addr) is Some {
        let key = addr_key(addr)->0;
        assert forall|i: int| 0 <= i < 64 implies hex_ascii(key)[i] == #[trigger] addr[i] by {
            assert(hex_text(key)[i] == ascii_chars(addr)[i]);
        }
        assert(hex_ascii(key) =~= addr);
    }
}

/// A text that names a key is the rendering of that key.
proof fn lemma_canonical(text: Seq<char>)
    ensures
        text_key(text) matches Some(key) ==> key.len() == 32 && hex_text(key) == text,
{
    if text_key(text) is Some {
        let key = text_key(text)->0;
        assert forall|i: int| 0 <= i < 64 implies hex_text(key)[i] == #[trigger] text[i] by {
            let h = i - i % 2;
            assert(is_hex_digit(text[h]));
            assert(is_hex_digit(text[h + 1]));
            assert(key[h / 2] == 16 * hex_value(text[h]) + hex_value(text[h + 1]));
        }
        assert(hex_text(key) =~= text);
    }
}

/// Distinct keys have distinct renderings.
pub proof fn law_hex_is_injective(a: NodeKey, b: NodeKey)
    ensures
        hex_text(a@) == hex_text(b@) ==> a == b,
        hex_ascii(a@) == hex_ascii(b@) ==> a == b,
{
    law_hex_round_trip(a);
    law_hex_round_trip(b);
}

/// The rendering is in byte order: the two characters for a byte stand where
/// the byte stands, its high half first, each half as its hex digit.
pub proof fn law_hex_is_in_byte_order(bytes: Seq<u8>, i: int)
    requires
        0 <= i < bytes.len(),
    ensures
        hex_text(bytes).len() == 2 * bytes.len(),
        hex_text(bytes)[2 * i] == "0123456789abcdef"@[bytes[i] as int / 16],
        hex_text(bytes)[2 * i + 1] == "0123456789abcdef"@[bytes[i] as int % 16],
        hex_ascii(bytes).len() == 2 * bytes.len(),
        hex_ascii(bytes)[2 * i] == "0123456789abcdef"@[bytes[i] as int / 16] as u8,
        hex_ascii(bytes)[2 * i + 1] == "0123456789abcdef"@[bytes[i] as int % 16] as u8,
{
    reveal_strlit("0123456789abcdef");
    assert("0123456789abcdef"@.len() == 16);
    lemma_hex_digit(bytes[i] as int / 16);
    lemma_hex_digit(bytes[i] as int % 16);
    assert((2 * i) % 2 == 0 && (2 * i) / 2 == i);
    assert((2 * i + 1) % 2 == 1 && (2 * i + 1) / 2 == i);
}

/// The digits are those of the hex alphabet.
proof fn lemma_hex_digit(n: int)
    requires
        0 <= n < 16,
    ensures
        hex_digit(n) == "0123456789abcdef"@[n],
{
    reveal_strlit("0123456789abcdef");
}

/// What stands for several bytes is what stands for the first ones, and then
/// what stands for the others.
pub proof fn law_hex_of_parts(first: Seq<u8>, second: Seq<u8>)
    ensures
        hex_text(first + second) == hex_text(first) + hex_text(second),
        hex_ascii(first + second) == hex_ascii(first) + hex_ascii(second),
{
    assert(hex_text(first + second) =~= hex_text(first) + hex_text(second));
    assert(hex_ascii(first + second) =~= hex_ascii(first) + hex_ascii(second));
}

} // verus!
