//! The framing of the fault-injection link: plain datagrams that say
//! themselves which node sent them, so that a harness can put an impairment
//! proxy between two nodes without the proxy knowing the protocol.
//!
//! Nothing here verifies the sender id of a frame. That is acceptable for a
//! fault-injection harness and for nothing else.

use vstd::prelude::*;
use vstd::slice::{slice_subrange, slice_to_vec};

use crate::node_id::{addr_key, hex_ascii, law_hex_round_trip, link_addr, parse_link_addr, HexError, LinkAddr, NodeKey};
use crate::peer_map::{last_wins, PeerMap};

verus! {

/// How many bytes of a frame name its sender.
pub const SENDER_BYTES: usize = 32;

/// Size of the receive buffer: the largest datagram fits.
pub const RECEIVE_BUFFER: usize = 65_536;

/// Bound on buffered inbound datagrams.
pub const INBOUND_CAPACITY: usize = 256;

/// Why a datagram was not sent.
#[derive(Clone, Copy, Debug, PartialEq, Eq, Structural)]
pub enum SimError {
    /// The peer address is not 64 bytes long.
    AddressLength,
    /// The peer address is not lowercase hex.
    AddressDigit,
    /// The peer is not among the configured ones.
    UnknownPeer,
}

/// The message of an error.
pub open spec fn sim_error_text(error: SimError) -> Seq<char> {
    match error {
        SimError::AddressLength => "sim link: address must be 64 hex"@,
        SimError::AddressDigit => "sim link: bad hex in address"@,
        SimError::UnknownPeer => "sim link: unknown peer"@,
    }
}

impl SimError {
    /// The message of the error.
    pub fn message(&self) -> (r: &'static str)
        ensures
            r@ == sim_error_text(*self),
    {
        match self {
            SimError::AddressLength => "sim link: address must be 64 hex",
            SimError::AddressDigit => "sim link: bad hex in address",
            SimError::UnknownPeer => "sim link: unknown peer",
        }
    }
}

/// Parse a link address back into the node key.
pub fn unhex32(addr: &[u8]) -> (r: Result<NodeKey, SimError>)
    ensures
        (match r {
            Ok(key) => addr_key(addr@) == Some(key@),
            Err(error) => error == (if addr@.len() != 64 {
                SimError::AddressLength
            } else {
                SimError::AddressDigit
            }) && addr_key(addr@) is None,
        }),
{
    match parse_link_addr(addr) {
        Ok(key) => Ok(key),
        Err(HexError::Length) => Err(SimError::AddressLength),
        Err(HexError::Digit) => Err(SimError::AddressDigit),
    }
}

/// The frame that carries `datagram` from the node `sender`.
pub open spec fn framed(sender: Seq<u8>, datagram: Seq<u8>) -> Seq<u8> {
    sender + datagram
}

/// The parts of a frame.
#[verifier::ext_equal]
pub struct FrameParts {
    pub sender: Seq<u8>,
    pub datagram: Seq<u8>,
}

/// The parts of a frame; none where it is too short to name a sender.
pub open spec fn unframed(frame: Seq<u8>) -> Option<FrameParts> {
    if frame.len() < SENDER_BYTES {
        None
    } else {
        Some(FrameParts { sender: frame.take(SENDER_BYTES as int), datagram: frame.skip(SENDER_BYTES as int) })
    }
}

/// The frame that carries `datagram` from the node `sender`.
pub fn encode_frame(sender: &NodeKey, datagram: &[u8]) -> (r: Vec<u8>)
    ensures
        r@ == framed(sender@, datagram@),
{
    let mut frame: Vec<u8> = Vec::new();
    frame.extend_from_slice(sender.as_slice());
    frame.extend_from_slice(datagram);
    assert(frame@ =~= framed(sender@, datagram@));
    frame
}

/// The sender's link address and the datagram of a received frame; none where
/// it is too short to name a sender.
pub fn decode_frame(frame: &[u8]) -> (r: Option<(LinkAddr, Vec<u8>)>)
    ensures
        (match r {
            Some((src, datagram)) => unframed(frame@) is Some && src@ == hex_ascii(unframed(frame@)->0.sender) && datagram@ == unframed(
                frame@,
            )->0.datagram,
            None => unframed(frame@) is None,
        }),
{
    if frame.len() < SENDER_BYTES {
        return None;
    }
    let mut sender: NodeKey = [0u8; 32];
    let mut i: usize = 0;
    while i < SENDER_BYTES
        invariant
            i <= SENDER_BYTES <= frame@.len(),
            sender@.len() == SENDER_BYTES,
            forall|j: int| 0 <= j < i ==> sender@[j] == frame@[j],
        decreases SENDER_BYTES - i,
    {
        sender[i] = frame[i];
        i += 1;
    }
    assert(sender@ =~= frame@.take(SENDER_BYTES as int));
    let datagram = slice_to_vec(slice_subrange(frame, SENDER_BYTES, frame.len()));
    assert(datagram@ =~= frame@.skip(SENDER_BYTES as int));
    Some((link_addr(&sender), datagram))
}

/// The sending side of the link: who sends, and where each peer's datagrams
/// go.
pub struct SimLink<A> {
    our_id: NodeKey,
    peers: PeerMap<A>,
}

impl<A> SimLink<A> {
    /// The link is well formed.
    pub closed spec fn wf(&self) -> bool {
        self.peers.wf()
    }

    /// The node that sends.
    pub closed spec fn id(&self) -> Seq<u8> {
        self.our_id@
    }

    /// Where each peer's datagrams go.
    pub closed spec fn peers(&self) -> Map<Seq<u8>, A> {
        self.peers@
    }

    /// A link of the node `our_id`. Where a peer is listed twice, the later
    /// address counts.
    pub fn new(our_id: NodeKey, peers: Vec<(NodeKey, A)>) -> (r: Self)
        ensures
            r.wf(),
            r.id() == our_id@,
            r.peers() == last_wins(peers@),
    {
        SimLink { our_id, peers: PeerMap::from_pairs(peers) }
    }

    /// What to send, and where to, for `datagram` to reach the peer at link
    /// address `dst`.
    pub fn plan_send(&self, dst: &[u8], datagram: &[u8]) -> (r: Result<(&A, Vec<u8>), SimError>)
        requires
            self.wf(),
        ensures
            (match r {
                Ok((addr, frame)) => addr_key(dst@) is Some && self.peers().dom().contains(addr_key(dst@)->0) && *addr
                    == self.peers()[addr_key(dst@)->0] && frame@ == framed(self.id(), datagram@),
                Err(SimError::AddressLength) => dst@.len() != 64,
                Err(SimError::AddressDigit) => dst@.len() == 64 && addr_key(dst@) is None,
                Err(SimError::UnknownPeer) => addr_key(dst@) is Some && !self.peers().dom().contains(addr_key(dst@)->0),
            }),
    {
        match unhex32(dst) {
            Ok(key) => match self.peers.get(&key) {
                Some(addr) => Ok((addr, encode_frame(&self.our_id, datagram))),
                None => Err(SimError::UnknownPeer),
            },
            Err(error) => Err(error),
        }
    }
}

/// A frame is the 32 bytes of its sender's key in their order, and then the
/// bytes of the datagram in theirs.
pub proof fn law_frame_layout(sender: NodeKey, datagram: Seq<u8>, i: int)
    ensures
        framed(sender@, datagram).len() == 32 + datagram.len(),
        0 <= i < 32 ==> framed(sender@, datagram)[i] == sender@[i],
        0 <= i < datagram.len() ==> framed(sender@, datagram)[32 + i] == datagram[i],
{
}

/// A frame is taken apart where the sender's key ends, and one that is shorter
/// than a key is dropped.
pub proof fn law_unframed_layout(frame: Seq<u8>, i: int)
    ensures
        unframed(frame) is None <==> frame.len() < 32,
        unframed(frame) matches Some(parts) ==> parts.sender.len() == 32 && parts.datagram.len() == frame.len() - 32 && (0 <= i
            < frame.len() ==> frame[i] == (if i < 32 {
            parts.sender[i]
        } else {
            parts.datagram[i - 32]
        })),
{
}

/// What the errors say, and the limits of the link.
pub proof fn law_messages_and_limits()
    ensures
        sim_error_text(SimError::AddressLength) == "sim link: address must be 64 hex"@,
        sim_error_text(SimError::AddressDigit) == "sim link: bad hex in address"@,
        sim_error_text(SimError::UnknownPeer) == "sim link: unknown peer"@,
        SENDER_BYTES == 32,
        RECEIVE_BUFFER == 65_536,
        INBOUND_CAPACITY == 256,
{
}

/// What goes out in a frame comes in from it: the sender, whose address is the
/// one that a reply goes to, and the datagram unchanged.
pub proof fn law_frame_round_trip(sender: NodeKey, datagram: Seq<u8>)
    ensures
        unframed(framed(sender@, datagram)) == Some(FrameParts { sender: sender@, datagram }),
        addr_key(hex_ascii(unframed(framed(sender@, datagram))->0.sender)) == Some(sender@),
{
    assert(framed(sender@, datagram).take(32) =~= sender@);
    assert(framed(sender@, datagram).skip(32) =~= datagram);
    law_hex_round_trip(sender);
}

/// A frame says all there is to say: taken apart and put together it is the
/// same frame.
pub proof fn law_unframed_frame_is_the_frame(frame: Seq<u8>)
    ensures
        unframed(frame) matches Some(parts) ==> framed(parts.sender, parts.datagram) == frame,
{
    if unframed(frame) is Some {
        assert(framed(unframed(frame)->0.sender, unframed(frame)->0.datagram) =~= frame);
    }
}

/// Every datagram can be told apart from every other, whoever sent it.
pub proof fn law_frames_are_distinct(sender: NodeKey, datagram: Seq<u8>, other: NodeKey, other_datagram: Seq<u8>)
    ensures
        framed(sender@, datagram) == framed(other@, other_datagram) ==> sender == other && datagram == other_datagram,
{
    law_frame_round_trip(sender, datagram);
    law_frame_round_trip(other, other_datagram);
    if framed(sender@, datagram) == framed(other@, other_datagram) {
        assert(sender =~= other);
    }
}

} // verus!
