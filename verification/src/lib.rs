//! The federation medium of an embedded homeserver that reaches its peers over
//! a mesh: who a node is, how its datagrams get to a peer, what it makes of the
//! peers that it discovers, and how its members join a call.
//!
//! A node is its ed25519 public key. The key's lowercase hex is the node's
//! server name, and the bytes of that text are its link address ([`node_id`]).
//! Everything that decides is here; what moves bytes (sockets, connections,
//! timers) performs the decisions and reports back.

pub mod call_laws;
pub mod call_member;
pub mod call_reading;
pub mod call_wire;
pub mod discovery;
pub mod json;
pub mod json_laws;
pub mod lan;
pub mod node_id;
pub mod peer_map;
pub mod relay_transport;
pub mod sim_link;
pub mod text;
