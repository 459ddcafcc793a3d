//! The rules of the federation datagram link: who a node is, which connection
//! carries a datagram to a peer, and when a connection is dialled, taken over
//! or dropped.

use vstd::prelude::*;
use vstd::string::*;
use vstd::utf8::*;

use crate::node_id::{addr_key, hex32, hex_text, parse_link_addr, HexError, NodeKey};
use crate::peer_map::PeerMap;
use crate::text::{decimal_text, law_decimal_digits_in_order, push_decimal};

verus! {

/// ALPN of the federation datagram link.
pub const RELAY_ALPN: &'static str = "neutrino/iroh-relay/0";

/// ALPN of a call's media leg, on the same endpoint.
pub const MEDIA_ALPN: &'static str = "neutrino/media-probe/0";

/// Upper bound on a single dial, in seconds.
pub const CONNECT_TIMEOUT_SECS: u64 = 30;

/// Idle timeout of a connection, in seconds: more than twice the keepalive
/// interval, so that a healthy link survives one lost keepalive.
pub const CONN_MAX_IDLE_SECS: u64 = 10;

/// Bound on buffered inbound datagrams.
pub const INBOUND_CAPACITY: usize = 256;

/// Bound on media legs that wait to be accepted.
pub const MEDIA_CAPACITY: usize = 4;

/// The datagram size that the link declares, so that a block and its options
/// fit in one message.
pub const MAX_DATAGRAM: usize = 1024;

/// Whether 32 bytes are an ed25519 public key.
pub uninterp spec fn is_public_key(bytes: Seq<u8>) -> bool;

/// The ed25519 public key of a 32-byte secret.
pub uninterp spec fn public_key(secret: Seq<u8>) -> Seq<u8>;

/// Calls `iroh::EndpointId::from_bytes`. What it claims: whether the bytes are
/// taken is a function of the bytes alone; an endpoint id is the bytes that it
/// was made of, and what is not one is refused with one message.
#[verifier::external_body]
fn endpoint_id(bytes: &[u8; 32]) -> (r: Result<NodeKey, String>)
    ensures
        r is Ok <==> is_public_key(bytes@),
        r matches Ok(id) ==> id@ == bytes@,
        r matches Err(cause) ==> cause@ == "data is not a valid public key"@,
{
    match iroh::EndpointId::from_bytes(bytes) {
        Ok(id) => Ok(*id.as_bytes()),
        Err(e) => Err(e.to_string()),
    }
}

/// Calls `iroh::SecretKey::from_bytes` and `public`. What it claims: the public
/// key is a function of the secret alone, and it is one that
/// `iroh::EndpointId::from_bytes` takes.
#[verifier::external_body]
fn endpoint_key(secret: &[u8; 32]) -> (r: NodeKey)
    ensures
        r@ == public_key(secret@),
        is_public_key(r@),
{
    *iroh::SecretKey::from_bytes(secret).public().as_bytes()
}

/// The identity of the node that holds `secret`: its ed25519 public key, which
/// is also the id of its endpoint.
pub fn node_key(secret: &[u8; 32]) -> (r: NodeKey)
    ensures
        r@ == public_key(secret@),
        is_public_key(r@),
{
    endpoint_key(secret)
}

/// Why a datagram was not sent.
#[derive(Clone, Debug, PartialEq, Eq)]
pub enum LinkError {
    /// The peer address is not 64 bytes long.
    AddressLength {
        /// How long it is.
        got: usize,
    },
    /// The peer address is not lowercase hex.
    AddressDigit,
    /// The peer address is not the id of an endpoint.
    InvalidPeerId {
        /// What the id was refused for.
        cause: String,
    },
    /// Nothing is known of where the peer is.
    NoKnownAddress,
    /// The dial failed.
    Connect {
        /// The peer that was dialled.
        peer: String,
        /// What it failed for.
        cause: String,
    },
    /// The dial took too long.
    ConnectTimeout {
        /// The peer that was dialled.
        peer: String,
    },
    /// The connection did not take the datagram.
    Send {
        /// What it was refused for.
        cause: String,
    },
}

/// The message of a link error.
pub open spec fn link_error_text(error: LinkError) -> Seq<char> {
    match error {
        LinkError::AddressLength { got } => "link: peer address must be the 64-char lowercase hex of a 32-byte node id, got "@
            + decimal_text(got as nat) + " bytes"@,
        LinkError::AddressDigit => "link: peer address must be lowercase hex (a 32-byte node id)"@,
        LinkError::InvalidPeerId { cause } => "link: invalid peer id: "@ + cause@,
        LinkError::NoKnownAddress => "link: no known address for peer"@,
        LinkError::Connect { peer, cause } => "link connect to "@ + peer@ + ": "@ + cause@,
        LinkError::ConnectTimeout { peer } => "link connect to "@ + peer@ + " timed out after "@ + decimal_text(
            CONNECT_TIMEOUT_SECS as nat,
        ) + "s"@,
        LinkError::Send { cause } => "send_datagram: "@ + cause@,
    }
}

impl LinkError {
    /// The message of the error.
    pub fn message(&self) -> (r: String)
        ensures
            r@ == link_error_text(*self),
    {
        let mut out = String::new();
        match self {
            LinkError::AddressLength { got } => {
                out.append("link: peer address must be the 64-char lowercase hex of a 32-byte node id, got ");
                push_decimal(&mut out, *got as u64);
                out.append(" bytes");
            },
            LinkError::AddressDigit => {
                out.append("link: peer address must be lowercase hex (a 32-byte node id)");
            },
            LinkError::InvalidPeerId { cause } => {
                out.append("link: invalid peer id: ");
                out.append(cause.as_str());
            },
            LinkError::NoKnownAddress => {
                out.append("link: no known address for peer");
            },
            LinkError::Connect { peer, cause } => {
                out.append("link connect to ");
                out.append(peer.as_str());
                out.append(": ");
                out.append(cause.as_str());
            },
            LinkError::ConnectTimeout { peer } => {
                out.append("link connect to ");
                out.append(peer.as_str());
                out.append(" timed out after ");
                push_decimal(&mut out, CONNECT_TIMEOUT_SECS);
                out.append("s");
            },
            LinkError::Send { cause } => {
                out.append("send_datagram: ");
                out.append(cause.as_str());
            },
        }
        assert(out@ =~= link_error_text(*self));
        out
    }
}

/// Parse a link address back into the node key. Addresses are canonical
/// lowercase hex and are compared as exact bytes; anything else is rejected.
pub fn unhex32(addr: &[u8]) -> (r: Result<NodeKey, LinkError>)
    ensures
        (match r {
            Ok(key) => addr_key(addr@) == Some(key@),
            Err(LinkError::AddressLength { got }) => addr@.len() != 64 && got == addr@.len(),
            Err(LinkError::AddressDigit) => addr@.len() == 64 && addr_key(addr@) is None,
            Err(_) => false,
        }),
{
    match parse_link_addr(addr) {
        Ok(key) => Ok(key),
        Err(HexError::Length) => Err(LinkError::AddressLength { got: addr.len() }),
        Err(HexError::Digit) => Err(LinkError::AddressDigit),
    }
}

/// A connection to a peer, with the identifier that tells it from any other
/// connection.
#[derive(Clone, Debug, PartialEq, Eq)]
pub struct Route<C> {
    /// The connection's stable identifier.
    pub id: usize,
    /// The connection.
    pub conn: C,
}

/// The send-side table: which connection to use for sending to each peer.
pub struct Routes<C> {
    table: PeerMap<Route<C>>,
}

impl<C> View for Routes<C> {
    type V = Map<Seq<u8>, Route<C>>;

    closed spec fn view(&self) -> Map<Seq<u8>, Route<C>> {
        self.table@
    }
}

/// Whether the table has a connection to `peer` that can be used. `open` says
/// whether the connection it has is still open.
pub open spec fn usable<C>(routes: Map<Seq<u8>, Route<C>>, peer: Seq<u8>, open: bool) -> bool {
    routes.dom().contains(peer) && open
}

/// The table after a new connection to `peer` came up: a connection that can
/// be used keeps its place, any other one loses it to the new one.
pub open spec fn taken_over<C>(
    routes: Map<Seq<u8>, Route<C>>,
    peer: Seq<u8>,
    route: Route<C>,
    open: bool,
) -> Map<Seq<u8>, Route<C>> {
    if usable(routes, peer, open) {
        routes
    } else {
        routes.insert(peer, route)
    }
}

/// The table after the connection `id` to `peer` died: it loses its place, and
/// a newer connection in that place keeps it.
pub open spec fn dropped<C>(routes: Map<Seq<u8>, Route<C>>, peer: Seq<u8>, id: usize) -> Map<Seq<u8>, Route<C>> {
    if routes.dom().contains(peer) && routes[peer].id == id {
        routes.remove(peer)
    } else {
        routes
    }
}

/// What became of a connection that was dialled.
#[derive(Clone, Copy, Debug, PartialEq, Eq, Structural)]
pub enum Settled {
    /// It is the one to send on; a reader has to be started on it.
    Installed,
    /// Another one came up meanwhile: that one is used, and this one closed.
    Superseded,
}

impl<C> Routes<C> {
    /// The table is well formed.
    pub closed spec fn wf(&self) -> bool {
        self.table.wf()
    }

    /// An empty table.
    pub fn new() -> (r: Self)
        ensures
            r.wf(),
            r@ == Map::<Seq<u8>, Route<C>>::empty(),
    {
        Routes { table: PeerMap::new() }
    }

    /// The connection that the table has for `peer`, open or not.
    pub fn get(&self, peer: &NodeKey) -> (r: Option<&Route<C>>)
        requires
            self.wf(),
        ensures
            (match r {
                Some(route) => self@.dom().contains(peer@) && *route == self@[peer@],
                None => !self@.dom().contains(peer@),
            }),
    {
        self.table.get(peer)
    }

    /// The connection to send to `dst` on, if there is one that can be used.
    pub fn reusable(&self, dst: &NodeKey, open: bool) -> (r: Option<&C>)
        requires
            self.wf(),
        ensures
            (match r {
                Some(conn) => usable(self@, dst@, open) && *conn == self@[dst@].conn,
                None => !usable(self@, dst@, open),
            }),
            r is Some <==> self@.dom().contains(dst@) && open,
    {
        if !open {
            return None;
        }
        match self.table.get(dst) {
            Some(route) => Some(&route.conn),
            None => None,
        }
    }

    /// Enter a connection that was dialled. One may have come up while dialling
    /// (a concurrent dial, or an accepted one): it is kept.
    pub fn settle_dial(&mut self, dst: NodeKey, route: Route<C>, open: bool) -> (r: Settled)
        requires
            old(self).wf(),
        ensures
            final(self).wf(),
            final(self)@ == taken_over(old(self)@, dst@, route, open),
            r == Settled::Superseded <==> usable(old(self)@, dst@, open),
            r == Settled::Superseded <==> old(self)@.dom().contains(dst@) && open,
            r == Settled::Installed ==> final(self)@ == old(self)@.insert(dst@, route),
            r == Settled::Superseded ==> final(self)@ == old(self)@,
    {
        if open && self.table.get(&dst).is_some() {
            Settled::Superseded
        } else {
            self.table.insert(dst, route);
            Settled::Installed
        }
    }

    /// Adopt a connection that was accepted. It is read from in any case; it is
    /// sent on only where no other can be. Says whether it is sent on.
    pub fn adopt(&mut self, peer: NodeKey, route: Route<C>, open: bool) -> (r: bool)
        requires
            old(self).wf(),
        ensures
            final(self).wf(),
            final(self)@ == taken_over(old(self)@, peer@, route, open),
            r == !usable(old(self)@, peer@, open),
            !r <==> old(self)@.dom().contains(peer@) && open,
            r ==> final(self)@ == old(self)@.insert(peer@, route),
            !r ==> final(self)@ == old(self)@,
    {
        let vacant = match self.table.get(&peer) {
            Some(_) => !open,
            None => true,
        };
        if vacant {
            self.table.insert(peer, route);
        }
        vacant
    }

    /// The connection `id` to `peer` died. Says whether it had been the one to
    /// send on.
    pub fn reader_closed(&mut self, peer: &NodeKey, id: usize) -> (r: bool)
        requires
            old(self).wf(),
        ensures
            final(self).wf(),
            final(self)@ == dropped(old(self)@, peer@, id),
            r == (old(self)@.dom().contains(peer@) && old(self)@[peer@].id == id),
            r ==> final(self)@ == old(self)@.remove(peer@),
            !r ==> final(self)@ == old(self)@,
    {
        let own = match self.table.get(peer) {
            Some(route) => route.id == id,
            None => false,
        };
        if own {
            self.table.remove(peer);
        }
        own
    }
}

/// How to dial a peer.
#[derive(Debug)]
pub enum DialTarget<'a, A> {
    /// At an address that was learned or configured.
    At(&'a A),
    /// By its id alone; discovery has to find the path.
    ById(NodeKey),
}

/// What dialling `dst` comes to, given the known addresses and whether
/// discovery can resolve an id (`by_id`).
pub open spec fn dial_choice<A>(
    addrs: Map<Seq<u8>, A>,
    dst: Seq<u8>,
    by_id: bool,
    choice: Result<DialTarget<A>, LinkError>,
) -> bool {
    match choice {
        Ok(DialTarget::At(addr)) => addrs.dom().contains(dst) && *addr == addrs[dst],
        Ok(DialTarget::ById(id)) => !addrs.dom().contains(dst) && by_id && is_public_key(dst) && id@ == dst,
        Err(LinkError::InvalidPeerId { cause }) => !addrs.dom().contains(dst) && by_id && !is_public_key(dst) && cause@
            == "data is not a valid public key"@,
        Err(LinkError::NoKnownAddress) => !addrs.dom().contains(dst) && !by_id,
        Err(_) => false,
    }
}

/// How to dial `dst`: at its known address, or else by its id where discovery
/// can resolve one (`by_id`), or else not at all.
pub fn dial_target<'a, A>(addrs: &'a PeerMap<A>, dst: &NodeKey, by_id: bool) -> (r: Result<DialTarget<'a, A>, LinkError>)
    requires
        addrs.wf(),
    ensures
        dial_choice(addrs@, dst@, by_id, r),
{
    match addrs.get(dst) {
        Some(addr) => Ok(DialTarget::At(addr)),
        None => if by_id {
            match endpoint_id(dst) {
                Ok(id) => Ok(DialTarget::ById(id)),
                Err(cause) => Err(LinkError::InvalidPeerId { cause }),
            }
        } else {
            Err(LinkError::NoKnownAddress)
        },
    }
}

/// How a dial ended.
#[derive(Debug)]
pub enum DialOutcome<C> {
    /// The connection is up.
    Connected(C),
    /// The dial failed.
    Failed {
        /// What it failed for.
        cause: String,
    },
    /// The dial took longer than [`CONNECT_TIMEOUT_SECS`].
    TimedOut,
}

/// The error of a dial of `dst` that gave no connection.
pub open spec fn dial_refused<C>(dst: Seq<u8>, outcome: DialOutcome<C>, error: LinkError) -> bool {
    match outcome {
        DialOutcome::Connected(_) => false,
        DialOutcome::Failed { cause } => error matches LinkError::Connect { peer, cause: why } && peer@ == hex_text(dst) && why@
            == cause@,
        DialOutcome::TimedOut => error matches LinkError::ConnectTimeout { peer } && peer@ == hex_text(dst),
    }
}

/// What a dial of `dst` comes to: its connection, or the error that names the
/// peer.
pub fn dialled<C>(dst: &NodeKey, outcome: DialOutcome<C>) -> (r: Result<C, LinkError>)
    ensures
        (match outcome {
            DialOutcome::Connected(conn) => r == Ok::<C, LinkError>(conn),
            _ => r is Err && dial_refused(dst@, outcome, r->Err_0),
        }),
{
    match outcome {
        DialOutcome::Connected(conn) => Ok(conn),
        DialOutcome::Failed { cause } => Err(LinkError::Connect { peer: hex32(dst), cause }),
        DialOutcome::TimedOut => Err(LinkError::ConnectTimeout { peer: hex32(dst) }),
    }
}

/// How a datagram gets to a peer.
#[derive(Debug)]
pub enum Hop<'a, C, A> {
    /// On a connection that is up.
    Reuse(&'a C),
    /// On a connection that has to be dialled first.
    Dial(DialTarget<'a, A>),
}

/// How to get a datagram to `dst`: on the connection that the table has for
/// it, if it is still open, or else on one that has to be dialled.
pub fn next_hop<'a, C, A>(
    routes: &'a Routes<C>,
    addrs: &'a PeerMap<A>,
    dst: &NodeKey,
    open: bool,
    by_id: bool,
) -> (r: Result<Hop<'a, C, A>, LinkError>)
    requires
        routes.wf(),
        addrs.wf(),
    ensures
        (match r {
            Ok(Hop::Reuse(conn)) => usable(routes@, dst@, open) && *conn == routes@[dst@].conn,
            Ok(Hop::Dial(target)) => !usable(routes@, dst@, open) && dial_choice(addrs@, dst@, by_id, Ok(target)),
            Err(error) => !usable(routes@, dst@, open) && dial_choice(addrs@, dst@, by_id, Err(error)),
        }),
{
    match routes.reusable(dst, open) {
        Some(conn) => Ok(Hop::Reuse(conn)),
        None => match dial_target(addrs, dst, by_id) {
            Ok(target) => Ok(Hop::Dial(target)),
            Err(error) => Err(error),
        },
    }
}

/// What became of a datagram that a reader put into the inbound queue.
#[derive(Clone, Copy, Debug, PartialEq, Eq, Structural)]
pub enum Enqueued {
    /// It is in the queue.
    Accepted,
    /// The queue was full: it was dropped.
    Full,
    /// Nobody reads the queue any more.
    Closed,
}

/// Whether a reader reads on. A full queue costs a datagram and never blocks
/// the reader; a closed one means that the link is gone.
pub fn reader_goes_on(outcome: Enqueued) -> (r: bool)
    ensures
        r == (outcome != Enqueued::Closed),
{
    match outcome {
        Enqueued::Accepted => true,
        Enqueued::Full => true,
        Enqueued::Closed => false,
    }
}

/// Where an accepted connection goes.
#[derive(Clone, Copy, Debug, PartialEq, Eq, Structural)]
pub enum Lane {
    /// To the federation link.
    Relay,
    /// To whoever accepts media legs.
    Media,
    /// Nowhere: it is closed.
    Refused,
}

/// Whether two byte strings are the same.
fn same_bytes(a: &[u8], b: &[u8]) -> (r: bool)
    ensures
        r == (a@ == b@),
{
    if a.len() != b.len() {
        return false;
    }
    let mut i: usize = 0;
    while i < a.len()
        invariant
            i <= a@.len(),
            a@.len() == b@.len(),
            forall|j: int| 0 <= j < i ==> a@[j] == b@[j],
        decreases a@.len() - i,
    {
        if a[i] != b[i] {
            return false;
        }
        i += 1;
    }
    assert(a@ =~= b@);
    true
}

/// Where an accepted connection goes: its ALPN keeps the federation link and
/// the media legs apart. A media leg that would be one too many to wait is
/// refused at the door.
pub fn accept_lane(alpn: &[u8], media_waiting: usize) -> (r: Lane)
    ensures
        r == Lane::Relay <==> alpn@ == RELAY_ALPN.spec_bytes(),
        r == Lane::Media <==> alpn@ != RELAY_ALPN.spec_bytes() && alpn@ == MEDIA_ALPN.spec_bytes() && media_waiting
            < MEDIA_CAPACITY,
{
    if same_bytes(alpn, RELAY_ALPN.as_bytes()) {
        Lane::Relay
    } else if same_bytes(alpn, MEDIA_ALPN.as_bytes()) && media_waiting < MEDIA_CAPACITY {
        Lane::Media
    } else {
        Lane::Refused
    }
}

/// A connection can be used exactly where there is one and it is open.
pub proof fn law_open_connection_is_usable<C>(routes: Map<Seq<u8>, Route<C>>, peer: Seq<u8>, open: bool)
    ensures
        usable(routes, peer, open) <==> routes.dom().contains(peer) && open,
{
}

/// The table after a connection to `peer` came up: where it had an open one it
/// is as it was, and else it has the new one for that peer and what it had for
/// every other.
pub proof fn law_table_after_a_connection<C>(routes: Map<Seq<u8>, Route<C>>, peer: Seq<u8>, route: Route<C>, open: bool, key: Seq<u8>)
    ensures
        routes.dom().contains(peer) && open ==> taken_over(routes, peer, route, open) == routes,
        !(routes.dom().contains(peer) && open) ==> taken_over(routes, peer, route, open).dom().contains(peer) && taken_over(
            routes,
            peer,
            route,
            open,
        )[peer] == route,
        key != peer ==> (taken_over(routes, peer, route, open).dom().contains(key) <==> routes.dom().contains(key)),
        key != peer && routes.dom().contains(key) ==> taken_over(routes, peer, route, open)[key] == routes[key],
{
}

/// The table after the connection `id` to `peer` died: that one is gone, and
/// anything else is as it was.
pub proof fn law_table_after_a_death<C>(routes: Map<Seq<u8>, Route<C>>, peer: Seq<u8>, id: usize, key: Seq<u8>)
    ensures
        dropped(routes, peer, id).dom().contains(key) <==> routes.dom().contains(key) && !(key == peer && routes[peer].id == id),
        dropped(routes, peer, id).dom().contains(key) ==> dropped(routes, peer, id)[key] == routes[key],
{
}

/// With discovery a peer that nothing is known of is dialled by its own id if
/// that is a public key, and refused if it is not.
pub proof fn law_unknown_peer_is_dialled_by_its_id<A>(
    addrs: Map<Seq<u8>, A>,
    dst: Seq<u8>,
    choice: Result<DialTarget<A>, LinkError>,
)
    requires
        !addrs.dom().contains(dst),
    ensures
        dial_choice(addrs, dst, true, choice) <==> (match choice {
            Ok(DialTarget::ById(id)) => is_public_key(dst) && id@ == dst,
            Err(LinkError::InvalidPeerId { cause }) => !is_public_key(dst) && cause@ == "data is not a valid public key"@,
            _ => false,
        }),
{
}

/// A dial that gave no connection is refused with the peer's server name and
/// with what the dial failed for.
pub proof fn law_refused_dial_names_the_peer<C>(dst: Seq<u8>, why: String, peer: String, cause: String, conn: C, error: LinkError)
    ensures
        dial_refused::<C>(dst, (DialOutcome::Failed { cause: why }), (LinkError::Connect { peer, cause })) <==> peer@ == hex_text(
            dst,
        ) && cause@ == why@,
        dial_refused::<C>(dst, DialOutcome::TimedOut, (LinkError::ConnectTimeout { peer })) <==> peer@ == hex_text(dst),
        dial_refused::<C>(dst, (DialOutcome::Failed { cause: why }), error) ==> error is Connect,
        dial_refused::<C>(dst, DialOutcome::TimedOut, error) ==> error is ConnectTimeout,
        !dial_refused::<C>(dst, DialOutcome::Connected(conn), error),
{
}

/// What the errors say.
pub proof fn law_error_messages(got: usize, peer: String, cause: String)
    ensures
        link_error_text(LinkError::AddressLength { got })
            == "link: peer address must be the 64-char lowercase hex of a 32-byte node id, got "@ + decimal_text(got as nat)
            + " bytes"@,
        link_error_text(LinkError::AddressDigit) == "link: peer address must be lowercase hex (a 32-byte node id)"@,
        link_error_text(LinkError::InvalidPeerId { cause }) == "link: invalid peer id: "@ + cause@,
        link_error_text(LinkError::NoKnownAddress) == "link: no known address for peer"@,
        link_error_text(LinkError::Connect { peer, cause }) == "link connect to "@ + peer@ + ": "@ + cause@,
        link_error_text(LinkError::ConnectTimeout { peer }) == "link connect to "@ + peer@ + " timed out after 30s"@,
        link_error_text(LinkError::Send { cause }) == "send_datagram: "@ + cause@,
{
    reveal_strlit(" timed out after 30s");
    reveal_strlit(" timed out after ");
    reveal_strlit("s");
    law_decimal_digits_in_order(0, 3);
    law_decimal_digits_in_order(3, 0);
    reveal_strlit("0123456789");
    assert(decimal_text(30) =~= seq!['3', '0']);
    assert(link_error_text(LinkError::ConnectTimeout { peer }) =~= "link connect to "@ + peer@ + " timed out after 30s"@);
}

/// The limits of the link.
pub proof fn law_limits()
    ensures
        RELAY_ALPN@ == "neutrino/iroh-relay/0"@,
        MEDIA_ALPN@ == "neutrino/media-probe/0"@,
        CONNECT_TIMEOUT_SECS == 30,
        CONN_MAX_IDLE_SECS == 10,
        INBOUND_CAPACITY == 256,
        MEDIA_CAPACITY == 4,
        MAX_DATAGRAM == 1024,
{
}

/// A connection that can be used is never displaced, and where there is none
/// the new one is used: whoever comes up, the peer has a route afterwards, and
/// no other peer's route changes.
pub proof fn law_take_over<C>(routes: Map<Seq<u8>, Route<C>>, peer: Seq<u8>, route: Route<C>, open: bool, other: Seq<u8>)
    requires
        other != peer,
    ensures
        usable(routes, peer, open) ==> taken_over(routes, peer, route, open) == routes,
        !usable(routes, peer, open) ==> taken_over(routes, peer, route, open)[peer] == route,
        taken_over(routes, peer, route, open).dom().contains(peer),
        taken_over(routes, peer, route, open).dom().contains(other) == routes.dom().contains(other),
        routes.dom().contains(other) ==> taken_over(routes, peer, route, open)[other] == routes[other],
{
}

/// A connection that dies takes away its own route only: never a newer one of
/// the same peer, and never another peer's.
pub proof fn law_death_drops_own_route_only<C>(routes: Map<Seq<u8>, Route<C>>, peer: Seq<u8>, id: usize, other: Seq<u8>)
    requires
        other != peer,
    ensures
        routes.dom().contains(peer) && routes[peer].id != id ==> dropped(routes, peer, id) == routes,
        dropped(routes, peer, id).dom().contains(peer) ==> routes.dom().contains(peer) && dropped(routes, peer, id)[peer]
            == routes[peer] && routes[peer].id != id,
        dropped(routes, peer, id).dom().contains(other) == routes.dom().contains(other),
        routes.dom().contains(other) ==> dropped(routes, peer, id)[other] == routes[other],
{
}

/// After a connection that was in use has died, the next send dials again
/// instead of reusing it.
pub proof fn law_dead_connection_is_dialled_again<C>(
    routes: Map<Seq<u8>, Route<C>>,
    peer: Seq<u8>,
    route: Route<C>,
    open: bool,
    later_open: bool,
)
    requires
        !usable(routes, peer, open),
    ensures
        !usable(dropped(taken_over(routes, peer, route, open), peer, route.id), peer, later_open),
        dropped(taken_over(routes, peer, route, open), peer, route.id) == routes.remove(peer),
{
    assert(routes.insert(peer, route).remove(peer) =~= routes.remove(peer));
}

/// A reader that outlived its route does no harm: a connection that was
/// superseded, or replaced by a newer one, dies without effect on the table.
pub proof fn law_late_death_is_harmless<C>(
    routes: Map<Seq<u8>, Route<C>>,
    peer: Seq<u8>,
    old_route: Route<C>,
    new_route: Route<C>,
)
    requires
        old_route.id != new_route.id,
    ensures
        dropped(taken_over(taken_over(routes, peer, old_route, false), peer, new_route, false), peer, old_route.id) == taken_over(
            taken_over(routes, peer, old_route, false),
            peer,
            new_route,
            false,
        ),
        dropped(taken_over(taken_over(routes, peer, old_route, false), peer, new_route, true), peer, new_route.id) == taken_over(
            routes,
            peer,
            old_route,
            false,
        ),
{
}

/// What happens to the connections of a node.
pub enum RouteEvent<C> {
    /// A connection to a peer came up, dialled or accepted. `open` says whether
    /// the one that the table had was still open.
    Up { peer: Seq<u8>, route: Route<C>, open: bool },
    /// A connection to a peer died.
    Died { peer: Seq<u8>, id: usize },
}

/// The table after a run of events.
pub open spec fn table_after<C>(events: Seq<RouteEvent<C>>) -> Map<Seq<u8>, Route<C>>
    decreases events.len(),
{
    if events.len() == 0 {
        Map::empty()
    } else {
        let before = table_after(events.drop_last());
        match events.last() {
            RouteEvent::Up { peer, route, open } => taken_over(before, peer, route, open),
            RouteEvent::Died { peer, id } => dropped(before, peer, id),
        }
    }
}

/// Whether the `i`th event is that the connection `route` to `peer` came up,
/// and it has not died since.
pub open spec fn is_up_since<C>(events: Seq<RouteEvent<C>>, i: int, peer: Seq<u8>, route: Route<C>) -> bool {
    &&& 0 <= i < events.len()
    &&& events[i] matches RouteEvent::Up { peer: p, route: r, .. } && p == peer && r == route
    &&& forall|j: int| i < j < events.len() ==> (#[trigger] events[j]) != RouteEvent::<C>::Died { peer, id: route.id }
}

/// A datagram is never sent on a connection that is known to be dead: whatever
/// happened, every connection in the table came up at some time and has not
/// died since.
pub proof fn law_routes_are_of_live_connections<C>(events: Seq<RouteEvent<C>>, peer: Seq<u8>)
    requires
        table_after(events).dom().contains(peer),
    ensures
        exists|i: int| is_up_since(events, i, peer, table_after(events)[peer]),
    decreases events.len(),
{
    let rest = events.drop_last();
    let last = events.len() - 1;
    let before = table_after(rest);
    let route = table_after(events)[peer];
    if before.dom().contains(peer) && before[peer] == route {
        law_routes_are_of_live_connections(rest, peer);
        let i = choose|i: int| is_up_since(rest, i, peer, route);
        assert(events[i] == rest[i]);
        assert forall|j: int| i < j < events.len() implies (#[trigger] events[j]) != RouteEvent::<C>::Died {
            peer,
            id: route.id,
        } by {
            if j < last {
                assert(events[j] == rest[j]);
            }
        }
        assert(is_up_since(events, i, peer, route));
    } else {
        assert(is_up_since(events, last, peer, route));
    }
}

/// A connection that a peer opened carries datagrams back to it, for as long
/// as it is open and where no other one does.
pub proof fn law_accepted_connection_carries_replies<C>(
    routes: Map<Seq<u8>, Route<C>>,
    peer: Seq<u8>,
    route: Route<C>,
    open: bool,
)
    ensures
        usable(taken_over(routes, peer, route, open), peer, true),
        !usable(routes, peer, open) ==> taken_over(routes, peer, route, open)[peer].conn == route.conn,
{
}

/// A peer whose address was learned is dialled at the address that was learned
/// last, whether or not discovery could resolve its id; what is known of other
/// peers stays.
pub proof fn law_learned_address_is_dialled<A>(
    addrs: Map<Seq<u8>, A>,
    dst: Seq<u8>,
    addr: A,
    by_id: bool,
    choice: Result<DialTarget<A>, LinkError>,
    other: Seq<u8>,
    other_choice: Result<DialTarget<A>, LinkError>,
)
    requires
        other != dst,
    ensures
        dial_choice(addrs.insert(dst, addr), dst, by_id, choice) <==> choice == Ok::<DialTarget<A>, LinkError>(
            DialTarget::At(&addr),
        ),
        dial_choice(addrs.insert(dst, addr), other, by_id, other_choice) <==> dial_choice(addrs, other, by_id, other_choice),
{
}

/// Without discovery a peer that nothing is known of cannot be dialled.
pub proof fn law_unknown_peer_is_an_error<A>(
    addrs: Map<Seq<u8>, A>,
    dst: Seq<u8>,
    choice: Result<DialTarget<A>, LinkError>,
)
    requires
        !addrs.dom().contains(dst),
    ensures
        dial_choice(addrs, dst, false, choice) <==> choice == Err::<DialTarget<A>, LinkError>(LinkError::NoKnownAddress),
{
}

/// The two lanes have different names, so no connection can be taken for one
/// of the other lane.
pub proof fn law_lanes_are_apart()
    ensures
        RELAY_ALPN.spec_bytes() != MEDIA_ALPN.spec_bytes(),
{
    reveal_strlit("neutrino/iroh-relay/0");
    reveal_strlit("neutrino/media-probe/0");
    assert(RELAY_ALPN@.len() == 21);
    assert(MEDIA_ALPN@.len() == 22);
    encode_utf8_decode_utf8(RELAY_ALPN@);
    encode_utf8_decode_utf8(MEDIA_ALPN@);
}

} // verus!
