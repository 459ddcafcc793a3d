//! What the discovery drains do with the peers that a medium finds: which
//! entries go into the directory of peers, and when destinations that were
//! given up on are worth another try.

use vstd::prelude::*;

use crate::node_id::{hex32, hex_text, law_hex_is_canonical, law_hex_round_trip, text_key, NodeKey};
use crate::peer_map::{last_wins, lemma_last_wins_keys, lemma_last_wins_value, same_key, PeerMap};

verus! {

/// Localpart of every embedded peer's user: user ids are `@n:{node_id}`.
pub const DISCOVERY_LOCALPART: &'static str = "n";

/// A directory entry for a peer.
#[derive(Clone, Debug, PartialEq, Eq)]
pub struct DiscoveredPeer {
    /// Localpart of the peer's user.
    pub localpart: String,
    /// Display name; empty where it is not yet known.
    pub display_name: String,
    /// When the peer was last seen, in milliseconds since the Unix epoch.
    pub last_seen_ms: u64,
}

/// What a directory entry says.
#[verifier::ext_equal]
pub struct PeerView {
    pub localpart: Seq<char>,
    pub display_name: Seq<char>,
    pub last_seen_ms: u64,
}

impl View for DiscoveredPeer {
    type V = PeerView;

    open spec fn view(&self) -> PeerView {
        PeerView { localpart: self.localpart@, display_name: self.display_name@, last_seen_ms: self.last_seen_ms }
    }
}

/// The entry for a peer that goes by `display_name` and was seen at `now`.
pub open spec fn seen_peer(display_name: Seq<char>, now: u64) -> PeerView {
    PeerView { localpart: DISCOVERY_LOCALPART@, display_name, last_seen_ms: now }
}

/// The entry for a peer that goes by `display_name` and was seen at `now`.
fn peer_seen(display_name: String, now: u64) -> (r: DiscoveredPeer)
    ensures
        r@ == seen_peer(display_name@, now),
        r.localpart@ == "n"@,
        r.display_name@ == display_name@,
        r.last_seen_ms == now,
{
    DiscoveredPeer { localpart: DISCOVERY_LOCALPART.to_string(), display_name, last_seen_ms: now }
}

/// The directory that a list of entries stands for, by server name.
pub open spec fn directory(entries: Seq<(String, DiscoveredPeer)>) -> Map<Seq<char>, PeerView>
    decreases entries.len(),
{
    if entries.len() == 0 {
        Map::empty()
    } else {
        directory(entries.drop_last()).insert(entries.last().0@, entries.last().1@)
    }
}

/// The directory of the peers in `seen`, a table of display names: a peer's
/// server name is the hex of its node key.
pub open spec fn listed(seen: Map<Seq<u8>, String>, now: u64) -> Map<Seq<char>, PeerView> {
    Map::new(
        |name: Seq<char>| text_key(name) is Some && seen.dom().contains(text_key(name)->0),
        |name: Seq<char>| seen_peer(seen[text_key(name)->0]@, now),
    )
}

/// Whether a snapshot has a peer that was not known before it.
pub open spec fn appears(known: Set<Seq<u8>>, seen: Map<Seq<u8>, String>) -> bool {
    exists|key: Seq<u8>| #[trigger] seen.dom().contains(key) && !known.contains(key)
}

/// What a snapshot comes to.
#[derive(Clone, Debug, PartialEq, Eq)]
pub struct Absorbed {
    /// The directory that takes the place of the one before, each server name
    /// once.
    pub peers: Vec<(String, DiscoveredPeer)>,
    /// Whether a peer appeared, so that destinations that were given up on are
    /// worth another try.
    pub appeared: bool,
}

/// The state of a drain of scan snapshots: the peers of the last one.
pub struct DiscoveryDrain {
    known: PeerMap<()>,
}

impl View for DiscoveryDrain {
    type V = Set<Seq<u8>>;

    closed spec fn view(&self) -> Set<Seq<u8>> {
        self.known@.dom()
    }
}

/// One more peer in the table is one more entry in the directory.
proof fn lemma_listed_insert(seen: Map<Seq<u8>, String>, key: NodeKey, name: String, now: u64)
    ensures
        listed(seen.insert(key@, name), now) == listed(seen, now).insert(hex_text(key@), seen_peer(name@, now)),
{
    law_hex_round_trip(key);
    let more = listed(seen.insert(key@, name), now);
    let expected = listed(seen, now).insert(hex_text(key@), seen_peer(name@, now));
    assert forall|text: Seq<char>| more.dom().contains(text) <==> expected.dom().contains(text) by {
        law_hex_is_canonical(text, Seq::empty());
    }
    assert forall|text: Seq<char>| more.dom().contains(text) implies more[text] == expected[text] by {
        law_hex_is_canonical(text, Seq::empty());
    }
    assert(more =~= expected);
}

impl DiscoveryDrain {
    /// The state is well formed.
    pub closed spec fn wf(&self) -> bool {
        self.known.wf()
    }

    /// A drain that has seen nothing.
    pub fn new() -> (r: Self)
        ensures
            r.wf(),
            r@ == Set::<Seq<u8>>::empty(),
    {
        let r = DiscoveryDrain { known: PeerMap::new() };
        assert(r@ =~= Set::<Seq<u8>>::empty());
        r
    }

    /// Take in a scan snapshot, a list of node keys with display names, at
    /// `now`. Where it has a peer twice, the later one counts.
    pub fn absorb(&mut self, snapshot: Vec<(NodeKey, String)>, now: u64) -> (r: Absorbed)
        requires
            old(self).wf(),
        ensures
            final(self).wf(),
            final(self)@ == last_wins(snapshot@).dom(),
            directory(r.peers@) == listed(last_wins(snapshot@), now),
            forall|i: int, j: int| 0 <= i < j < r.peers@.len() ==> r.peers@[i].0@ != r.peers@[j].0@,
            r.appeared == appears(old(self)@, last_wins(snapshot@)),
            r.appeared <==> exists|j: int| 0 <= j < snapshot@.len() && !old(self)@.contains((#[trigger] snapshot@[j]).0@),
            forall|i: int|
                0 <= i < r.peers@.len() ==> (#[trigger] r.peers@[i]).1.last_seen_ms == now && r.peers@[i].1.localpart@ == "n"@,
    {
        let ghost sightings = snapshot@;
        let ghost before = self@;
        let pairs = PeerMap::from_pairs(snapshot).into_pairs();
        let ghost all = pairs@;
        let mut peers: Vec<(String, DiscoveredPeer)> = Vec::new();
        let mut known: PeerMap<()> = PeerMap::new();
        let mut appeared = false;
        proof {
            assert(all.take(0) =~= Seq::empty());
            assert(listed(last_wins(all.take(0)), now) =~= Map::empty());
            assert(known@.dom() =~= last_wins(all.take(0)).dom());
        }
        for pair in it: pairs
            invariant
                it.seq() == all,
                self.wf(),
                known.wf(),
                self@ == before,
                forall|i: int, j: int| 0 <= i < j < all.len() ==> all[i].0@ != all[j].0@,
                known@.dom() == last_wins(all.take(it.index() as int)).dom(),
                directory(peers@) == listed(last_wins(all.take(it.index() as int)), now),
                peers@.len() == it.index(),
                forall|i: int| 0 <= i < peers@.len() ==> (#[trigger] peers@[i]).0@ == hex_text(all[i].0@),
                appeared == appears(before, last_wins(all.take(it.index() as int))),
                forall|i: int|
                    0 <= i < peers@.len() ==> (#[trigger] peers@[i]).1.last_seen_ms == now && peers@[i].1.localpart@ == "n"@,
        {
            let ghost done = all.take(it.index() as int);
            let ghost next = all.take(it.index() + 1);
            let ghost listing = peers@;
            assert(next.drop_last() =~= done);
            assert(next.last() == pair);
            let (key, name) = pair;
            let fresh = self.known.get(&key).is_none();
            proof {
                lemma_listed_insert(last_wins(done), key, name, now);
                let wider = last_wins(next);
                assert(wider.dom().contains(key@));
                if appears(before, last_wins(done)) {
                    let k = choose|k: Seq<u8>| #[trigger] last_wins(done).dom().contains(k) && !before.contains(k);
                    assert(wider.dom().contains(k));
                }
                if appears(before, wider) {
                    let k = choose|k: Seq<u8>| #[trigger] wider.dom().contains(k) && !before.contains(k);
                    assert(k == key@ || last_wins(done).dom().contains(k));
                }
            }
            if fresh {
                appeared = true;
            }
            peers.push((hex32(&key), peer_seen(name, now)));
            known.insert(key, ());
            proof {
                assert(peers@.drop_last() =~= listing);
                assert(known@.dom() =~= last_wins(next).dom());
            }
        }
        assert(all.take(all.len() as int) =~= all);
        self.known = known;
        proof {
            assert forall|i: int, j: int| 0 <= i < j < peers@.len() implies peers@[i].0@ != peers@[j].0@ by {
                law_hex_round_trip(all[i].0);
                law_hex_round_trip(all[j].0);
            }
            law_news_is_an_unknown_peer(before, sightings);
        }
        Absorbed { peers, appeared }
    }
}

/// A local-network announcement.
#[derive(Clone, Debug, PartialEq, Eq)]
pub enum MdnsEvent {
    /// A node announced itself.
    Discovered {
        /// The node's id.
        id: NodeKey,
        /// Whether the announcement holds an address to dial.
        dialable: bool,
    },
    /// A node's announcement ran out.
    Expired {
        /// The node's id.
        id: NodeKey,
    },
    /// Anything else.
    Other,
}

/// What to do about an announcement.
#[derive(Clone, Debug, PartialEq, Eq)]
pub enum MdnsAction {
    /// Nothing.
    Ignore,
    /// Dial the node at the announced address from now on, and enter it in the
    /// directory.
    Seed {
        /// The node's server name.
        server_name: String,
        /// Its directory entry.
        peer: DiscoveredPeer,
        /// Whether destinations that were given up on are worth another try.
        kick: bool,
    },
}

/// Whether the node `own` acts on an announcement: not on its own, and not on
/// one without an address. One that ran out leaves the address in place, since
/// that it stopped does not make the address wrong.
pub open spec fn acts_on(own: Seq<u8>, event: MdnsEvent) -> bool {
    event matches MdnsEvent::Discovered { id, dialable } && id@ != own && dialable
}

/// Decide on an announcement that arrives at `now`. `known` says whether the
/// directory already has the node: announcements are repeated for as long as a
/// node is up, and only the first one is news.
pub fn mdns_step(own: &NodeKey, event: &MdnsEvent, known: bool, now: u64) -> (r: MdnsAction)
    ensures
        r is Ignore <==> !acts_on(own@, *event),
        (r matches MdnsAction::Seed { server_name, peer, kick } ==> server_name@ == hex_text(event->Discovered_id@) && peer@
            == seen_peer(Seq::empty(), now) && kick == !known),
        r is Seed <==> (event matches MdnsEvent::Discovered { id, dialable } && *dialable && id@ != own@),
        (r matches MdnsAction::Seed { peer, .. } ==> peer.localpart@ == "n"@ && peer.display_name@.len() == 0 && peer.last_seen_ms
            == now),
{
    match event {
        MdnsEvent::Discovered { id, dialable } => if same_key(own, id) || !*dialable {
            MdnsAction::Ignore
        } else {
            let display_name = String::new();
            assert(display_name@ =~= Seq::empty());
            MdnsAction::Seed { server_name: hex32(id), peer: peer_seen(display_name, now), kick: !known }
        },
        MdnsEvent::Expired { .. } => MdnsAction::Ignore,
        MdnsEvent::Other => MdnsAction::Ignore,
    }
}

/// Milliseconds since the Unix epoch as a timestamp: 0 for a clock that is set
/// before it, and the lowest 64 bits otherwise.
pub fn epoch_millis(since_epoch: Option<u128>) -> (r: u64)
    ensures
        r == (match since_epoch {
            Some(millis) => millis as int % 0x1_0000_0000_0000_0000,
            None => 0,
        }),
{
    match since_epoch {
        Some(millis) => {
            assert(millis as u64 == millis % 0x1_0000_0000_0000_0000) by (bit_vector);
            #[verifier::truncate]
            (millis as u64)
        },
        None => 0,
    }
}

/// A snapshot brings news exactly where it has a peer that was not known.
pub proof fn law_news_is_an_unknown_peer(known: Set<Seq<u8>>, snapshot: Seq<(NodeKey, String)>)
    ensures
        appears(known, last_wins(snapshot)) <==> exists|j: int|
            0 <= j < snapshot.len() && !known.contains((#[trigger] snapshot[j]).0@),
{
    let seen = last_wins(snapshot);
    if appears(known, seen) {
        let key = choose|key: Seq<u8>| #[trigger] seen.dom().contains(key) && !known.contains(key);
        lemma_last_wins_keys(snapshot, key);
        let j = choose|j: int| 0 <= j < snapshot.len() && (#[trigger] snapshot[j]).0@ == key;
        assert(!known.contains(snapshot[j].0@));
    }
    if exists|j: int| 0 <= j < snapshot.len() && !known.contains((#[trigger] snapshot[j]).0@) {
        let j = choose|j: int| 0 <= j < snapshot.len() && !known.contains((#[trigger] snapshot[j]).0@);
        lemma_last_wins_keys(snapshot, snapshot[j].0@);
        assert(seen.dom().contains(snapshot[j].0@));
    }
}

/// Every peer of a snapshot is listed under the hex of its key, with the name
/// that the snapshot has for it last, as a user `n` that was last seen at the
/// very time of the snapshot; and nobody else is listed.
pub proof fn law_every_entry_tells_the_sighting(snapshot: Seq<(NodeKey, String)>, now: u64, j: int, name: Seq<char>)
    requires
        0 <= j < snapshot.len(),
        forall|k: int| j < k < snapshot.len() ==> (#[trigger] snapshot[k]).0@ != snapshot[j].0@,
    ensures
        listed(last_wins(snapshot), now).dom().contains(hex_text(snapshot[j].0@)),
        listed(last_wins(snapshot), now)[hex_text(snapshot[j].0@)].last_seen_ms == now,
        listed(last_wins(snapshot), now)[hex_text(snapshot[j].0@)].display_name == snapshot[j].1@,
        listed(last_wins(snapshot), now)[hex_text(snapshot[j].0@)].localpart == "n"@,
        listed(last_wins(snapshot), now).dom().contains(name) ==> exists|k: int|
            0 <= k < snapshot.len() && name == hex_text((#[trigger] snapshot[k]).0@),
{
    law_hex_round_trip(snapshot[j].0);
    lemma_last_wins_value(snapshot, j);
    if listed(last_wins(snapshot), now).dom().contains(name) {
        law_hex_is_canonical(name, Seq::empty());
        lemma_last_wins_keys(snapshot, text_key(name)->0);
        let k = choose|k: int| 0 <= k < snapshot.len() && (#[trigger] snapshot[k]).0@ == text_key(name)->0;
        assert(name == hex_text(snapshot[k].0@));
    }
}

/// A directory has each of its entries under the entry's server name, as the
/// fields of the entry say, and nothing else.
pub proof fn law_directory_has_its_entries(entries: Seq<(String, DiscoveredPeer)>, i: int, name: Seq<char>)
    requires
        forall|a: int, b: int| 0 <= a < b < entries.len() ==> entries[a].0@ != entries[b].0@,
    ensures
        directory(entries).dom().contains(name) <==> exists|k: int| 0 <= k < entries.len() && (#[trigger] entries[k]).0@ == name,
        0 <= i < entries.len() ==> directory(entries).dom().contains(entries[i].0@) && directory(entries)[entries[i].0@].localpart
            == entries[i].1.localpart@ && directory(entries)[entries[i].0@].display_name == entries[i].1.display_name@
            && directory(entries)[entries[i].0@].last_seen_ms == entries[i].1.last_seen_ms,
    decreases entries.len(),
{
    if entries.len() > 0 {
        let rest = entries.drop_last();
        let last = entries.len() - 1;
        law_directory_has_its_entries(rest, i, name);
        assert forall|k: int| 0 <= k < rest.len() implies #[trigger] rest[k] == entries[k] by {}
        if directory(rest).dom().contains(name) {
            let k = choose|k: int| 0 <= k < rest.len() && (#[trigger] rest[k]).0@ == name;
            assert(entries[k].0@ == name);
        }
        if exists|k: int| 0 <= k < entries.len() && (#[trigger] entries[k]).0@ == name {
            let k = choose|k: int| 0 <= k < entries.len() && (#[trigger] entries[k]).0@ == name;
            if k < last {
                assert(rest[k].0@ == name);
            }
        }
        if 0 <= i < last {
            assert(rest[i] == entries[i]);
            assert(entries[i].0@ != entries[last].0@);
        }
    }
}

/// An announcement is acted on exactly where another node makes it and it can
/// be dialled.
pub proof fn law_announcements_acted_on(own: Seq<u8>, id: NodeKey, dialable: bool)
    ensures
        acts_on(own, (MdnsEvent::Discovered { id, dialable })) <==> dialable && id@ != own,
        !acts_on(own, (MdnsEvent::Expired { id })),
        !acts_on(own, MdnsEvent::Other),
{
}

/// A snapshot with no peer that the one before lacked is no news: neither the
/// same peers again nor some that went away.
pub proof fn law_only_arrivals_are_news(before: Map<Seq<u8>, String>, after: Map<Seq<u8>, String>)
    ensures
        after.dom().subset_of(before.dom()) <==> !appears(before.dom(), after),
{
    if !appears(before.dom(), after) {
        assert forall|key: Seq<u8>| #[trigger] after.dom().contains(key) implies before.dom().contains(key) by {}
    }
}

/// A peer that comes back after a snapshot without it is news again.
pub proof fn law_return_is_news(gone: Map<Seq<u8>, String>, back: Map<Seq<u8>, String>, key: Seq<u8>)
    requires
        !gone.dom().contains(key),
        back.dom().contains(key),
    ensures
        appears(gone.dom(), back),
{
}

/// The directory has exactly the peers of the snapshot, each under the hex of
/// its node key, with its display name and the time of the snapshot.
pub proof fn law_directory_is_the_snapshot(snapshot: Seq<(NodeKey, String)>, now: u64, key: NodeKey, name: Seq<char>)
    ensures
        listed(last_wins(snapshot), now).dom().contains(hex_text(key@)) <==> last_wins(snapshot).dom().contains(key@),
        last_wins(snapshot).dom().contains(key@) ==> listed(last_wins(snapshot), now)[hex_text(key@)] == seen_peer(
            last_wins(snapshot)[key@]@,
            now,
        ),
        listed(last_wins(snapshot), now).dom().contains(name) ==> text_key(name) is Some,
{
    law_hex_round_trip(key);
}

/// A node never seeds itself, whatever it hears.
pub proof fn law_never_seeds_itself(own: NodeKey, dialable: bool)
    ensures
        !acts_on(own@, (MdnsEvent::Discovered { id: own, dialable })),
{
}

} // verus!
