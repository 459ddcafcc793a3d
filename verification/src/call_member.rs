//! MatrixRTC call membership for a mesh call: the content of a call member
//! state event, what it says about a member, and the key it is stored under.

use vstd::prelude::*;
use vstd::string::*;

use crate::node_id::{hex32, hex_text, parse_hex32, text_key};
use crate::text::{opt_text, same_text};

verus! {

/// The state event type of a call membership.
pub const CALL_MEMBER_EVENT_TYPE: &'static str = "org.matrix.msc3401.call.member";

/// Focus `type` of a mesh call: there is no server in the middle, the peer is
/// the focus.
pub const MESH_FOCUS_TYPE: &'static str = "in.indiafoss.mesh.iroh";

/// Focus `type` of a LiveKit server.
pub const LIVEKIT_FOCUS_TYPE: &'static str = "livekit";

/// The MatrixRTC application of a call.
pub const APPLICATION_CALL: &'static str = "m.call";

/// The room-scoped call: one per room, any member may join.
pub const SCOPE_ROOM: &'static str = "m.room";

/// `call_id` of the room-scoped call.
pub const ROOM_CALL_ID: &'static str = "";

/// The one audio codec that is defined.
pub const AUDIO_OPUS: &'static str = "opus";

/// Opus parameters that a mesh peer advertises for its receive side.
#[derive(Clone, Copy, Debug, PartialEq, Eq)]
pub struct OpusParams {
    /// Target bitrate, bits per second.
    pub bitrate: u32,
    /// Sample rate at the codec boundary, Hz.
    pub sample_rate: u32,
    /// Frame duration, milliseconds (one datagram per frame).
    pub frame_ms: u32,
    /// Channel count; the mesh is mono.
    pub channels: u8,
}

/// Sample rate where the wire names none.
pub fn default_sample_rate() -> (r: u32)
    ensures
        r == 48_000,
{
    48_000
}

/// Frame duration where the wire names none.
pub fn default_frame_ms() -> (r: u32)
    ensures
        r == 20,
{
    20
}

/// Channel count where the wire names none.
pub fn default_channels() -> (r: u8)
    ensures
        r == 1,
{
    1
}

/// The parameters of a voice call over a slow radio.
pub open spec fn default_opus() -> OpusParams {
    OpusParams { bitrate: 24_000, sample_rate: 48_000, frame_ms: 20, channels: 1 }
}

impl Default for OpusParams {
    fn default() -> (r: Self)
        ensures
            r == default_opus(),
    {
        OpusParams {
            bitrate: 24_000,
            sample_rate: default_sample_rate(),
            frame_ms: default_frame_ms(),
            channels: default_channels(),
        }
    }
}

/// The `media` object of a mesh focus: which audio codec, and how.
#[derive(Clone, Debug, PartialEq, Eq)]
pub struct MeshMedia {
    /// Audio codec name. Only [`AUDIO_OPUS`] is defined.
    pub audio: String,
    /// The opus parameters, which stand next to `audio` on the wire.
    pub opus: OpusParams,
}

/// What a [`MeshMedia`] holds.
pub struct MeshMediaView {
    pub audio: Seq<char>,
    pub opus: OpusParams,
}

impl View for MeshMedia {
    type V = MeshMediaView;

    open spec fn view(&self) -> MeshMediaView {
        MeshMediaView { audio: self.audio@, opus: self.opus }
    }
}

impl MeshMedia {
    /// Opus with the given parameters.
    pub fn opus(opus: OpusParams) -> (r: Self)
        ensures
            r@ == (MeshMediaView { audio: AUDIO_OPUS@, opus }),
    {
        MeshMedia { audio: AUDIO_OPUS.to_string(), opus }
    }
}

/// A mesh focus: the member's own node id and its media parameters. This is
/// the whole negotiation.
#[derive(Clone, Debug, PartialEq, Eq)]
pub struct MeshFocus {
    /// The member's node id, lowercase hex, which the peer dials.
    pub node_id: String,
    /// Codec and parameters that this member receives.
    pub media: MeshMedia,
}

/// What a [`MeshFocus`] holds.
pub struct MeshFocusView {
    pub node_id: Seq<char>,
    pub media: MeshMediaView,
}

impl View for MeshFocus {
    type V = MeshFocusView;

    open spec fn view(&self) -> MeshFocusView {
        MeshFocusView { node_id: self.node_id@, media: self.media@ }
    }
}

/// The focus that the node `key` offers with `opus`.
pub open spec fn focus_of(key: Seq<u8>, opus: OpusParams) -> MeshFocusView {
    MeshFocusView { node_id: hex_text(key), media: MeshMediaView { audio: AUDIO_OPUS@, opus } }
}

impl MeshFocus {
    /// The focus for the given raw node id and opus parameters.
    pub fn new(node_id: &[u8; 32], opus: OpusParams) -> (r: Self)
        ensures
            r@ == focus_of(node_id@, opus),
    {
        MeshFocus { node_id: hex32(node_id), media: MeshMedia::opus(opus) }
    }

    /// The node id as raw bytes, if the string is a canonical hex id.
    pub fn node_key(&self) -> (r: Option<[u8; 32]>)
        ensures
            r is Some <==> text_key(self@.node_id) is Some,
            r matches Some(key) ==> text_key(self@.node_id) == Some(key@),
    {
        unhex32(self.node_id.as_str())
    }
}

/// One entry of `foci_preferred`, told apart by its `type`.
#[derive(Clone, Debug, PartialEq, Eq)]
pub enum Focus {
    /// A mesh peer.
    MeshIroh(MeshFocus),
    /// A LiveKit server; read so that a room's members can be listed, never
    /// written.
    Livekit {
        /// The room alias on the server.
        livekit_alias: String,
        /// The token service URL.
        livekit_service_url: String,
    },
}

/// What a [`Focus`] holds.
pub enum FocusView {
    MeshIroh(MeshFocusView),
    Livekit { livekit_alias: Seq<char>, livekit_service_url: Seq<char> },
}

impl View for Focus {
    type V = FocusView;

    open spec fn view(&self) -> FocusView {
        match *self {
            Focus::MeshIroh(focus) => FocusView::MeshIroh(focus@),
            Focus::Livekit { livekit_alias, livekit_service_url } => FocusView::Livekit {
                livekit_alias: livekit_alias@,
                livekit_service_url: livekit_service_url@,
            },
        }
    }
}

/// `focus_active`: how a member is connected, told apart by its `type`.
#[derive(Clone, Debug, PartialEq, Eq)]
pub enum ActiveFocus {
    /// Over the mesh: the node id in `foci_preferred` is the leg.
    MeshIroh,
    /// Through a LiveKit server.
    Livekit {
        /// How the server was chosen.
        focus_selection: String,
    },
}

/// What an [`ActiveFocus`] holds.
pub enum ActiveFocusView {
    MeshIroh,
    Livekit { focus_selection: Seq<char> },
}

impl View for ActiveFocus {
    type V = ActiveFocusView;

    open spec fn view(&self) -> ActiveFocusView {
        match *self {
            ActiveFocus::MeshIroh => ActiveFocusView::MeshIroh,
            ActiveFocus::Livekit { focus_selection } => ActiveFocusView::Livekit {
                focus_selection: focus_selection@,
            },
        }
    }
}

/// One device's membership in a session: the non-empty content of a call
/// member event.
#[derive(Clone, Debug, PartialEq, Eq)]
pub struct SessionMembership {
    /// Session type; [`APPLICATION_CALL`] for a call.
    pub application: String,
    /// [`ROOM_CALL_ID`] for the room-scoped call.
    pub call_id: String,
    /// Who owns the call; [`SCOPE_ROOM`].
    pub scope: Option<String>,
    /// The member's device id.
    pub device_id: String,
    /// Foci that this member offers.
    pub foci_preferred: Vec<Focus>,
    /// The focus in use.
    pub focus_active: ActiveFocus,
    /// Timestamp of the initial join, carried on updates.
    pub created_ts: Option<u64>,
    /// Milliseconds after the join at which this membership is stale.
    pub expires: Option<u64>,
}

/// What a [`SessionMembership`] holds.
pub struct SessionView {
    pub application: Seq<char>,
    pub call_id: Seq<char>,
    pub scope: Option<Seq<char>>,
    pub device_id: Seq<char>,
    pub foci_preferred: Seq<FocusView>,
    pub focus_active: ActiveFocusView,
    pub created_ts: Option<u64>,
    pub expires: Option<u64>,
}

/// What a list of foci holds.
pub open spec fn foci_view(foci: Seq<Focus>) -> Seq<FocusView> {
    Seq::new(foci.len(), |i: int| foci[i]@)
}

impl View for SessionMembership {
    type V = SessionView;

    open spec fn view(&self) -> SessionView {
        SessionView {
            application: self.application@,
            call_id: self.call_id@,
            scope: opt_text(self.scope),
            device_id: self.device_id@,
            foci_preferred: foci_view(self.foci_preferred@),
            focus_active: self.focus_active@,
            created_ts: self.created_ts,
            expires: self.expires,
        }
    }
}

/// The empty content that means "left", with an optional reason.
#[derive(Clone, Debug, PartialEq, Eq)]
pub struct LeftMembership {
    /// Why the member left, if not an ordinary hang-up.
    pub leave_reason: Option<String>,
}

/// What a [`LeftMembership`] holds.
pub struct LeftView {
    pub leave_reason: Option<Seq<char>>,
}

impl View for LeftMembership {
    type V = LeftView;

    open spec fn view(&self) -> LeftView {
        LeftView { leave_reason: opt_text(self.leave_reason) }
    }
}

impl Default for LeftMembership {
    fn default() -> (r: Self)
        ensures
            r@ == (LeftView { leave_reason: None }),
    {
        LeftMembership { leave_reason: None }
    }
}

/// Content of a call member event: a joined session, or that of a member who
/// left.
#[derive(Clone, Debug, PartialEq, Eq)]
pub enum CallMemberContent {
    /// In the call.
    Session(SessionMembership),
    /// Not, or no longer, in the call.
    Left(LeftMembership),
}

/// What a [`CallMemberContent`] holds.
pub enum ContentView {
    Session(SessionView),
    Left(LeftView),
}

impl View for CallMemberContent {
    type V = ContentView;

    open spec fn view(&self) -> ContentView {
        match *self {
            CallMemberContent::Session(s) => ContentView::Session(s@),
            CallMemberContent::Left(l) => ContentView::Left(l@),
        }
    }
}

/// The session that joins the room call from `device_id` with the node `key`
/// as its one focus.
pub open spec fn joined(key: Seq<u8>, device_id: Seq<char>, opus: OpusParams, expires: Option<u64>) -> SessionView {
    SessionView {
        application: APPLICATION_CALL@,
        call_id: ROOM_CALL_ID@,
        scope: Some(SCOPE_ROOM@),
        device_id,
        foci_preferred: seq![FocusView::MeshIroh(focus_of(key, opus))],
        focus_active: ActiveFocusView::MeshIroh,
        created_ts: None,
        expires,
    }
}

impl CallMemberContent {
    /// Content to join the room-scoped call from `device_id`, advertising this
    /// node as a mesh focus. `expires_ms` is the staleness delta.
    pub fn join(node_id: &[u8; 32], device_id: &str, opus: OpusParams, expires_ms: Option<u64>) -> (r: Self)
        ensures
            r@ == ContentView::Session(joined(node_id@, device_id@, opus, expires_ms)),
    {
        let mut foci: Vec<Focus> = Vec::new();
        foci.push(Focus::MeshIroh(MeshFocus::new(node_id, opus)));
        let session = SessionMembership {
            application: APPLICATION_CALL.to_string(),
            call_id: ROOM_CALL_ID.to_string(),
            scope: Some(SCOPE_ROOM.to_string()),
            device_id: device_id.to_string(),
            foci_preferred: foci,
            focus_active: ActiveFocus::MeshIroh,
            created_ts: None,
            expires: expires_ms,
        };
        assert(session@.foci_preferred =~= joined(node_id@, device_id@, opus, expires_ms).foci_preferred);
        CallMemberContent::Session(session)
    }

    /// Content to leave.
    pub fn leave() -> (r: Self)
        ensures
            r@ == ContentView::Left(LeftView { leave_reason: None }),
    {
        CallMemberContent::Left(LeftMembership::default())
    }

    /// The joined session, if any.
    pub fn session(&self) -> (r: Option<&SessionMembership>)
        ensures
            (match r {
                Some(s) => self == CallMemberContent::Session(*s),
                None => self is Left,
            }),
    {
        match self {
            CallMemberContent::Session(s) => Some(s),
            CallMemberContent::Left(_) => None,
        }
    }
}

/// The first mesh focus among `foci`.
pub open spec fn first_mesh(foci: Seq<FocusView>) -> Option<MeshFocusView>
    decreases foci.len(),
{
    if foci.len() == 0 {
        None
    } else {
        match foci[0] {
            FocusView::MeshIroh(focus) => Some(focus),
            FocusView::Livekit { .. } => first_mesh(foci.drop_first()),
        }
    }
}

/// When a member joined: the earlier of what it says itself and of the event's
/// own timestamp.
pub open spec fn joined_at(session: SessionView, origin_server_ts_ms: u64) -> u64 {
    match session.created_ts {
        Some(created) => if created < origin_server_ts_ms {
            created
        } else {
            origin_server_ts_ms
        },
        None => origin_server_ts_ms,
    }
}

/// Whether a membership is stale at `now_ms`. The instant at which it becomes
/// so is capped at the last representable one.
pub open spec fn expired(session: SessionView, origin_server_ts_ms: u64, now_ms: u64) -> bool {
    match session.expires {
        None => false,
        Some(expires) => {
            let end = joined_at(session, origin_server_ts_ms) + expires;
            now_ms >= (if end > u64::MAX { u64::MAX as int } else { end })
        },
    }
}

impl SessionMembership {
    /// The mesh focus that this member offers, if it is a mesh member.
    pub fn mesh_focus(&self) -> (r: Option<&MeshFocus>)
        ensures
            (match r {
                Some(focus) => Some(focus@),
                None => None,
            }) == first_mesh(self@.foci_preferred),
    {
        let ghost foci = self@.foci_preferred;
        let mut i: usize = 0;
        assert(foci.skip(0) =~= foci);
        while i < self.foci_preferred.len()
            invariant
                i <= self.foci_preferred.len(),
                foci == foci_view(self.foci_preferred@),
                first_mesh(foci) == first_mesh(foci.skip(i as int)),
            decreases self.foci_preferred.len() - i,
        {
            assert(foci.skip(i as int).drop_first() =~= foci.skip(i + 1));
            match &self.foci_preferred[i] {
                Focus::MeshIroh(focus) => {
                    return Some(focus);
                },
                Focus::Livekit { .. } => {},
            }
            i += 1;
        }
        None
    }

    /// Whether this membership is stale at `now_ms`, given the event's
    /// timestamp. Without `expires` it never is.
    pub fn is_expired(&self, origin_server_ts_ms: u64, now_ms: u64) -> (r: bool)
        ensures
            r == expired(self@, origin_server_ts_ms, now_ms),
            self.expires is None ==> !r,
            self.expires matches Some(expires) ==> (r <==> now_ms == u64::MAX || now_ms - expires >= origin_server_ts_ms || (
            self.created_ts matches Some(created) && now_ms - expires >= created)),
    {
        match self.expires {
            None => false,
            Some(expires) => {
                let joined: u64 = match self.created_ts {
                    Some(created) => if created < origin_server_ts_ms {
                        created
                    } else {
                        origin_server_ts_ms
                    },
                    None => origin_server_ts_ms,
                };
                now_ms >= joined.saturating_add(expires)
            },
        }
    }
}

/// The per-device state key of the room call.
pub open spec fn state_key_text(user_id: Seq<char>, device_id: Seq<char>) -> Seq<char> {
    "_"@ + user_id + "_"@ + device_id + "_"@ + APPLICATION_CALL@
}

/// The per-device state key of the room call: `_{user_id}_{device_id}_m.call`.
pub fn state_key(user_id: &str, device_id: &str) -> (r: String)
    ensures
        r@ == state_key_text(user_id@, device_id@),
{
    let mut key = "_".to_string();
    key.append(user_id);
    key.append("_");
    key.append(device_id);
    key.append("_");
    key.append(APPLICATION_CALL);
    key
}

/// One mesh peer in the call, as read from room state.
#[derive(Clone, Debug, PartialEq, Eq)]
pub struct MeshMember {
    /// The event's state key.
    pub state_key: String,
    /// The member's node id, raw.
    pub node_id: [u8; 32],
    /// What the member wants to receive.
    pub opus: OpusParams,
    /// The member's device id.
    pub device_id: String,
}

/// What a [`MeshMember`] holds.
pub struct MemberView {
    pub state_key: Seq<char>,
    pub node_id: Seq<u8>,
    pub opus: OpusParams,
    pub device_id: Seq<char>,
}

impl View for MeshMember {
    type V = MemberView;

    open spec fn view(&self) -> MemberView {
        MemberView {
            state_key: self.state_key@,
            node_id: self.node_id@,
            opus: self.opus,
            device_id: self.device_id@,
        }
    }
}

/// What a list of members holds.
pub open spec fn member_views(members: Seq<MeshMember>) -> Seq<MemberView> {
    Seq::new(members.len(), |i: int| members[i]@)
}

/// The member that one entry of the room's call state stands for: a session of
/// the call application that has not expired and whose first mesh focus has a
/// canonical node id.
pub open spec fn member_of(state_key: Seq<char>, origin_ts: u64, content: ContentView, now_ms: u64) -> Option<MemberView> {
    match content {
        ContentView::Left(_) => None,
        ContentView::Session(session) => if session.application != APPLICATION_CALL@ || expired(session, origin_ts, now_ms) {
            None
        } else {
            match first_mesh(session.foci_preferred) {
                None => None,
                Some(focus) => match text_key(focus.node_id) {
                    None => None,
                    Some(node_id) => Some(
                        MemberView { state_key, node_id, opus: focus.media.opus, device_id: session.device_id },
                    ),
                },
            }
        },
    }
}

/// The members that a room's call state stands for, in its order.
pub open spec fn live_members(state: Seq<(Seq<char>, u64, ContentView)>, now_ms: u64) -> Seq<MemberView>
    decreases state.len(),
{
    if state.len() == 0 {
        Seq::empty()
    } else {
        let entry = state.last();
        let before = live_members(state.drop_last(), now_ms);
        match member_of(entry.0, entry.1, entry.2, now_ms) {
            Some(member) => before.push(member),
            None => before,
        }
    }
}

/// What the entries of a room's call state hold.
pub open spec fn state_view(state: Seq<(&str, u64, &CallMemberContent)>) -> Seq<(Seq<char>, u64, ContentView)> {
    Seq::new(state.len(), |i: int| (state[i].0@, state[i].1, state[i].2@))
}

/// The member that one entry stands for, if any.
fn mesh_member(state_key: &str, origin_ts: u64, content: &CallMemberContent, now_ms: u64) -> (r: Option<MeshMember>)
    ensures
        (match r {
            Some(member) => Some(member@),
            None => None,
        }) == member_of(state_key@, origin_ts, content@, now_ms),
{
    let session = match content.session() {
        Some(session) => session,
        None => {
            return None;
        },
    };
    if !same_text(session.application.as_str(), APPLICATION_CALL) || session.is_expired(origin_ts, now_ms) {
        return None;
    }
    let focus = match session.mesh_focus() {
        Some(focus) => focus,
        None => {
            return None;
        },
    };
    match focus.node_key() {
        Some(node_id) => Some(
            MeshMember {
                state_key: state_key.to_string(),
                node_id,
                opus: focus.media.opus,
                device_id: session.device_id.clone(),
            },
        ),
        None => None,
    }
}

/// The mesh members of the room call, out of its call member state: who can be
/// dialled. Every entry is a state key, the event's timestamp and the content.
/// Members who left, expired or are on another medium are skipped.
pub fn mesh_members(state: &[(&str, u64, &CallMemberContent)], now_ms: u64) -> (r: Vec<MeshMember>)
    ensures
        member_views(r@) == live_members(state_view(state@), now_ms),
{
    let mut members: Vec<MeshMember> = Vec::new();
    let ghost entries = state_view(state@);
    let mut i: usize = 0;
    assert(member_views(members@) =~= live_members(entries.take(0), now_ms));
    while i < state.len()
        invariant
            i <= state.len(),
            entries == state_view(state@),
            member_views(members@) == live_members(entries.take(i as int), now_ms),
        decreases state.len() - i,
    {
        assert(entries.take(i + 1).drop_last() =~= entries.take(i as int));
        let ghost before = members@;
        if let Some(member) = mesh_member(state[i].0, state[i].1, state[i].2, now_ms) {
            members.push(member);
            assert(member_views(members@) =~= member_views(before).push(member@));
        }
        i += 1;
    }
    assert(entries.take(i as int) =~= entries);
    members
}

/// Strict inverse of [`hex32`]: exactly 64 lowercase hex digits.
pub fn unhex32(s: &str) -> (r: Option<[u8; 32]>)
    ensures
        r is Some <==> text_key(s@) is Some,
        r matches Some(key) ==> text_key(s@) == Some(key@),
{
    parse_hex32(s)
}

} // verus!
