//! What holds of call memberships as a whole.

use vstd::prelude::*;

use crate::call_member::{
    default_opus, expired, first_mesh, focus_of, joined, live_members, member_of, member_views, state_key_text, state_view,
    ActiveFocus, ActiveFocusView, CallMemberContent, ContentView, Focus, FocusView, LeftMembership, LeftView, MemberView,
    MeshFocus, MeshFocusView, MeshMediaView, MeshMember, OpusParams, SessionMembership, SessionView, APPLICATION_CALL,
    AUDIO_OPUS, CALL_MEMBER_EVENT_TYPE, LIVEKIT_FOCUS_TYPE, MESH_FOCUS_TYPE, ROOM_CALL_ID, SCOPE_ROOM,
};
use crate::call_wire::{
    active_tree, content_tree, focus_tree, lemma_read_foci_stops, media_tree, opt_text_tree, read_active, read_content,
    read_foci, read_focus, read_left, read_media, read_session, session_fields,
};
use crate::json::{json_text, lemma_written_slot, record_slot, slot, text_field, written, JsonView, SlotView};
use crate::json_laws::{is_plain, law_json_text_is_injective, lemma_plain_member};
use crate::node_id::{
    hex_nibble, hex_text, hex_value, is_hex_digit, law_hex_is_canonical, law_hex_round_trip, text_key, NodeKey,
};

verus! {

/// The keys of a focus differ from each other.
proof fn lemma_focus_keys()
    ensures
        "audio"@.len() == 5,
        "bitrate"@.len() == 7,
        "sample_rate"@.len() == 11,
        "frame_ms"@.len() == 8,
        "channels"@.len() == 8,
        "frame_ms"@ != "channels"@,
        "type"@.len() == 4,
        "node_id"@.len() == 7,
        "media"@.len() == 5,
        "livekit_alias"@.len() == 13,
        "livekit_service_url"@.len() == 19,
        "focus_selection"@.len() == 15,
        MESH_FOCUS_TYPE@.len() == 22,
        LIVEKIT_FOCUS_TYPE@.len() == 7,
{
    reveal_strlit("audio");
    reveal_strlit("bitrate");
    reveal_strlit("sample_rate");
    reveal_strlit("frame_ms");
    reveal_strlit("channels");
    assert("frame_ms"@[0] != "channels"@[0]);
    reveal_strlit("type");
    reveal_strlit("node_id");
    reveal_strlit("media");
    reveal_strlit("livekit_alias");
    reveal_strlit("livekit_service_url");
    reveal_strlit("focus_selection");
    reveal_strlit("in.indiafoss.mesh.iroh");
    reveal_strlit("livekit");
}

/// The `media` object reads back as it was written.
proof fn lemma_media_round_trip(media: MeshMediaView)
    ensures
        read_media(media_tree(media)) == Some(media),
{
    lemma_focus_keys();
    let fields = seq![
        ("audio"@, Some(JsonView::Text(media.audio))),
        ("bitrate"@, Some(JsonView::Number(media.opus.bitrate as u64))),
        ("sample_rate"@, Some(JsonView::Number(media.opus.sample_rate as u64))),
        ("frame_ms"@, Some(JsonView::Number(media.opus.frame_ms as u64))),
        ("channels"@, Some(JsonView::Number(media.opus.channels as u64))),
    ];
    assert forall|i: int, j: int| 0 <= i < j < fields.len() implies fields[i].0 != fields[j].0 by {}
    lemma_written_slot(fields, fields[0].0);
    lemma_written_slot(fields, fields[1].0);
    lemma_written_slot(fields, fields[2].0);
    lemma_written_slot(fields, fields[3].0);
    lemma_written_slot(fields, fields[4].0);
}

/// A focus reads back as it was written.
proof fn lemma_focus_round_trip(focus: FocusView)
    ensures
        read_focus(focus_tree(focus)) == Some(focus),
{
    lemma_focus_keys();
    match focus {
        FocusView::MeshIroh(mesh) => {
            lemma_media_round_trip(mesh.media);
            let fields = seq![
                ("type"@, Some(JsonView::Text(MESH_FOCUS_TYPE@))),
                ("node_id"@, Some(JsonView::Text(mesh.node_id))),
                ("media"@, Some(media_tree(mesh.media))),
            ];
            lemma_written_slot(fields, fields[0].0);
            lemma_written_slot(fields, fields[1].0);
            lemma_written_slot(fields, fields[2].0);
        },
        FocusView::Livekit { livekit_alias, livekit_service_url } => {
            let fields = seq![
                ("type"@, Some(JsonView::Text(LIVEKIT_FOCUS_TYPE@))),
                ("livekit_alias"@, Some(JsonView::Text(livekit_alias))),
                ("livekit_service_url"@, Some(JsonView::Text(livekit_service_url))),
            ];
            lemma_written_slot(fields, fields[0].0);
            lemma_written_slot(fields, fields[1].0);
            lemma_written_slot(fields, fields[2].0);
        },
    }
}

/// The focus in use reads back as it was written.
proof fn lemma_active_round_trip(active: ActiveFocusView)
    ensures
        read_active(active_tree(active)) == Some(active),
{
    lemma_focus_keys();
    match active {
        ActiveFocusView::MeshIroh => {
            let fields = seq![("type"@, Some(JsonView::Text(MESH_FOCUS_TYPE@)))];
            lemma_written_slot(fields, fields[0].0);
        },
        ActiveFocusView::Livekit { focus_selection } => {
            let fields = seq![
                ("type"@, Some(JsonView::Text(LIVEKIT_FOCUS_TYPE@))),
                ("focus_selection"@, Some(JsonView::Text(focus_selection))),
            ];
            lemma_written_slot(fields, fields[0].0);
            lemma_written_slot(fields, fields[1].0);
        },
    }
}

/// The first `n` foci read back as they were written.
proof fn lemma_foci_round_trip(foci: Seq<FocusView>, n: nat)
    requires
        n <= foci.len(),
    ensures
        read_foci(Seq::new(foci.len(), |i: int| focus_tree(foci[i])), n) == Some(foci.take(n as int)),
    decreases n,
{
    let items = Seq::new(foci.len(), |i: int| focus_tree(foci[i]));
    if n > 0 {
        lemma_foci_round_trip(foci, (n - 1) as nat);
        lemma_focus_round_trip(foci[n - 1]);
        assert(foci.take(n - 1).push(foci[n - 1]) =~= foci.take(n as int));
    } else {
        assert(foci.take(0) =~= Seq::empty());
    }
}

/// The keys of a session differ from each other.
proof fn lemma_session_keys()
    ensures
        "application"@.len() == 11,
        "call_id"@.len() == 7,
        "scope"@.len() == 5,
        "device_id"@.len() == 9,
        "foci_preferred"@.len() == 14,
        "focus_active"@.len() == 12,
        "created_ts"@.len() == 10,
        "expires"@.len() == 7,
        "call_id"@ != "expires"@,
{
    reveal_strlit("application");
    reveal_strlit("call_id");
    reveal_strlit("scope");
    reveal_strlit("device_id");
    reveal_strlit("foci_preferred");
    reveal_strlit("focus_active");
    reveal_strlit("created_ts");
    reveal_strlit("expires");
    assert("call_id"@[0] != "expires"@[0]);
}

/// A session reads back as it was written.
proof fn lemma_session_round_trip(session: SessionView)
    ensures
        read_session(content_tree(ContentView::Session(session))) == Some(session),
{
    lemma_session_keys();
    let fields = session_fields(session);
    assert forall|i: int, j: int| 0 <= i < j < fields.len() implies fields[i].0 != fields[j].0 by {}
    lemma_written_slot(fields, fields[0].0);
    lemma_written_slot(fields, fields[1].0);
    lemma_written_slot(fields, fields[2].0);
    lemma_written_slot(fields, fields[3].0);
    lemma_written_slot(fields, fields[4].0);
    lemma_written_slot(fields, fields[5].0);
    lemma_written_slot(fields, fields[6].0);
    lemma_written_slot(fields, fields[7].0);
    let foci = session.foci_preferred;
    lemma_foci_round_trip(foci, foci.len());
    assert(foci.take(foci.len() as int) =~= foci);
    lemma_active_round_trip(session.focus_active);
}

/// The content of a member who left reads back as it was written, and not as a
/// session.
proof fn lemma_left_round_trip(left: LeftView)
    ensures
        read_left(content_tree(ContentView::Left(left))) == Some(left),
        read_session(content_tree(ContentView::Left(left))) is None,
{
    lemma_session_keys();
    reveal_strlit("leave_reason");
    let fields = seq![("leave_reason"@, opt_text_tree(left.leave_reason))];
    lemma_written_slot(fields, fields[0].0);
    lemma_written_slot(fields, "application"@);
    reveal_with_fuel(written, 2);
}

/// Reading what was written gives the content back, whatever it is.
pub proof fn law_wire_round_trip(content: ContentView)
    ensures
        read_content(content_tree(content)) == Some(content),
{
    match content {
        ContentView::Session(session) => lemma_session_round_trip(session),
        ContentView::Left(left) => lemma_left_round_trip(left),
    }
}

/// A session is written as its fields in their order, each under its own key,
/// and nothing else; what is missing is left out.
pub proof fn law_session_is_written_in_order(session: SessionView)
    ensures
        content_tree(ContentView::Session(session)) matches JsonView::Object(members) && {
            let scope: int = if session.scope is Some { 1 } else { 0 };
            let created: int = if session.created_ts is Some { 1 } else { 0 };
            let expires: int = if session.expires is Some { 1 } else { 0 };
            &&& members.len() == 5 + scope + created + expires
            &&& members[0] == ("application"@, JsonView::Text(session.application))
            &&& members[1] == ("call_id"@, JsonView::Text(session.call_id))
            &&& session.scope matches Some(text) ==> members[2] == ("scope"@, JsonView::Text(text))
            &&& members[2 + scope] == ("device_id"@, JsonView::Text(session.device_id))
            &&& members[3 + scope].0 == "foci_preferred"@
            &&& members[3 + scope].1 matches JsonView::List(foci) && foci.len() == session.foci_preferred.len() && (forall|i: int|
                0 <= i < foci.len() ==> #[trigger] foci[i] == focus_tree(session.foci_preferred[i]))
            &&& members[4 + scope] == ("focus_active"@, active_tree(session.focus_active))
            &&& session.created_ts matches Some(number) ==> members[5 + scope] == ("created_ts"@, JsonView::Number(number))
            &&& session.expires matches Some(number) ==> members[5 + scope + created] == ("expires"@, JsonView::Number(number))
        },
{
    reveal_with_fuel(written, 9);
}

/// A focus is written as its type and then its fields, and nothing else; a
/// member who left as the reason, or as nothing.
pub proof fn law_focus_is_written_in_order(mesh: MeshFocusView, alias: Seq<char>, url: Seq<char>, selection: Seq<char>, left: LeftView)
    ensures
        focus_tree(FocusView::MeshIroh(mesh)) == JsonView::Object(
            seq![
                ("type"@, JsonView::Text("in.indiafoss.mesh.iroh"@)),
                ("node_id"@, JsonView::Text(mesh.node_id)),
                (
                    "media"@,
                    JsonView::Object(
                        seq![
                            ("audio"@, JsonView::Text(mesh.media.audio)),
                            ("bitrate"@, JsonView::Number(mesh.media.opus.bitrate as u64)),
                            ("sample_rate"@, JsonView::Number(mesh.media.opus.sample_rate as u64)),
                            ("frame_ms"@, JsonView::Number(mesh.media.opus.frame_ms as u64)),
                            ("channels"@, JsonView::Number(mesh.media.opus.channels as u64)),
                        ],
                    ),
                ),
            ],
        ),
        focus_tree(FocusView::Livekit { livekit_alias: alias, livekit_service_url: url }) == JsonView::Object(
            seq![
                ("type"@, JsonView::Text("livekit"@)),
                ("livekit_alias"@, JsonView::Text(alias)),
                ("livekit_service_url"@, JsonView::Text(url)),
            ],
        ),
        active_tree(ActiveFocusView::MeshIroh) == JsonView::Object(
            seq![("type"@, JsonView::Text("in.indiafoss.mesh.iroh"@))],
        ),
        active_tree(ActiveFocusView::Livekit { focus_selection: selection }) == JsonView::Object(
            seq![("type"@, JsonView::Text("livekit"@)), ("focus_selection"@, JsonView::Text(selection))],
        ),
        content_tree(ContentView::Left(left)) == JsonView::Object(
            match left.leave_reason {
                Some(reason) => seq![("leave_reason"@, JsonView::Text(reason))],
                None => Seq::empty(),
            },
        ),
{
    reveal_with_fuel(written, 6);
    let media = mesh.media;
    assert(media_tree(media)->Object_0 =~= seq![
        ("audio"@, JsonView::Text(media.audio)),
        ("bitrate"@, JsonView::Number(media.opus.bitrate as u64)),
        ("sample_rate"@, JsonView::Number(media.opus.sample_rate as u64)),
        ("frame_ms"@, JsonView::Number(media.opus.frame_ms as u64)),
        ("channels"@, JsonView::Number(media.opus.channels as u64)),
    ]);
    assert(focus_tree(FocusView::MeshIroh(mesh))->Object_0 =~= seq![
        ("type"@, JsonView::Text("in.indiafoss.mesh.iroh"@)),
        ("node_id"@, JsonView::Text(mesh.node_id)),
        ("media"@, media_tree(media)),
    ]);
    let livekit = FocusView::Livekit { livekit_alias: alias, livekit_service_url: url };
    assert(focus_tree(livekit)->Object_0 =~= seq![
        ("type"@, JsonView::Text("livekit"@)),
        ("livekit_alias"@, JsonView::Text(alias)),
        ("livekit_service_url"@, JsonView::Text(url)),
    ]);
    assert(active_tree(ActiveFocusView::MeshIroh)->Object_0 =~= seq![("type"@, JsonView::Text("in.indiafoss.mesh.iroh"@))]);
    let active = ActiveFocusView::Livekit { focus_selection: selection };
    assert(active_tree(active)->Object_0 =~= seq![
        ("type"@, JsonView::Text("livekit"@)),
        ("focus_selection"@, JsonView::Text(selection)),
    ]);
    let reason = left.leave_reason;
    assert(content_tree(ContentView::Left(left))->Object_0 =~= (match reason {
        Some(reason) => seq![("leave_reason"@, JsonView::Text(reason))],
        None => Seq::empty(),
    }));
}

/// An object that writes plain values is plain.
proof fn lemma_plain_written(fields: Seq<(Seq<char>, Option<JsonView>)>)
    requires
        forall|i: int| 0 <= i < fields.len() ==> ((#[trigger] fields[i]).1 matches Some(value) ==> is_plain(value)),
    ensures
        is_plain(JsonView::Object(written(fields))),
    decreases fields.len(),
{
    if fields.len() > 0 {
        let rest = fields.drop_last();
        assert forall|i: int| 0 <= i < rest.len() implies ((#[trigger] rest[i]).1 matches Some(value) ==> is_plain(value)) by {
            assert(rest[i] == fields[i]);
        }
        lemma_plain_written(rest);
        let before = written(rest);
        let members = written(fields);
        assert(fields.last() == fields[fields.len() - 1]);
        assert forall|i: int| 0 <= i < members.len() implies is_plain((#[trigger] members[i]).1) by {
            if i < before.len() {
                assert(members[i] == before[i]);
                lemma_plain_member(before, i);
            }
        }
    }
}

/// A focus is written as a plain tree.
proof fn lemma_plain_focus(focus: FocusView)
    ensures
        is_plain(focus_tree(focus)),
{
    if let FocusView::MeshIroh(mesh) = focus {
        let media = mesh.media;
        lemma_plain_written(
            seq![
                ("audio"@, Some(JsonView::Text(media.audio))),
                ("bitrate"@, Some(JsonView::Number(media.opus.bitrate as u64))),
                ("sample_rate"@, Some(JsonView::Number(media.opus.sample_rate as u64))),
                ("frame_ms"@, Some(JsonView::Number(media.opus.frame_ms as u64))),
                ("channels"@, Some(JsonView::Number(media.opus.channels as u64))),
            ],
        );
        assert(is_plain(media_tree(media)));
        lemma_plain_written(
            seq![
                ("type"@, Some(JsonView::Text(MESH_FOCUS_TYPE@))),
                ("node_id"@, Some(JsonView::Text(mesh.node_id))),
                ("media"@, Some(media_tree(mesh.media))),
            ],
        );
    } else if let FocusView::Livekit { livekit_alias, livekit_service_url } = focus {
        lemma_plain_written(
            seq![
                ("type"@, Some(JsonView::Text(LIVEKIT_FOCUS_TYPE@))),
                ("livekit_alias"@, Some(JsonView::Text(livekit_alias))),
                ("livekit_service_url"@, Some(JsonView::Text(livekit_service_url))),
            ],
        );
    }
}

/// An active focus is written as a plain tree.
proof fn lemma_plain_active(active: ActiveFocusView)
    ensures
        is_plain(active_tree(active)),
{
    match active {
        ActiveFocusView::MeshIroh => {
            lemma_plain_written(seq![("type"@, Some(JsonView::Text(MESH_FOCUS_TYPE@)))]);
        },
        ActiveFocusView::Livekit { focus_selection } => {
            lemma_plain_written(
                seq![
                    ("type"@, Some(JsonView::Text(LIVEKIT_FOCUS_TYPE@))),
                    ("focus_selection"@, Some(JsonView::Text(focus_selection))),
                ],
            );
        },
    }
}

/// A content is written as a plain tree.
proof fn lemma_plain_content(content: ContentView)
    ensures
        is_plain(content_tree(content)),
{
    match content {
        ContentView::Session(session) => {
            let foci = Seq::new(session.foci_preferred.len(), |i: int| focus_tree(session.foci_preferred[i]));
            assert forall|i: int| 0 <= i < foci.len() implies is_plain(#[trigger] foci[i]) by {
                lemma_plain_focus(session.foci_preferred[i]);
            }
            assert(is_plain(JsonView::List(foci)));
            lemma_plain_active(session.focus_active);
            lemma_plain_written(session_fields(session));
        },
        ContentView::Left(left) => {
            lemma_plain_written(seq![("leave_reason"@, opt_text_tree(left.leave_reason))]);
        },
    }
}

/// The JSON text of a content identifies it: no two contents are written
/// alike.
pub proof fn law_wire_text_identifies_content(content: ContentView, other: ContentView)
    ensures
        json_text(content_tree(content)) == json_text(content_tree(other)) ==> content == other,
{
    lemma_plain_content(content);
    lemma_plain_content(other);
    law_json_text_is_injective(content_tree(content), content_tree(other));
    law_wire_round_trip(content);
    law_wire_round_trip(other);
}

/// A key has no value exactly where no member has it, and no single value where
/// all of several members have it.
proof fn lemma_slot_present(members: Seq<(Seq<char>, JsonView)>, key: Seq<char>)
    ensures
        slot(members, key) == SlotView::Absent <==> forall|i: int| 0 <= i < members.len() ==> (#[trigger] members[i]).0 != key,
        members.len() >= 2 && (forall|i: int| 0 <= i < members.len() ==> (#[trigger] members[i]).0 == key) ==> slot(members, key)
            == SlotView::Repeated,
    decreases members.len(),
{
    if members.len() > 0 {
        let rest = members.drop_last();
        lemma_slot_present(rest, key);
        assert forall|i: int| 0 <= i < rest.len() implies #[trigger] rest[i] == members[i] by {}
        assert(members.last() == members[members.len() - 1]);
        if members.last().0 != key && slot(rest, key) != SlotView::Absent {
            let i = choose|i: int| 0 <= i < rest.len() && (#[trigger] rest[i]).0 == key;
            assert(members[i].0 == key);
        }
        if slot(members, key) == SlotView::Absent {
            assert forall|i: int| 0 <= i < members.len() implies (#[trigger] members[i]).0 != key by {
                if i < rest.len() {
                    assert(rest[i] == members[i]);
                }
            }
        }
        if members.len() >= 2 && (forall|i: int| 0 <= i < members.len() ==> (#[trigger] members[i]).0 == key) {
            assert(rest[0].0 == key);
        }
    }
}

/// Only an empty object, or one that holds a `leave_reason` and nothing else,
/// is read as a hang-up: garbage never is.
pub proof fn law_garbage_is_no_hang_up(tree: JsonView)
    ensures
        read_content(tree) matches Some(ContentView::Left(left)) ==> {
            ||| tree == JsonView::Object(Seq::empty()) && left.leave_reason is None
            ||| tree == JsonView::Object(seq![("leave_reason"@, JsonView::Null)]) && left.leave_reason is None
            ||| left.leave_reason matches Some(reason) && tree == JsonView::Object(seq![("leave_reason"@, JsonView::Text(reason))])
        },
{
    if read_content(tree) matches Some(ContentView::Left(left)) {
        let members = tree->Object_0;
        lemma_slot_present(members, "leave_reason"@);
        if members.len() == 0 {
            assert(members =~= Seq::empty());
        } else {
            assert(members.len() == 1);
            assert(members[0].0 == "leave_reason"@);
            reveal_with_fuel(slot, 2);
            assert(members =~= seq![("leave_reason"@, members[0].1)]);
        }
    }
}

/// A membership that offers a focus of an unknown type is an error: it is read
/// neither as a session nor as a hang-up.
pub proof fn law_unknown_focus_is_an_error(tree: JsonView, foci: Seq<JsonView>, i: int, kind: Seq<char>)
    requires
        record_slot(tree, 4, "foci_preferred"@) == SlotView::Value(JsonView::List(foci)),
        0 <= i < foci.len(),
        text_field(record_slot(foci[i], 0, "type"@)) == Some(kind),
        kind != MESH_FOCUS_TYPE@,
        kind != LIVEKIT_FOCUS_TYPE@,
    ensures
        read_content(tree) is None,
{
    assert(read_foci(foci, (i + 1) as nat) is None);
    lemma_read_foci_stops(foci, (i + 1) as nat, foci.len());
    if let JsonView::Object(members) = tree {
        lemma_slot_present(members, "foci_preferred"@);
        let k = choose|k: int| 0 <= k < members.len() && (#[trigger] members[k]).0 == "foci_preferred"@;
        lemma_session_keys();
        reveal_strlit("leave_reason");
        assert("leave_reason"@.len() == 12);
        assert(members[k].0 != "leave_reason"@);
    }
}

/// A membership that is connected through a focus of an unknown type is an
/// error as well.
pub proof fn law_unknown_active_focus_is_an_error(tree: JsonView, active: JsonView, kind: Seq<char>)
    requires
        record_slot(tree, 5, "focus_active"@) == SlotView::Value(active),
        text_field(record_slot(active, 0, "type"@)) == Some(kind),
        kind != MESH_FOCUS_TYPE@,
        kind != LIVEKIT_FOCUS_TYPE@,
    ensures
        read_content(tree) is None,
{
    assert(read_active(active) is None);
    if let JsonView::Object(members) = tree {
        lemma_slot_present(members, "focus_active"@);
        let k = choose|k: int| 0 <= k < members.len() && (#[trigger] members[k]).0 == "focus_active"@;
        reveal_strlit("focus_active");
        reveal_strlit("leave_reason");
        assert("focus_active"@[0] != "leave_reason"@[0]);
        assert(members[k].0 != "leave_reason"@);
    }
}

/// Who joins can be dialled: the content that joins a call offers exactly the
/// node that joined, until it expires.
pub proof fn law_joined_member_can_be_dialled(
    key: NodeKey,
    device_id: Seq<char>,
    opus: OpusParams,
    expires: Option<u64>,
    state_key: Seq<char>,
    origin_ts: u64,
    now_ms: u64,
)
    ensures
        first_mesh(joined(key@, device_id, opus, expires).foci_preferred) == Some(focus_of(key@, opus)),
        text_key(focus_of(key@, opus).node_id) == Some(key@),
        member_of(state_key, origin_ts, ContentView::Session(joined(key@, device_id, opus, expires)), now_ms) == (if expired(
            joined(key@, device_id, opus, expires),
            origin_ts,
            now_ms,
        ) {
            None
        } else {
            Some(MemberView { state_key, node_id: key@, opus, device_id })
        }),
{
    law_hex_round_trip(key);
}

/// A membership that is stale stays stale, and one without `expires` never is.
pub proof fn law_expiry_is_permanent(session: SessionView, origin_ts: u64, now_ms: u64, later_ms: u64)
    requires
        now_ms <= later_ms,
    ensures
        expired(session, origin_ts, now_ms) ==> expired(session, origin_ts, later_ms),
        session.expires is None ==> !expired(session, origin_ts, later_ms),
{
}

/// A membership is stale from the instant that lies `expires` after the join
/// on, and not before it, however long it lasts. It was joined at the earlier
/// of the timestamp that it carries and that of its event.
pub proof fn law_expiry_instant(session: SessionView, origin_ts: u64, joined_ts: u64, expires: u64, now_ms: u64)
    requires
        session.expires == Some(expires),
        joined_ts <= origin_ts,
        session.created_ts is None ==> joined_ts == origin_ts,
        session.created_ts matches Some(created) ==> joined_ts <= created && (joined_ts == created || joined_ts == origin_ts),
    ensures
        joined_ts + expires <= u64::MAX ==> (expired(session, origin_ts, now_ms) <==> now_ms >= joined_ts + expires),
        joined_ts + expires > u64::MAX ==> (expired(session, origin_ts, now_ms) <==> now_ms == u64::MAX),
{
}

/// An update does not extend a membership's life: it carries the timestamp of
/// the initial join, and its own later one does not count.
pub proof fn law_update_does_not_extend_life(initial: SessionView, update: SessionView, joined_ts: u64, update_ts: u64, now_ms: u64)
    requires
        initial.created_ts is None,
        update.created_ts == Some(joined_ts),
        update.expires == initial.expires,
        joined_ts <= update_ts,
    ensures
        expired(update, update_ts, now_ms) == expired(initial, joined_ts, now_ms),
{
}

/// The mesh focus of a member is the first of its foci that is one.
pub proof fn law_first_mesh_focus(foci: Seq<FocusView>, focus: MeshFocusView)
    ensures
        first_mesh(foci) == Some(focus) <==> exists|i: int| is_first_mesh(foci, i, focus),
        first_mesh(foci) is None <==> forall|i: int| 0 <= i < foci.len() ==> (#[trigger] foci[i]) is Livekit,
    decreases foci.len(),
{
    if foci.len() > 0 {
        let rest = foci.drop_first();
        assert forall|i: int| 0 <= i < rest.len() implies #[trigger] rest[i] == foci[i + 1] by {}
        assert forall|i: int| 0 < i < foci.len() implies #[trigger] foci[i] == rest[i - 1] by {}
        match foci[0] {
            FocusView::MeshIroh(first) => {
                if first == focus {
                    assert(is_first_mesh(foci, 0, focus));
                }
                if exists|i: int| is_first_mesh(foci, i, focus) {
                    let i = choose|i: int| is_first_mesh(foci, i, focus);
                    assert(i == 0);
                }
            },
            FocusView::Livekit { .. } => {
                law_first_mesh_focus(rest, focus);
                if exists|i: int| is_first_mesh(foci, i, focus) {
                    let i = choose|i: int| is_first_mesh(foci, i, focus);
                    assert(is_first_mesh(rest, i - 1, focus));
                }
                if exists|i: int| is_first_mesh(rest, i, focus) {
                    let i = choose|i: int| is_first_mesh(rest, i, focus);
                    assert forall|j: int| 0 <= j < i + 1 implies (#[trigger] foci[j]) is Livekit by {
                        if j > 0 {
                            assert(rest[j - 1] is Livekit);
                        }
                    }
                    assert(is_first_mesh(foci, i + 1, focus));
                }
            },
        }
    }
}

/// Whether the mesh focus `focus` stands at `i`, and none before it.
pub open spec fn is_first_mesh(foci: Seq<FocusView>, i: int, focus: MeshFocusView) -> bool {
    &&& 0 <= i < foci.len()
    &&& foci[i] == FocusView::MeshIroh(focus)
    &&& forall|j: int| 0 <= j < i ==> (#[trigger] foci[j]) is Livekit
}

/// An entry stands for a member exactly where its content is a session of the
/// call application that is not stale and whose first mesh focus names a node.
/// Nothing else of the session matters. The member is that node, with the
/// parameters of that focus, the device of the session and the key of the
/// entry.
pub proof fn law_entry_stands_for_its_member(
    state_key: Seq<char>,
    origin_ts: u64,
    content: ContentView,
    now_ms: u64,
    member: MemberView,
)
    ensures
        member_of(state_key, origin_ts, content, now_ms) == Some(member) <==> {
            &&& content matches ContentView::Session(session)
            &&& session.application == "m.call"@
            &&& session.expires matches Some(expires) ==> now_ms != u64::MAX && now_ms < origin_ts + expires && (
            session.created_ts matches Some(created) ==> now_ms < created + expires)
            &&& member.state_key == state_key
            &&& member.device_id == session.device_id
            &&& member.node_id.len() == 32
            &&& exists|i: int, focus: MeshFocusView|
                is_first_mesh(session.foci_preferred, i, focus) && focus.node_id == hex_text(member.node_id) && focus.media.opus
                    == member.opus
        },
{
    if let ContentView::Session(session) = content {
        let foci = session.foci_preferred;
        law_first_mesh_focus(foci, first_mesh(foci)->0);
        if let Some(focus) = first_mesh(foci) {
            law_hex_is_canonical(focus.node_id, Seq::empty());
            let i = choose|i: int| is_first_mesh(foci, i, focus);
            assert(is_first_mesh(foci, i, focus));
        }
        if exists|i: int, focus: MeshFocusView|
            is_first_mesh(foci, i, focus) && focus.node_id == hex_text(member.node_id) && focus.media.opus == member.opus {
            let (i, focus) = choose|i: int, focus: MeshFocusView|
                is_first_mesh(foci, i, focus) && focus.node_id == hex_text(member.node_id) && focus.media.opus == member.opus;
            law_first_mesh_focus(foci, focus);
            if member.node_id.len() == 32 {
                lemma_text_key_of(member.node_id);
            }
        }
    }
}

/// The rendering of 32 bytes is read as those bytes.
proof fn lemma_text_key_of(bytes: Seq<u8>)
    requires
        bytes.len() == 32,
    ensures
        text_key(hex_text(bytes)) == Some(bytes),
{
    let text = hex_text(bytes);
    assert forall|i: int| 0 <= i < 64 implies is_hex_digit(#[trigger] text[i]) && hex_value(text[i]) == hex_nibble(bytes, i) by {
        assert(0 <= hex_nibble(bytes, i) < 16);
    }
    assert forall|i: int| 0 <= i < 32 implies text_key(text)->0[i] == #[trigger] bytes[i] by {
        assert(is_hex_digit(text[2 * i]));
        assert(is_hex_digit(text[2 * i + 1]));
        assert((2 * i) % 2 == 0 && (2 * i) / 2 == i);
        assert((2 * i + 1) % 2 == 1 && (2 * i + 1) / 2 == i);
    }
    assert(text_key(text)->0 =~= bytes);
}

/// One entry is listed as the member that it stands for, or not at all, and an
/// empty state lists nobody.
pub proof fn law_listing_of_one(entry: (Seq<char>, u64, ContentView), now_ms: u64)
    ensures
        live_members(Seq::empty(), now_ms) == Seq::<MemberView>::empty(),
        live_members(seq![entry], now_ms) == (match member_of(entry.0, entry.1, entry.2, now_ms) {
            Some(member) => seq![member],
            None => Seq::empty(),
        }),
{
    assert(seq![entry].drop_last() =~= Seq::empty());
    reveal_with_fuel(live_members, 2);
    assert(live_members(seq![entry], now_ms) =~= (match member_of(entry.0, entry.1, entry.2, now_ms) {
        Some(member) => seq![member],
        None => Seq::empty(),
    }));
}

/// Joining says so: a session of the room's call, from the device, with the
/// node that joins as its one focus, and with nothing of an earlier join.
pub proof fn law_joining_says_so(key: Seq<u8>, device_id: Seq<char>, opus: OpusParams, expires: Option<u64>)
    ensures
        joined(key, device_id, opus, expires).application == "m.call"@,
        joined(key, device_id, opus, expires).call_id.len() == 0,
        joined(key, device_id, opus, expires).scope == Some("m.room"@),
        joined(key, device_id, opus, expires).device_id == device_id,
        joined(key, device_id, opus, expires).foci_preferred.len() == 1,
        joined(key, device_id, opus, expires).foci_preferred[0] matches FocusView::MeshIroh(focus) && focus.node_id == hex_text(key)
            && focus.media.audio == "opus"@ && focus.media.opus == opus,
        joined(key, device_id, opus, expires).focus_active == ActiveFocusView::MeshIroh,
        joined(key, device_id, opus, expires).created_ts is None,
        joined(key, device_id, opus, expires).expires == expires,
{
    reveal_strlit("");
    assert(ROOM_CALL_ID@.len() == 0);
}

/// What the wire is named by, and the parameters of a voice call.
pub proof fn law_wire_names()
    ensures
        CALL_MEMBER_EVENT_TYPE@ == "org.matrix.msc3401.call.member"@,
        MESH_FOCUS_TYPE@ == "in.indiafoss.mesh.iroh"@,
        LIVEKIT_FOCUS_TYPE@ == "livekit"@,
        APPLICATION_CALL@ == "m.call"@,
        SCOPE_ROOM@ == "m.room"@,
        AUDIO_OPUS@ == "opus"@,
        default_opus().bitrate == 24_000,
        default_opus().sample_rate == 48_000,
        default_opus().frame_ms == 20,
        default_opus().channels == 1,
{
}

/// The view of a session and what it holds is made of its fields.
pub proof fn law_session_view(session: SessionMembership, i: int)
    ensures
        session@.application == session.application@,
        session@.call_id == session.call_id@,
        session.scope matches Some(scope) ==> session@.scope == Some(scope@),
        session.scope is None ==> session@.scope is None,
        session@.device_id == session.device_id@,
        session@.foci_preferred.len() == session.foci_preferred@.len(),
        0 <= i < session.foci_preferred@.len() ==> session@.foci_preferred[i] == session.foci_preferred@[i]@,
        session@.focus_active == session.focus_active@,
        session@.created_ts == session.created_ts,
        session@.expires == session.expires,
{
}

/// The views of a focus and of what is in it are made of their fields.
pub proof fn law_focus_views(mesh: MeshFocus, livekit_alias: String, livekit_service_url: String, focus_selection: String)
    ensures
        Focus::MeshIroh(mesh)@ == FocusView::MeshIroh(mesh@),
        mesh@.node_id == mesh.node_id@,
        mesh@.media.audio == mesh.media.audio@,
        mesh@.media.opus == mesh.media.opus,
        mesh.media@ == mesh@.media,
        (Focus::Livekit { livekit_alias, livekit_service_url })@ == (FocusView::Livekit {
            livekit_alias: livekit_alias@,
            livekit_service_url: livekit_service_url@,
        }),
        ActiveFocus::MeshIroh@ == ActiveFocusView::MeshIroh,
        (ActiveFocus::Livekit { focus_selection })@ == (ActiveFocusView::Livekit { focus_selection: focus_selection@ }),
{
}

/// The views of a content, of a member who left and of one who can be dialled
/// are made of their fields.
pub proof fn law_content_views(session: SessionMembership, left: LeftMembership, member: MeshMember)
    ensures
        CallMemberContent::Session(session)@ == ContentView::Session(session@),
        CallMemberContent::Left(left)@ == ContentView::Left(left@),
        left.leave_reason matches Some(reason) ==> left@.leave_reason == Some(reason@),
        left.leave_reason is None ==> left@.leave_reason is None,
        member@.state_key == member.state_key@,
        member@.node_id == member.node_id@,
        member@.opus == member.opus,
        member@.device_id == member.device_id@,
{
}

/// A room's call state is viewed entry by entry, and so is a list of members.
pub proof fn law_state_views(state: Seq<(&str, u64, &CallMemberContent)>, members: Seq<MeshMember>, i: int)
    ensures
        state_view(state).len() == state.len(),
        0 <= i < state.len() ==> state_view(state)[i] == (state[i].0@, state[i].1, state[i].2@),
        member_views(members).len() == members.len(),
        0 <= i < members.len() ==> member_views(members)[i] == members[i]@,
{
}

/// The state key is an underscore, the user, an underscore, the device, and
/// the application after another one.
pub proof fn law_state_key_shape(user: Seq<char>, device: Seq<char>)
    ensures
        state_key_text(user, device) == seq!['_'] + user + seq!['_'] + device + "_m.call"@,
{
    reveal_strlit("_");
    reveal_strlit("m.call");
    reveal_strlit("_m.call");
    assert(state_key_text(user, device) =~= seq!['_'] + user + seq!['_'] + device + "_m.call"@);
}

/// A node is listed exactly where some entry of the state stands for it.
pub proof fn law_members_are_the_live_entries(state: Seq<(Seq<char>, u64, ContentView)>, now_ms: u64, member: MemberView)
    ensures
        live_members(state, now_ms).contains(member) <==> exists|i: int|
            0 <= i < state.len() && member_of((#[trigger] state[i]).0, state[i].1, state[i].2, now_ms) == Some(member),
    decreases state.len(),
{
    if state.len() > 0 {
        let rest = state.drop_last();
        let last = state.len() - 1;
        law_members_are_the_live_entries(rest, now_ms, member);
        let before = live_members(rest, now_ms);
        let all = live_members(state, now_ms);
        assert forall|i: int| 0 <= i < rest.len() implies #[trigger] rest[i] == state[i] by {}
        if all.contains(member) {
            if before.contains(member) {
                let i = choose|i: int|
                    0 <= i < rest.len() && member_of((#[trigger] rest[i]).0, rest[i].1, rest[i].2, now_ms) == Some(member);
                assert(state[i] == rest[i]);
            } else {
                let k = choose|k: int| 0 <= k < all.len() && all[k] == member;
                if k < before.len() {
                    assert(before[k] == member);
                }
                assert(member_of(state[last].0, state[last].1, state[last].2, now_ms) == Some(member));
            }
        }
        if exists|i: int| 0 <= i < state.len() && member_of((#[trigger] state[i]).0, state[i].1, state[i].2, now_ms) == Some(member) {
            let i = choose|i: int|
                0 <= i < state.len() && member_of((#[trigger] state[i]).0, state[i].1, state[i].2, now_ms) == Some(member);
            if i < rest.len() {
                assert(rest[i] == state[i]);
                let k = choose|k: int| 0 <= k < before.len() && before[k] == member;
                assert(all[k] == member);
            } else {
                assert(all == before.push(member));
                assert(all[before.len() as int] == member);
            }
        }
    }
}

/// Time alone only takes members away: who is listed later was listed before.
pub proof fn law_time_only_removes_members(state: Seq<(Seq<char>, u64, ContentView)>, now_ms: u64, later_ms: u64, member: MemberView)
    requires
        now_ms <= later_ms,
        live_members(state, later_ms).contains(member),
    ensures
        live_members(state, now_ms).contains(member),
{
    law_members_are_the_live_entries(state, later_ms, member);
    law_members_are_the_live_entries(state, now_ms, member);
    let i = choose|i: int| 0 <= i < state.len() && member_of((#[trigger] state[i]).0, state[i].1, state[i].2, later_ms) == Some(member);
    assert(member_of(state[i].0, state[i].1, state[i].2, now_ms) == Some(member));
}

/// The listing keeps the order of the state: it can be read piece by piece.
pub proof fn law_listing_keeps_order(
    first: Seq<(Seq<char>, u64, ContentView)>,
    second: Seq<(Seq<char>, u64, ContentView)>,
    now_ms: u64,
)
    ensures
        live_members(first + second, now_ms) == live_members(first, now_ms) + live_members(second, now_ms),
    decreases second.len(),
{
    if second.len() == 0 {
        assert(first + second =~= first);
        assert(live_members(first, now_ms) + Seq::empty() =~= live_members(first, now_ms));
    } else {
        law_listing_keeps_order(first, second.drop_last(), now_ms);
        assert((first + second).drop_last() =~= first + second.drop_last());
        assert(live_members(first + second, now_ms) =~= live_members(first, now_ms) + live_members(second, now_ms));
    }
}

/// The state key is per device: two devices of a user never share one, nor do
/// two users with devices of one name.
pub proof fn law_state_key_is_per_device(user: Seq<char>, other_user: Seq<char>, device: Seq<char>, other_device: Seq<char>)
    ensures
        state_key_text(user, device) == state_key_text(user, other_device) ==> device == other_device,
        state_key_text(user, device) == state_key_text(other_user, device) ==> user == other_user,
{
    lemma_state_key_parts(user, device);
    lemma_state_key_parts(user, other_device);
    lemma_state_key_parts(other_user, device);
    if state_key_text(user, device) == state_key_text(user, other_device) {
        lemma_same_split(user, device, user, other_device);
    }
    if state_key_text(user, device) == state_key_text(other_user, device) {
        lemma_same_split(user, device, other_user, device);
    }
}

/// The state key identifies user and device together, where device ids hold no
/// underscore.
pub proof fn law_state_key_identifies_user_and_device(
    user: Seq<char>,
    other_user: Seq<char>,
    device: Seq<char>,
    other_device: Seq<char>,
)
    requires
        !device.contains('_'),
        !other_device.contains('_'),
        state_key_text(user, device) == state_key_text(other_user, other_device),
    ensures
        user == other_user,
        device == other_device,
{
    lemma_state_key_parts(user, device);
    lemma_state_key_parts(other_user, other_device);
    let key = state_key_text(user, device);
    if user.len() > other_user.len() {
        let i = user.len() - other_user.len() - 1;
        assert(key[2 + other_user.len() + i] == other_device[i]);
        assert(other_device[i] == '_');
    } else if user.len() < other_user.len() {
        let i = other_user.len() - user.len() - 1;
        assert(key[2 + user.len() + i] == device[i]);
        assert(device[i] == '_');
    }
    lemma_same_split(user, device, other_user, other_device);
}

/// Where the parts of a state key stand in it.
proof fn lemma_state_key_parts(user: Seq<char>, device: Seq<char>)
    ensures
        state_key_text(user, device).len() == user.len() + device.len() + 9,
        state_key_text(user, device)[0] == '_',
        state_key_text(user, device)[1 + user.len() as int] == '_',
        forall|i: int| 0 <= i < user.len() ==> state_key_text(user, device)[1 + i] == #[trigger] user[i],
        forall|i: int| 0 <= i < device.len() ==> state_key_text(user, device)[2 + user.len() + i] == #[trigger] device[i],
{
    reveal_strlit("_");
    reveal_strlit("m.call");
    assert("_"@.len() == 1);
    assert("_"@[0] == '_');
    assert(APPLICATION_CALL@.len() == 6);
}

/// Two state keys that are the same have the same parts, where one part is as
/// long in the one as in the other.
proof fn lemma_same_split(user: Seq<char>, device: Seq<char>, other_user: Seq<char>, other_device: Seq<char>)
    requires
        state_key_text(user, device) == state_key_text(other_user, other_device),
        user.len() == other_user.len() || device.len() == other_device.len(),
    ensures
        user == other_user,
        device == other_device,
{
    lemma_state_key_parts(user, device);
    lemma_state_key_parts(other_user, other_device);
    let key = state_key_text(user, device);
    assert forall|i: int| 0 <= i < user.len() implies user[i] == #[trigger] other_user[i] by {
        assert(key[1 + i] == user[i]);
    }
    assert(user =~= other_user);
    assert forall|i: int| 0 <= i < device.len() implies device[i] == #[trigger] other_device[i] by {
        assert(key[2 + user.len() + i] == device[i]);
    }
    assert(device =~= other_device);
}

} // verus!
