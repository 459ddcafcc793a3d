//! The wire shape of a call membership: which JSON tree writes a content, and
//! which content a JSON tree is read as.

use vstd::prelude::*;

use crate::call_member::{
    default_channels, default_frame_ms, default_opus, default_sample_rate, foci_view, ActiveFocus, ActiveFocusView,
    CallMemberContent, ContentView, Focus, FocusView, LeftMembership, LeftView, MeshFocus, MeshFocusView, MeshMedia,
    MeshMediaView, OpusParams, SessionMembership, SessionView, LIVEKIT_FOCUS_TYPE, MESH_FOCUS_TYPE,
};
use crate::json::{
    is_record, json_text, members_view, number_field, number_field_or, optional_number_field,
    opt_tree, optional_text_field, put, record_slot, slot, text_field, written, Json, JsonView, Slot, SlotView,
};
use crate::text::{opt_text, same_text};

verus! {

/// The tree of an optional string that is left out where there is none.
pub open spec fn opt_text_tree(text: Option<Seq<char>>) -> Option<JsonView> {
    match text {
        Some(s) => Some(JsonView::Text(s)),
        None => None,
    }
}

/// The tree of an optional number that is left out where there is none.
pub open spec fn opt_number_tree(number: Option<u64>) -> Option<JsonView> {
    match number {
        Some(n) => Some(JsonView::Number(n)),
        None => None,
    }
}

/// The `media` object: the opus parameters stand next to the codec name.
pub open spec fn media_tree(media: MeshMediaView) -> JsonView {
    JsonView::Object(
        written(
            seq![
                ("audio"@, Some(JsonView::Text(media.audio))),
                ("bitrate"@, Some(JsonView::Number(media.opus.bitrate as u64))),
                ("sample_rate"@, Some(JsonView::Number(media.opus.sample_rate as u64))),
                ("frame_ms"@, Some(JsonView::Number(media.opus.frame_ms as u64))),
                ("channels"@, Some(JsonView::Number(media.opus.channels as u64))),
            ],
        ),
    )
}

/// One entry of `foci_preferred`: its `type` first.
pub open spec fn focus_tree(focus: FocusView) -> JsonView {
    match focus {
        FocusView::MeshIroh(mesh) => JsonView::Object(
            written(
                seq![
                    ("type"@, Some(JsonView::Text(MESH_FOCUS_TYPE@))),
                    ("node_id"@, Some(JsonView::Text(mesh.node_id))),
                    ("media"@, Some(media_tree(mesh.media))),
                ],
            ),
        ),
        FocusView::Livekit { livekit_alias, livekit_service_url } => JsonView::Object(
            written(
                seq![
                    ("type"@, Some(JsonView::Text(LIVEKIT_FOCUS_TYPE@))),
                    ("livekit_alias"@, Some(JsonView::Text(livekit_alias))),
                    ("livekit_service_url"@, Some(JsonView::Text(livekit_service_url))),
                ],
            ),
        ),
    }
}

/// The `focus_active` object.
pub open spec fn active_tree(active: ActiveFocusView) -> JsonView {
    match active {
        ActiveFocusView::MeshIroh => JsonView::Object(
            written(seq![("type"@, Some(JsonView::Text(MESH_FOCUS_TYPE@)))]),
        ),
        ActiveFocusView::Livekit { focus_selection } => JsonView::Object(
            written(
                seq![
                    ("type"@, Some(JsonView::Text(LIVEKIT_FOCUS_TYPE@))),
                    ("focus_selection"@, Some(JsonView::Text(focus_selection))),
                ],
            ),
        ),
    }
}

/// The fields of a joined session, in the order in which they are written.
pub open spec fn session_fields(session: SessionView) -> Seq<(Seq<char>, Option<JsonView>)> {
    seq![
        ("application"@, Some(JsonView::Text(session.application))),
        ("call_id"@, Some(JsonView::Text(session.call_id))),
        ("scope"@, opt_text_tree(session.scope)),
        ("device_id"@, Some(JsonView::Text(session.device_id))),
        ("foci_preferred"@, Some(
            JsonView::List(Seq::new(session.foci_preferred.len(), |i: int| focus_tree(session.foci_preferred[i]))),
        )),
        ("focus_active"@, Some(active_tree(session.focus_active))),
        ("created_ts"@, opt_number_tree(session.created_ts)),
        ("expires"@, opt_number_tree(session.expires)),
    ]
}

/// The tree that writes a content.
pub open spec fn content_tree(content: ContentView) -> JsonView {
    match content {
        ContentView::Session(session) => JsonView::Object(written(session_fields(session))),
        ContentView::Left(left) => JsonView::Object(
            written(seq![("leave_reason"@, opt_text_tree(left.leave_reason))]),
        ),
    }
}

/// Read the `media` object. Only an object will do; what it does not name of
/// the opus parameters is as by default, except the bitrate, which it has to
/// name. Other members are passed over.
pub open spec fn read_media(tree: JsonView) -> Option<MeshMediaView> {
    match tree {
        JsonView::Object(members) => match (
            text_field(slot(members, "audio"@)),
            number_field(slot(members, "bitrate"@), u32::MAX as u64),
            number_field_or(slot(members, "sample_rate"@), u32::MAX as u64, default_opus().sample_rate as u64),
            number_field_or(slot(members, "frame_ms"@), u32::MAX as u64, default_opus().frame_ms as u64),
            number_field_or(slot(members, "channels"@), u8::MAX as u64, default_opus().channels as u64),
        ) {
            (Some(audio), Some(bitrate), Some(sample_rate), Some(frame_ms), Some(channels)) => Some(
                MeshMediaView {
                    audio,
                    opus: OpusParams {
                        bitrate: bitrate as u32,
                        sample_rate: sample_rate as u32,
                        frame_ms: frame_ms as u32,
                        channels: channels as u8,
                    },
                },
            ),
            _ => None,
        },
        _ => None,
    }
}

/// Read a mesh or LiveKit focus. Any other `type` is no focus.
pub open spec fn read_focus(tree: JsonView) -> Option<FocusView> {
    match text_field(record_slot(tree, 0, "type"@)) {
        None => None,
        Some(kind) => if !is_record(tree, 3) {
            None
        } else if kind == MESH_FOCUS_TYPE@ {
            match (text_field(record_slot(tree, 1, "node_id"@)), record_slot(tree, 2, "media"@)) {
                (Some(node_id), SlotView::Value(value)) => match read_media(value) {
                    Some(media) => Some(FocusView::MeshIroh(MeshFocusView { node_id, media })),
                    None => None,
                },
                _ => None,
            }
        } else if kind == LIVEKIT_FOCUS_TYPE@ {
            match (
                text_field(record_slot(tree, 1, "livekit_alias"@)),
                text_field(record_slot(tree, 2, "livekit_service_url"@)),
            ) {
                (Some(livekit_alias), Some(livekit_service_url)) => Some(
                    FocusView::Livekit { livekit_alias, livekit_service_url },
                ),
                _ => None,
            }
        } else {
            None
        },
    }
}

/// Read the first `n` foci of a list, if every one of them is a focus.
pub open spec fn read_foci(items: Seq<JsonView>, n: nat) -> Option<Seq<FocusView>>
    decreases n,
{
    if n == 0 || n > items.len() {
        Some(Seq::empty())
    } else {
        match (read_foci(items, (n - 1) as nat), read_focus(items[n - 1])) {
            (Some(before), Some(focus)) => Some(before.push(focus)),
            _ => None,
        }
    }
}

/// Read `foci_preferred`: an array, or nothing where it is absent.
pub open spec fn read_foci_field(slot: SlotView) -> Option<Seq<FocusView>> {
    match slot {
        SlotView::Absent => Some(Seq::empty()),
        SlotView::Value(JsonView::List(items)) => read_foci(items, items.len()),
        _ => None,
    }
}

/// Read `focus_active`.
pub open spec fn read_active(tree: JsonView) -> Option<ActiveFocusView> {
    match text_field(record_slot(tree, 0, "type"@)) {
        None => None,
        Some(kind) => if kind == MESH_FOCUS_TYPE@ && is_record(tree, 1) {
            Some(ActiveFocusView::MeshIroh)
        } else if kind == LIVEKIT_FOCUS_TYPE@ && is_record(tree, 2) {
            match text_field(record_slot(tree, 1, "focus_selection"@)) {
                Some(focus_selection) => Some(ActiveFocusView::Livekit { focus_selection }),
                None => None,
            }
        } else {
            None
        },
    }
}

/// Read a joined session: an object by name, or an array by position. Members
/// of an object that are no field of a session are passed over; a field that
/// is written twice is an error.
pub open spec fn read_session(tree: JsonView) -> Option<SessionView> {
    if !is_record(tree, 8) {
        None
    } else {
        match (
            text_field(record_slot(tree, 0, "application"@)),
            text_field(record_slot(tree, 1, "call_id"@)),
            optional_text_field(record_slot(tree, 2, "scope"@)),
            text_field(record_slot(tree, 3, "device_id"@)),
            read_foci_field(record_slot(tree, 4, "foci_preferred"@)),
            record_slot(tree, 5, "focus_active"@),
            optional_number_field(record_slot(tree, 6, "created_ts"@)),
            optional_number_field(record_slot(tree, 7, "expires"@)),
        ) {
            (
                Some(application),
                Some(call_id),
                Some(scope),
                Some(device_id),
                Some(foci_preferred),
                SlotView::Value(active),
                Some(created_ts),
                Some(expires),
            ) => match read_active(active) {
                Some(focus_active) => Some(
                    SessionView {
                        application,
                        call_id,
                        scope,
                        device_id,
                        foci_preferred,
                        focus_active,
                        created_ts,
                        expires,
                    },
                ),
                None => None,
            },
            _ => None,
        }
    }
}

/// Read the content of a member who left: an object with no member but
/// `leave_reason`.
pub open spec fn read_left(tree: JsonView) -> Option<LeftView> {
    match tree {
        JsonView::Object(members) => if forall|i: int| 0 <= i < members.len() ==> (#[trigger] members[i]).0 == "leave_reason"@ {
            match optional_text_field(slot(members, "leave_reason"@)) {
                Some(leave_reason) => Some(LeftView { leave_reason }),
                None => None,
            }
        } else {
            None
        },
        _ => None,
    }
}

/// Read a content: a session, or else that of a member who left.
pub open spec fn read_content(tree: JsonView) -> Option<ContentView> {
    match read_session(tree) {
        Some(session) => Some(ContentView::Session(session)),
        None => match read_left(tree) {
            Some(left) => Some(ContentView::Left(left)),
            None => None,
        },
    }
}

/// The tree of an optional string.
fn write_opt_text(text: &Option<String>) -> (r: Option<Json>)
    ensures
        opt_tree(r) == opt_text_tree(opt_text(*text)),
{
    match text {
        Some(s) => Some(Json::Text(s.clone())),
        None => None,
    }
}

/// The tree of an optional number.
fn write_opt_number(number: Option<u64>) -> (r: Option<Json>)
    ensures
        opt_tree(r) == opt_number_tree(number),
{
    match number {
        Some(n) => Some(Json::Number(n)),
        None => None,
    }
}

/// The tree of the `media` object.
fn write_media(media: &MeshMedia) -> (r: Json)
    ensures
        r@ == media_tree(media@),
{
    let mut members: Vec<(String, Json)> = Vec::new();
    proof {
        reveal_with_fuel(written, 6);
        assert(members_view(members@) =~= Seq::empty());
    }
    put(&mut members, "audio", Some(Json::Text(media.audio.clone())));
    put(&mut members, "bitrate", Some(Json::Number(media.opus.bitrate as u64)));
    put(&mut members, "sample_rate", Some(Json::Number(media.opus.sample_rate as u64)));
    put(&mut members, "frame_ms", Some(Json::Number(media.opus.frame_ms as u64)));
    put(&mut members, "channels", Some(Json::Number(media.opus.channels as u64)));
    let r = Json::Object(members);
    assert(r@->Object_0 =~= members_view(members@));
    r
}

/// The tree of one focus.
fn write_focus(focus: &Focus) -> (r: Json)
    ensures
        r@ == focus_tree(focus@),
{
    let mut members: Vec<(String, Json)> = Vec::new();
    proof {
        reveal_with_fuel(written, 4);
        assert(members_view(members@) =~= Seq::empty());
    }
    match focus {
        Focus::MeshIroh(mesh) => {
            put(&mut members, "type", Some(Json::Text(MESH_FOCUS_TYPE.to_string())));
            put(&mut members, "node_id", Some(Json::Text(mesh.node_id.clone())));
            put(&mut members, "media", Some(write_media(&mesh.media)));
        },
        Focus::Livekit { livekit_alias, livekit_service_url } => {
            put(&mut members, "type", Some(Json::Text(LIVEKIT_FOCUS_TYPE.to_string())));
            put(&mut members, "livekit_alias", Some(Json::Text(livekit_alias.clone())));
            put(&mut members, "livekit_service_url", Some(Json::Text(livekit_service_url.clone())));
        },
    }
    let r = Json::Object(members);
    assert(r@->Object_0 =~= members_view(members@));
    r
}

/// The tree of the focus in use.
fn write_active(active: &ActiveFocus) -> (r: Json)
    ensures
        r@ == active_tree(active@),
{
    let mut members: Vec<(String, Json)> = Vec::new();
    proof {
        reveal_with_fuel(written, 3);
        assert(members_view(members@) =~= Seq::empty());
    }
    match active {
        ActiveFocus::MeshIroh => {
            put(&mut members, "type", Some(Json::Text(MESH_FOCUS_TYPE.to_string())));
        },
        ActiveFocus::Livekit { focus_selection } => {
            put(&mut members, "type", Some(Json::Text(LIVEKIT_FOCUS_TYPE.to_string())));
            put(&mut members, "focus_selection", Some(Json::Text(focus_selection.clone())));
        },
    }
    let r = Json::Object(members);
    assert(r@->Object_0 =~= members_view(members@));
    r
}

/// The tree of a list of foci.
fn write_foci(foci: &Vec<Focus>) -> (r: Json)
    ensures
        r@ == JsonView::List(Seq::new(foci@.len(), |i: int| focus_tree(foci@[i]@))),
{
    let mut items: Vec<Json> = Vec::new();
    let mut i: usize = 0;
    while i < foci.len()
        invariant
            i <= foci.len(),
            items@.len() == i,
            forall|j: int| 0 <= j < i ==> (#[trigger] items@[j])@ == focus_tree(foci@[j]@),
        decreases foci.len() - i,
    {
        items.push(write_focus(&foci[i]));
        i += 1;
    }
    let r = Json::List(items);
    assert(r@->List_0 =~= Seq::new(foci@.len(), |i: int| focus_tree(foci@[i]@)));
    r
}

/// The tree of a joined session.
fn write_session(session: &SessionMembership) -> (r: Json)
    ensures
        r@ == content_tree(ContentView::Session(session@)),
{
    let mut members: Vec<(String, Json)> = Vec::new();
    proof {
        reveal_with_fuel(written, 9);
        assert(members_view(members@) =~= Seq::empty());
    }
    put(&mut members, "application", Some(Json::Text(session.application.clone())));
    put(&mut members, "call_id", Some(Json::Text(session.call_id.clone())));
    put(&mut members, "scope", write_opt_text(&session.scope));
    put(&mut members, "device_id", Some(Json::Text(session.device_id.clone())));
    let foci = write_foci(&session.foci_preferred);
    assert(foci@->List_0 =~= Seq::new(
        session@.foci_preferred.len(),
        |i: int| focus_tree(session@.foci_preferred[i]),
    ));
    put(&mut members, "foci_preferred", Some(foci));
    put(&mut members, "focus_active", Some(write_active(&session.focus_active)));
    put(&mut members, "created_ts", write_opt_number(session.created_ts));
    put(&mut members, "expires", write_opt_number(session.expires));
    let r = Json::Object(members);
    assert(r@->Object_0 =~= members_view(members@));
    r
}

/// The tree of the content of a member who left.
fn write_left(left: &LeftMembership) -> (r: Json)
    ensures
        r@ == content_tree(ContentView::Left(left@)),
{
    let mut members: Vec<(String, Json)> = Vec::new();
    proof {
        reveal_with_fuel(written, 2);
        assert(members_view(members@) =~= Seq::empty());
    }
    put(&mut members, "leave_reason", write_opt_text(&left.leave_reason));
    let r = Json::Object(members);
    assert(r@->Object_0 =~= members_view(members@));
    r
}

/// [`read_media`] on a tree.
fn parse_media(value: &Json) -> (r: Option<MeshMedia>)
    ensures
        (match r {
            Some(media) => Some(media@),
            None => None,
        }) == read_media(value@),
{
    if let Json::Object(_) = value {
    } else {
        return None;
    }
    let audio = value.field(0, "audio").text()?;
    let bitrate = value.field(0, "bitrate").number(u32::MAX as u64)?;
    let sample_rate = value.field(0, "sample_rate").number_or(u32::MAX as u64, default_sample_rate() as u64)?;
    let frame_ms = value.field(0, "frame_ms").number_or(u32::MAX as u64, default_frame_ms() as u64)?;
    let channels = value.field(0, "channels").number_or(u8::MAX as u64, default_channels() as u64)?;
    Some(
        MeshMedia {
            audio,
            opus: OpusParams {
                bitrate: bitrate as u32,
                sample_rate: sample_rate as u32,
                frame_ms: frame_ms as u32,
                channels: channels as u8,
            },
        },
    )
}

/// [`read_focus`] on a tree.
fn parse_focus(value: &Json) -> (r: Option<Focus>)
    ensures
        (match r {
            Some(focus) => Some(focus@),
            None => None,
        }) == read_focus(value@),
{
    let kind = value.field(0, "type").text()?;
    if !value.record_of(3) {
        return None;
    }
    if same_text(kind.as_str(), MESH_FOCUS_TYPE) {
        let node_id = value.field(1, "node_id").text()?;
        match value.field(2, "media") {
            Slot::Value(tree) => {
                let media = parse_media(tree)?;
                Some(Focus::MeshIroh(MeshFocus { node_id, media }))
            },
            _ => None,
        }
    } else if same_text(kind.as_str(), LIVEKIT_FOCUS_TYPE) {
        let livekit_alias = value.field(1, "livekit_alias").text()?;
        let livekit_service_url = value.field(2, "livekit_service_url").text()?;
        Some(Focus::Livekit { livekit_alias, livekit_service_url })
    } else {
        None
    }
}

/// A focus that cannot be read is not mended by those after it.
pub(crate) proof fn lemma_read_foci_stops(items: Seq<JsonView>, i: nat, n: nat)
    requires
        i <= n <= items.len(),
        read_foci(items, i) is None,
    ensures
        read_foci(items, n) is None,
    decreases n,
{
    if i < n {
        lemma_read_foci_stops(items, i, (n - 1) as nat);
    }
}

/// [`read_foci`] on a whole list.
fn parse_foci(items: &Vec<Json>, Ghost(tree): Ghost<Seq<JsonView>>) -> (r: Option<Vec<Focus>>)
    requires
        tree.len() == items@.len(),
        forall|j: int| 0 <= j < items@.len() ==> #[trigger] tree[j] == items@[j]@,
    ensures
        (match r {
            Some(foci) => Some(foci_view(foci@)),
            None => None,
        }) == read_foci(tree, tree.len()),
{
    let mut foci: Vec<Focus> = Vec::new();
    let mut i: usize = 0;
    assert(foci_view(foci@) =~= Seq::empty());
    while i < items.len()
        invariant
            i <= items.len(),
            tree.len() == items@.len(),
            forall|j: int| 0 <= j < items@.len() ==> #[trigger] tree[j] == items@[j]@,
            read_foci(tree, i as nat) == Some(foci_view(foci@)),
        decreases items.len() - i,
    {
        let ghost before = foci@;
        match parse_focus(&items[i]) {
            Some(focus) => {
                foci.push(focus);
                assert(foci_view(foci@) =~= foci_view(before).push(focus@));
            },
            None => {
                proof {
                    assert(tree[i as int] == items@[i as int]@);
                    assert(read_foci(tree, (i + 1) as nat) is None);
                    lemma_read_foci_stops(tree, (i + 1) as nat, tree.len());
                }
                return None;
            },
        }
        i += 1;
    }
    Some(foci)
}

/// [`read_foci_field`] on a slot.
fn parse_foci_field(slot: Slot<'_>) -> (r: Option<Vec<Focus>>)
    ensures
        (match r {
            Some(foci) => Some(foci_view(foci@)),
            None => None,
        }) == read_foci_field(slot@),
{
    match slot {
        Slot::Absent => {
            let foci: Vec<Focus> = Vec::new();
            assert(foci_view(foci@) =~= Seq::empty());
            Some(foci)
        },
        Slot::Value(value) => match value {
            Json::List(items) => parse_foci(items, Ghost(value@->List_0)),
            _ => None,
        },
        Slot::Repeated => None,
    }
}

/// [`read_active`] on a tree.
fn parse_active(value: &Json) -> (r: Option<ActiveFocus>)
    ensures
        (match r {
            Some(active) => Some(active@),
            None => None,
        }) == read_active(value@),
{
    let kind = value.field(0, "type").text()?;
    if same_text(kind.as_str(), MESH_FOCUS_TYPE) && value.record_of(1) {
        Some(ActiveFocus::MeshIroh)
    } else if same_text(kind.as_str(), LIVEKIT_FOCUS_TYPE) && value.record_of(2) {
        let focus_selection = value.field(1, "focus_selection").text()?;
        Some(ActiveFocus::Livekit { focus_selection })
    } else {
        None
    }
}

/// [`read_session`] on a tree.
fn parse_session(value: &Json) -> (r: Option<SessionMembership>)
    ensures
        (match r {
            Some(session) => Some(session@),
            None => None,
        }) == read_session(value@),
{
    if !value.record_of(8) {
        return None;
    }
    let application = value.field(0, "application").text()?;
    let call_id = value.field(1, "call_id").text()?;
    let scope = value.field(2, "scope").optional_text()?;
    let device_id = value.field(3, "device_id").text()?;
    let foci_preferred = parse_foci_field(value.field(4, "foci_preferred"))?;
    let focus_active = match value.field(5, "focus_active") {
        Slot::Value(tree) => parse_active(tree)?,
        _ => {
            return None;
        },
    };
    let created_ts = value.field(6, "created_ts").optional_number()?;
    let expires = value.field(7, "expires").optional_number()?;
    Some(
        SessionMembership {
            application,
            call_id,
            scope,
            device_id,
            foci_preferred,
            focus_active,
            created_ts,
            expires,
        },
    )
}

/// [`read_left`] on a tree.
fn parse_left(value: &Json) -> (r: Option<LeftMembership>)
    ensures
        (match r {
            Some(left) => Some(left@),
            None => None,
        }) == read_left(value@),
{
    match value {
        Json::Object(members) => {
            let ghost tree = value@->Object_0;
            let mut i: usize = 0;
            while i < members.len()
                invariant
                    i <= members.len(),
                    value@ == JsonView::Object(tree),
                    tree.len() == members.len(),
                    forall|j: int| 0 <= j < members.len() ==> #[trigger] tree[j] == (members[j].0@, members[j].1@),
                    forall|j: int| 0 <= j < i ==> (#[trigger] tree[j]).0 == "leave_reason"@,
                decreases members.len() - i,
            {
                if !same_text(members[i].0.as_str(), "leave_reason") {
                    assert(tree[i as int].0 != "leave_reason"@);
                    return None;
                }
                i += 1;
            }
            let leave_reason = value.field(0, "leave_reason").optional_text()?;
            Some(LeftMembership { leave_reason })
        },
        _ => None,
    }
}

impl CallMemberContent {
    /// The JSON tree that writes the content.
    pub fn to_value(&self) -> (r: Json)
        ensures
            r@ == content_tree(self@),
    {
        match self {
            CallMemberContent::Session(session) => write_session(session),
            CallMemberContent::Left(left) => write_left(left),
        }
    }

    /// Write the content as the JSON text of an event.
    pub fn to_json(&self) -> (r: String)
        ensures
            r@ == json_text(content_tree(self@)),
    {
        self.to_value().to_text()
    }

    /// Read a content from the JSON tree of an event. There is none where the
    /// tree is neither a session nor the content of a member who left.
    pub fn from_value(value: &Json) -> (r: Option<Self>)
        ensures
            (match r {
                Some(content) => Some(content@),
                None => None,
            }) == read_content(value@),
    {
        match parse_session(value) {
            Some(session) => Some(CallMemberContent::Session(session)),
            None => match parse_left(value) {
                Some(left) => Some(CallMemberContent::Left(left)),
                None => None,
            },
        }
    }
}

} // verus!
