//! What a call membership is read as, in terms of the members that its tree
//! holds: which keys decide, wherever they stand, and which do not.

use vstd::prelude::*;

use crate::call_member::{
    ActiveFocusView, ContentView, FocusView, LeftView, MeshMediaView, SessionView, LIVEKIT_FOCUS_TYPE, MESH_FOCUS_TYPE,
};
use crate::call_laws::law_wire_round_trip;
use crate::call_wire::{content_tree, read_active, read_content, read_foci, read_focus, read_left, read_media, read_session};
use crate::json::{
    is_record, number_field, number_field_or, optional_number_field, optional_text_field, record_slot, slot, text_field,
    JsonView, SlotView,
};

verus! {

/// Whether the member at `i` has `key`, and no other one.
pub open spec fn only_at(members: Seq<(Seq<char>, JsonView)>, key: Seq<char>, i: int) -> bool {
    &&& 0 <= i < members.len()
    &&& members[i].0 == key
    &&& forall|j: int| 0 <= j < members.len() && j != i ==> (#[trigger] members[j]).0 != key
}

/// Whether exactly one member has `key`, and its value is `value`.
pub open spec fn once(members: Seq<(Seq<char>, JsonView)>, key: Seq<char>, value: JsonView) -> bool {
    exists|i: int| #[trigger] only_at(members, key, i) && members[i].1 == value
}

/// Whether no member has `key`.
pub open spec fn never(members: Seq<(Seq<char>, JsonView)>, key: Seq<char>) -> bool {
    forall|i: int| 0 <= i < members.len() ==> (#[trigger] members[i]).0 != key
}

/// A key has the value of the one member that has it, wherever that stands;
/// none where no member has it; and no usable one where several have it.
pub proof fn law_key_has_its_one_value(members: Seq<(Seq<char>, JsonView)>, key: Seq<char>, value: JsonView)
    ensures
        slot(members, key) == SlotView::Absent <==> never(members, key),
        slot(members, key) == SlotView::Value(value) <==> once(members, key, value),
        slot(members, key) == SlotView::Repeated <==> exists|i: int, j: int|
            0 <= i < j < members.len() && (#[trigger] members[i]).0 == key && (#[trigger] members[j]).0 == key,
    decreases members.len(),
{
    if members.len() > 0 {
        let rest = members.drop_last();
        let last = members.len() - 1;
        law_key_has_its_one_value(rest, key, value);
        lemma_value_of_slot(rest, key);
        assert forall|i: int| 0 <= i < rest.len() implies #[trigger] rest[i] == members[i] by {}
        if members[last].0 == key {
            if never(rest, key) {
                assert forall|j: int| 0 <= j < members.len() && j != last implies (#[trigger] members[j]).0 != key by {
                    assert(rest[j].0 != key);
                }
                assert(only_at(members, key, last));
                if once(members, key, value) {
                    let i = choose|i: int| #[trigger] only_at(members, key, i) && members[i].1 == value;
                    assert(members[last].0 == key);
                    assert(i == last);
                }
                if exists|i: int, j: int|
                    0 <= i < j < members.len() && (#[trigger] members[i]).0 == key && (#[trigger] members[j]).0 == key {
                    let (i, j) = choose|i: int, j: int|
                        0 <= i < j < members.len() && (#[trigger] members[i]).0 == key && (#[trigger] members[j]).0 == key;
                    assert(rest[i].0 == key);
                }
            } else {
                let i = choose|i: int| 0 <= i < rest.len() && (#[trigger] rest[i]).0 == key;
                assert(members[i].0 == key && members[last].0 == key);
                if once(members, key, value) {
                    let k = choose|k: int| #[trigger] only_at(members, key, k) && members[k].1 == value;
                    assert(false);
                }
            }
        } else {
            if once(rest, key, value) {
                let i = choose|i: int| #[trigger] only_at(rest, key, i) && rest[i].1 == value;
                assert forall|j: int| 0 <= j < members.len() && j != i implies (#[trigger] members[j]).0 != key by {
                    if j < rest.len() {
                        assert(rest[j].0 != key);
                    }
                }
                assert(only_at(members, key, i));
            }
            if once(members, key, value) {
                let i = choose|i: int| #[trigger] only_at(members, key, i) && members[i].1 == value;
                assert forall|j: int| 0 <= j < rest.len() && j != i implies (#[trigger] rest[j]).0 != key by {
                    assert(members[j].0 != key);
                }
                assert(only_at(rest, key, i));
            }
            if slot(rest, key) == SlotView::Repeated {
                let (i, j) = choose|i: int, j: int|
                    0 <= i < j < rest.len() && (#[trigger] rest[i]).0 == key && (#[trigger] rest[j]).0 == key;
                assert(members[i].0 == key && members[j].0 == key);
            }
            if exists|i: int, j: int|
                0 <= i < j < members.len() && (#[trigger] members[i]).0 == key && (#[trigger] members[j]).0 == key {
                let (i, j) = choose|i: int, j: int|
                    0 <= i < j < members.len() && (#[trigger] members[i]).0 == key && (#[trigger] members[j]).0 == key;
                assert(rest[i].0 == key && rest[j].0 == key);
            }
            if never(rest, key) {
                assert forall|i: int| 0 <= i < members.len() implies (#[trigger] members[i]).0 != key by {
                    if i < rest.len() {
                        assert(rest[i].0 != key);
                    }
                }
            } else {
                let i = choose|i: int| 0 <= i < rest.len() && (#[trigger] rest[i]).0 == key;
                assert(members[i].0 == key);
            }
        }
    }
}

/// A key that has a value has one that some member gives it.
proof fn lemma_value_of_slot(members: Seq<(Seq<char>, JsonView)>, key: Seq<char>)
    ensures
        slot(members, key) is Value ==> !never(members, key),
        slot(members, key) == SlotView::Absent <==> never(members, key),
    decreases members.len(),
{
    if members.len() > 0 {
        let rest = members.drop_last();
        let last = members.len() - 1;
        lemma_value_of_slot(rest, key);
        assert forall|i: int| 0 <= i < rest.len() implies #[trigger] rest[i] == members[i] by {}
        if members[last].0 == key {
            assert(!never(members, key));
        } else if never(rest, key) {
            assert forall|i: int| 0 <= i < members.len() implies (#[trigger] members[i]).0 != key by {
                if i < rest.len() {
                    assert(rest[i].0 != key);
                }
            }
        } else {
            let i = choose|i: int| 0 <= i < rest.len() && (#[trigger] rest[i]).0 == key;
            assert(members[i].0 == key);
        }
    }
}

/// Whether a record gives a field the value `value`: under its key in an
/// object, at its place in an array.
pub open spec fn gives(tree: JsonView, place: int, key: Seq<char>, value: JsonView) -> bool {
    match tree {
        JsonView::Object(members) => once(members, key, value),
        JsonView::List(items) => place < items.len() && items[place] == value,
        _ => false,
    }
}

/// Whether a record leaves a field out.
pub open spec fn lacks(tree: JsonView, place: int, key: Seq<char>) -> bool {
    match tree {
        JsonView::Object(members) => never(members, key),
        JsonView::List(items) => place >= items.len(),
        _ => true,
    }
}

/// Whether a record gives an optional text: nothing and `null` mean that there
/// is none.
pub open spec fn gives_text(tree: JsonView, place: int, key: Seq<char>, text: Option<Seq<char>>) -> bool {
    match text {
        Some(text) => gives(tree, place, key, JsonView::Text(text)),
        None => lacks(tree, place, key) || gives(tree, place, key, JsonView::Null),
    }
}

/// Whether a record gives an optional number: nothing and `null` mean that
/// there is none.
pub open spec fn gives_number(tree: JsonView, place: int, key: Seq<char>, number: Option<u64>) -> bool {
    match number {
        Some(number) => gives(tree, place, key, JsonView::Number(number)),
        None => lacks(tree, place, key) || gives(tree, place, key, JsonView::Null),
    }
}

/// Whether an object gives a number, or leaves it out where it is `default`.
pub open spec fn gives_or_default(members: Seq<(Seq<char>, JsonView)>, key: Seq<char>, number: u64, default: u64) -> bool {
    once(members, key, JsonView::Number(number)) || (never(members, key) && number == default)
}

/// Whether a tree says that a member receives `media`.
pub open spec fn says_media(tree: JsonView, media: MeshMediaView) -> bool {
    &&& tree matches JsonView::Object(members)
    &&& once(members, "audio"@, JsonView::Text(media.audio))
    &&& once(members, "bitrate"@, JsonView::Number(media.opus.bitrate as u64))
    &&& gives_or_default(members, "sample_rate"@, media.opus.sample_rate as u64, 48_000)
    &&& gives_or_default(members, "frame_ms"@, media.opus.frame_ms as u64, 20)
    &&& gives_or_default(members, "channels"@, media.opus.channels as u64, 1)
}

/// Whether a tree says that a member offers `focus`.
pub open spec fn says_focus(tree: JsonView, focus: FocusView) -> bool {
    &&& tree matches JsonView::List(items) ==> items.len() <= 3
    &&& match focus {
        FocusView::MeshIroh(mesh) => {
            &&& gives(tree, 0, "type"@, JsonView::Text("in.indiafoss.mesh.iroh"@))
            &&& gives(tree, 1, "node_id"@, JsonView::Text(mesh.node_id))
            &&& exists|media: JsonView| #[trigger] gives(tree, 2, "media"@, media) && says_media(media, mesh.media)
        },
        FocusView::Livekit { livekit_alias, livekit_service_url } => {
            &&& gives(tree, 0, "type"@, JsonView::Text("livekit"@))
            &&& gives(tree, 1, "livekit_alias"@, JsonView::Text(livekit_alias))
            &&& gives(tree, 2, "livekit_service_url"@, JsonView::Text(livekit_service_url))
        },
    }
}

/// Whether a tree says that a member is connected through `active`.
pub open spec fn says_active(tree: JsonView, active: ActiveFocusView) -> bool {
    match active {
        ActiveFocusView::MeshIroh => {
            &&& tree matches JsonView::List(items) ==> items.len() <= 1
            &&& gives(tree, 0, "type"@, JsonView::Text("in.indiafoss.mesh.iroh"@))
        },
        ActiveFocusView::Livekit { focus_selection } => {
            &&& tree matches JsonView::List(items) ==> items.len() <= 2
            &&& gives(tree, 0, "type"@, JsonView::Text("livekit"@))
            &&& gives(tree, 1, "focus_selection"@, JsonView::Text(focus_selection))
        },
    }
}

/// Whether an array says that a member offers `foci`, in that order.
pub open spec fn says_foci(items: Seq<JsonView>, foci: Seq<FocusView>) -> bool {
    &&& items.len() == foci.len()
    &&& forall|i: int| 0 <= i < items.len() ==> says_focus(#[trigger] items[i], foci[i])
}

/// Whether a tree says that a member is in the call with `session`.
pub open spec fn says_session(tree: JsonView, session: SessionView) -> bool {
    &&& tree matches JsonView::List(items) ==> items.len() <= 8
    &&& gives(tree, 0, "application"@, JsonView::Text(session.application))
    &&& gives(tree, 1, "call_id"@, JsonView::Text(session.call_id))
    &&& gives_text(tree, 2, "scope"@, session.scope)
    &&& gives(tree, 3, "device_id"@, JsonView::Text(session.device_id))
    &&& (lacks(tree, 4, "foci_preferred"@) && session.foci_preferred.len() == 0) || (exists|items: Seq<JsonView>|
        #[trigger] gives(tree, 4, "foci_preferred"@, JsonView::List(items)) && says_foci(items, session.foci_preferred))
    &&& exists|active: JsonView| #[trigger] gives(tree, 5, "focus_active"@, active) && says_active(active, session.focus_active)
    &&& gives_number(tree, 6, "created_ts"@, session.created_ts)
    &&& gives_number(tree, 7, "expires"@, session.expires)
}

/// Whether a tree says that a member left.
pub open spec fn says_left(tree: JsonView, left: LeftView) -> bool {
    match left.leave_reason {
        Some(reason) => tree == JsonView::Object(seq![("leave_reason"@, JsonView::Text(reason))]),
        None => tree == JsonView::Object(Seq::empty()) || tree == JsonView::Object(seq![("leave_reason"@, JsonView::Null)]),
    }
}

/// A record's field has a value exactly where the record gives it one, and is
/// absent exactly where the record leaves it out.
pub proof fn law_field_is_what_the_record_gives(tree: JsonView, place: int, key: Seq<char>)
    requires
        0 <= place,
    ensures
        forall|value: JsonView|
            #![trigger gives(tree, place, key, value)]
            gives(tree, place, key, value) <==> record_slot(tree, place, key) == SlotView::Value(value),
        lacks(tree, place, key) <==> record_slot(tree, place, key) == SlotView::Absent,
{
    assert forall|value: JsonView|
        #![trigger gives(tree, place, key, value)]
        gives(tree, place, key, value) <==> record_slot(tree, place, key) == SlotView::Value(value) by {
        if let JsonView::Object(members) = tree {
            law_key_has_its_one_value(members, key, value);
        }
    }
    if let JsonView::Object(members) = tree {
        law_key_has_its_one_value(members, key, JsonView::Null);
    }
}

/// What a field is taken for: a text, a number that is not too large, or one of
/// these where it may be missing.
pub proof fn law_what_a_field_is_taken_for(field: SlotView, text: Seq<char>, number: u64, max: u64, default: u64)
    ensures
        text_field(field) == Some(text) <==> field == SlotView::Value(JsonView::Text(text)),
        optional_text_field(field) == Some(Some(text)) <==> field == SlotView::Value(JsonView::Text(text)),
        optional_text_field(field) == Some(None::<Seq<char>>) <==> field == SlotView::Absent || field == SlotView::Value(
            JsonView::Null,
        ),
        number_field(field, max) == Some(number) <==> field == SlotView::Value(JsonView::Number(number)) && number <= max,
        number_field_or(field, max, default) == Some(number) <==> (field == SlotView::Absent && number == default) || (field
            == SlotView::Value(JsonView::Number(number)) && number <= max),
        optional_number_field(field) == Some(Some(number)) <==> field == SlotView::Value(JsonView::Number(number)),
        optional_number_field(field) == Some(None::<u64>) <==> field == SlotView::Absent || field == SlotView::Value(
            JsonView::Null,
        ),
{
}

/// What can be a record of `n` fields: any object, and an array of as many
/// items or fewer.
pub proof fn law_what_is_a_record(members: Seq<(Seq<char>, JsonView)>, items: Seq<JsonView>, n: nat, text: Seq<char>)
    ensures
        is_record(JsonView::Object(members), n),
        is_record(JsonView::List(items), n) <==> items.len() <= n,
        !is_record(JsonView::Null, n),
        !is_record(JsonView::Text(text), n),
{
}

/// The `media` object is read as what its members say.
pub proof fn law_media_is_what_is_said(tree: JsonView, media: MeshMediaView)
    ensures
        read_media(tree) == Some(media) <==> says_media(tree, media),
{
    if let JsonView::Object(members) = tree {
        law_field_is_what_the_record_gives(tree, 0, "audio"@);
        law_field_is_what_the_record_gives(tree, 0, "bitrate"@);
        law_field_is_what_the_record_gives(tree, 0, "sample_rate"@);
        law_field_is_what_the_record_gives(tree, 0, "frame_ms"@);
        law_field_is_what_the_record_gives(tree, 0, "channels"@);
        assert(gives(tree, 0, "audio"@, JsonView::Text(media.audio)) == once(members, "audio"@, JsonView::Text(media.audio)));
        assert(gives(tree, 0, "bitrate"@, JsonView::Number(media.opus.bitrate as u64)) == once(
            members,
            "bitrate"@,
            JsonView::Number(media.opus.bitrate as u64),
        ));
        assert(gives(tree, 0, "sample_rate"@, JsonView::Number(media.opus.sample_rate as u64)) == once(
            members,
            "sample_rate"@,
            JsonView::Number(media.opus.sample_rate as u64),
        ));
        assert(gives(tree, 0, "frame_ms"@, JsonView::Number(media.opus.frame_ms as u64)) == once(
            members,
            "frame_ms"@,
            JsonView::Number(media.opus.frame_ms as u64),
        ));
        assert(gives(tree, 0, "channels"@, JsonView::Number(media.opus.channels as u64)) == once(
            members,
            "channels"@,
            JsonView::Number(media.opus.channels as u64),
        ));
    }
}

/// A focus is read as what its members say, wherever they stand.
pub proof fn law_focus_is_what_is_said(tree: JsonView, focus: FocusView)
    ensures
        read_focus(tree) == Some(focus) <==> says_focus(tree, focus),
{
    law_field_is_what_the_record_gives(tree, 0, "type"@);
    law_field_is_what_the_record_gives(tree, 1, "node_id"@);
    law_field_is_what_the_record_gives(tree, 2, "media"@);
    law_field_is_what_the_record_gives(tree, 1, "livekit_alias"@);
    law_field_is_what_the_record_gives(tree, 2, "livekit_service_url"@);
    reveal_strlit("in.indiafoss.mesh.iroh");
    reveal_strlit("livekit");
    assert(MESH_FOCUS_TYPE@.len() == 22 && LIVEKIT_FOCUS_TYPE@.len() == 7);
    if let SlotView::Value(media) = record_slot(tree, 2, "media"@) {
        assert(gives(tree, 2, "media"@, media));
        if let FocusView::MeshIroh(mesh) = focus {
            law_media_is_what_is_said(media, mesh.media);
        }
    }
}

/// The focus in use is read as what its members say, wherever they stand.
pub proof fn law_active_focus_is_what_is_said(tree: JsonView, active: ActiveFocusView)
    ensures
        read_active(tree) == Some(active) <==> says_active(tree, active),
{
    law_field_is_what_the_record_gives(tree, 0, "type"@);
    law_field_is_what_the_record_gives(tree, 1, "focus_selection"@);
    reveal_strlit("in.indiafoss.mesh.iroh");
    reveal_strlit("livekit");
    assert(MESH_FOCUS_TYPE@.len() == 22 && LIVEKIT_FOCUS_TYPE@.len() == 7);
}

/// The first `n` foci are read as what they say, one by one.
proof fn lemma_foci_said(items: Seq<JsonView>, n: nat, foci: Seq<FocusView>)
    requires
        n <= items.len(),
    ensures
        read_foci(items, n) == Some(foci) <==> says_foci(items.take(n as int), foci),
    decreases n,
{
    let part = items.take(n as int);
    if n == 0 {
        if says_foci(part, foci) {
            assert(foci =~= Seq::empty());
        }
    } else {
        let before = items.take(n - 1);
        let focus = foci.last();
        assert(part.drop_last() =~= before);
        lemma_foci_said(items, (n - 1) as nat, foci.drop_last());
        law_focus_is_what_is_said(items[n - 1], focus);
        if read_foci(items, n) == Some(foci) {
            assert(foci.drop_last() =~= read_foci(items, (n - 1) as nat)->0);
            assert(foci.last() == read_focus(items[n - 1])->0);
            assert forall|i: int| 0 <= i < part.len() implies says_focus(#[trigger] part[i], foci[i]) by {
                if i < n - 1 {
                    assert(says_focus(before[i], foci.drop_last()[i]));
                }
            }
        }
        if says_foci(part, foci) {
            assert forall|i: int| 0 <= i < before.len() implies says_focus(#[trigger] before[i], foci.drop_last()[i]) by {
                assert(says_focus(part[i], foci[i]));
            }
            assert(says_focus(part[n - 1], foci[n - 1]));
            assert(foci.drop_last().push(focus) =~= foci);
        }
    }
}

/// A session is read as what its members say, wherever they stand and whatever
/// others stand between them.
pub proof fn law_session_is_what_is_said(tree: JsonView, session: SessionView)
    ensures
        read_session(tree) == Some(session) <==> says_session(tree, session),
{
    law_field_is_what_the_record_gives(tree, 0, "application"@);
    law_field_is_what_the_record_gives(tree, 1, "call_id"@);
    law_field_is_what_the_record_gives(tree, 2, "scope"@);
    law_field_is_what_the_record_gives(tree, 3, "device_id"@);
    law_field_is_what_the_record_gives(tree, 4, "foci_preferred"@);
    law_field_is_what_the_record_gives(tree, 5, "focus_active"@);
    law_field_is_what_the_record_gives(tree, 6, "created_ts"@);
    law_field_is_what_the_record_gives(tree, 7, "expires"@);
    let foci = session.foci_preferred;
    if foci.len() == 0 {
        assert(foci =~= Seq::empty());
    }
    if let SlotView::Value(JsonView::List(items)) = record_slot(tree, 4, "foci_preferred"@) {
        assert(gives(tree, 4, "foci_preferred"@, JsonView::List(items)));
        assert(items.take(items.len() as int) =~= items);
        lemma_foci_said(items, items.len(), foci);
    }
    if let SlotView::Value(active) = record_slot(tree, 5, "focus_active"@) {
        assert(gives(tree, 5, "focus_active"@, active));
        law_active_focus_is_what_is_said(active, session.focus_active);
    }
}

/// The content of a member who left is read as what it says.
proof fn lemma_left_said(tree: JsonView, left: LeftView)
    ensures
        read_left(tree) == Some(left) <==> says_left(tree, left),
{
    let key = "leave_reason"@;
    if let JsonView::Object(members) = tree {
        law_key_has_its_one_value(members, key, JsonView::Null);
        if let Some(reason) = left.leave_reason {
            law_key_has_its_one_value(members, key, JsonView::Text(reason));
        }
        if members.len() == 0 {
            assert(members =~= Seq::empty());
        } else if members.len() == 1 {
            assert(members =~= seq![members[0]]);
            if members[0].0 == key {
                assert(only_at(members, key, 0));
            }
        } else if members[0].0 == key && members[1].0 == key {
            assert(slot(members, key) == SlotView::Repeated);
        }
    }
}

/// A content is read exactly as what its tree says: in a session by the keys
/// of a session, in any order and with any others beside them, or else as that
/// of a member who left. What says neither is not read.
pub proof fn law_content_is_what_is_said(tree: JsonView, content: ContentView)
    ensures
        read_content(tree) == Some(content) <==> (match content {
            ContentView::Session(session) => says_session(tree, session),
            ContentView::Left(left) => says_left(tree, left),
        }),
{
    match content {
        ContentView::Session(session) => {
            law_session_is_what_is_said(tree, session);
        },
        ContentView::Left(left) => {
            lemma_left_said(tree, left);
            if says_left(tree, left) {
                reveal_strlit("leave_reason");
                reveal_strlit("application");
                assert("leave_reason"@.len() == 12 && "application"@.len() == 11);
                law_field_is_what_the_record_gives(tree, 0, "application"@);
                assert(lacks(tree, 0, "application"@));
            }
        },
    }
}

/// Whether `p` and `q` are an order of `n` things and its inverse.
pub open spec fn is_order(p: Seq<int>, q: Seq<int>, n: nat) -> bool {
    &&& p.len() == n
    &&& q.len() == n
    &&& forall|i: int| 0 <= i < n ==> 0 <= #[trigger] p[i] < n && q[p[i]] == i
    &&& forall|j: int| 0 <= j < n ==> 0 <= #[trigger] q[j] < n && p[q[j]] == j
}

/// Whether two trees differ at most in the order of the members of objects, at
/// whatever depth: the `i`th member of the one stands at `p[i]` in the other.
pub open spec fn reordered(a: JsonView, b: JsonView) -> bool
    decreases a,
{
    match (a, b) {
        (JsonView::List(x), JsonView::List(y)) => x.len() == y.len() && forall|i: int|
            0 <= i < x.len() ==> reordered(#[trigger] x[i], y[i]),
        (JsonView::Object(x), JsonView::Object(y)) => x.len() == y.len() && exists|p: Seq<int>, q: Seq<int>| #[trigger]
            is_order(p, q, x.len()) && forall|i: int|
                0 <= i < x.len() ==> (#[trigger] x[i]).0 == y[p[i]].0 && reordered(x[i].1, y[p[i]].1),
        _ => a == b,
    }
}

/// Whether `p` takes the members of one object to those of another.
spec fn reordered_by(a: Seq<(Seq<char>, JsonView)>, b: Seq<(Seq<char>, JsonView)>, p: Seq<int>, q: Seq<int>) -> bool {
    &&& is_order(p, q, a.len())
    &&& forall|i: int| 0 <= i < a.len() ==> (#[trigger] a[i]).0 == b[p[i]].0 && reordered(a[i].1, b[p[i]].1)
}

/// Whether two fields hold the same but for the order of members.
spec fn alike(a: SlotView, b: SlotView) -> bool {
    match (a, b) {
        (SlotView::Absent, SlotView::Absent) => true,
        (SlotView::Repeated, SlotView::Repeated) => true,
        (SlotView::Value(v), SlotView::Value(w)) => reordered(v, w),
        _ => false,
    }
}

/// The member at `i` has the same key, and a value that differs at most in the
/// order of members, as the one that it was moved to.
proof fn lemma_moved(a: Seq<(Seq<char>, JsonView)>, b: Seq<(Seq<char>, JsonView)>, p: Seq<int>, q: Seq<int>, i: int)
    requires
        reordered_by(a, b, p, q),
        a.len() == b.len(),
        0 <= i < a.len(),
    ensures
        0 <= p[i] < b.len(),
        q[p[i]] == i,
        a[i].0 == b[p[i]].0,
        reordered(a[i].1, b[p[i]].1),
{
    assert(forall|j: int| 0 <= j < a.len() ==> (#[trigger] a[j]).0 == b[p[j]].0 && reordered(a[j].1, b[p[j]].1));
    assert(a[i].0 == b[p[i]].0);
}

/// A key has the same value whatever the order of the members.
proof fn lemma_slot_reordered(
    a: Seq<(Seq<char>, JsonView)>,
    b: Seq<(Seq<char>, JsonView)>,
    p: Seq<int>,
    q: Seq<int>,
    key: Seq<char>,
)
    requires
        reordered_by(a, b, p, q),
        a.len() == b.len(),
    ensures
        alike(slot(a, key), slot(b, key)),
{
    match slot(a, key) {
        SlotView::Absent => {
            law_key_has_its_one_value(a, key, JsonView::Null);
            law_key_has_its_one_value(b, key, JsonView::Null);
            assert forall|j: int| 0 <= j < b.len() implies (#[trigger] b[j]).0 != key by {
                assert(0 <= q[j] < a.len() && p[q[j]] == j);
                lemma_moved(a, b, p, q, q[j]);
                assert(a[q[j]].0 != key);
            }
        },
        SlotView::Value(value) => {
            law_key_has_its_one_value(a, key, value);
            let i = choose|i: int| #[trigger] only_at(a, key, i) && a[i].1 == value;
            lemma_moved(a, b, p, q, i);
            let k = p[i];
            law_key_has_its_one_value(b, key, b[k].1);
            assert forall|j: int| 0 <= j < b.len() && j != k implies (#[trigger] b[j]).0 != key by {
                assert(0 <= q[j] < a.len() && p[q[j]] == j);
                lemma_moved(a, b, p, q, q[j]);
                assert(a[q[j]].0 != key);
            }
            assert(only_at(b, key, k));
        },
        SlotView::Repeated => {
            law_key_has_its_one_value(a, key, JsonView::Null);
            law_key_has_its_one_value(b, key, JsonView::Null);
            let (i, j) = choose|i: int, j: int|
                0 <= i < j < a.len() && (#[trigger] a[i]).0 == key && (#[trigger] a[j]).0 == key;
            lemma_moved(a, b, p, q, i);
            lemma_moved(a, b, p, q, j);
            assert(b[p[i]].0 == key && b[p[j]].0 == key);
            if p[i] > p[j] {
                assert(p[j] < p[i]);
            }
        },
    }
}

/// The order that takes the members of one object to those of the other.
proof fn lemma_order_of(x: Seq<(Seq<char>, JsonView)>, y: Seq<(Seq<char>, JsonView)>) -> (order: (Seq<int>, Seq<int>))
    requires
        reordered(JsonView::Object(x), JsonView::Object(y)),
    ensures
        x.len() == y.len(),
        reordered_by(x, y, order.0, order.1),
{
    let a = JsonView::Object(x);
    let b = JsonView::Object(y);
    let (p, q) = choose|p: Seq<int>, q: Seq<int>| #[trigger]
        is_order(p, q, x.len()) && forall|i: int|
            0 <= i < x.len() ==> (#[trigger] a->Object_0[i]).0 == b->Object_0[p[i]].0 && reordered(
                a->Object_0[i].1,
                b->Object_0[p[i]].1,
            );
    assert(reordered_by(a->Object_0, b->Object_0, p, q));
    (p, q)
}

/// The items of two arrays that differ in the order of members differ in it.
proof fn lemma_items_reordered(x: Seq<JsonView>, y: Seq<JsonView>, i: int)
    requires
        reordered(JsonView::List(x), JsonView::List(y)),
        0 <= i < x.len(),
    ensures
        x.len() == y.len(),
        reordered(x[i], y[i]),
{
    let a = JsonView::List(x);
    let b = JsonView::List(y);
    assert(a->List_0.len() == b->List_0.len());
    assert(forall|j: int| 0 <= j < a->List_0.len() ==> reordered(#[trigger] a->List_0[j], b->List_0[j]));
    assert(reordered(a->List_0[i], b->List_0[i]));
}

/// A record's field is the same whatever the order of the members.
proof fn lemma_record_reordered(a: JsonView, b: JsonView, place: int, key: Seq<char>)
    requires
        reordered(a, b),
    ensures
        alike(record_slot(a, place, key), record_slot(b, place, key)),
{
    match (a, b) {
        (JsonView::Object(x), JsonView::Object(y)) => {
            let (p, q) = lemma_order_of(x, y);
            lemma_slot_reordered(x, y, p, q, key);
        },
        (JsonView::List(x), JsonView::List(y)) => {
            if 0 <= place < x.len() {
                lemma_items_reordered(x, y, place);
            }
        },
        _ => {},
    }
}

/// The `media` object is read alike in any order.
proof fn lemma_media_reordered(a: JsonView, b: JsonView)
    requires
        reordered(a, b),
    ensures
        read_media(a) == read_media(b),
{
    lemma_record_reordered(a, b, 0, "audio"@);
    lemma_record_reordered(a, b, 0, "bitrate"@);
    lemma_record_reordered(a, b, 0, "sample_rate"@);
    lemma_record_reordered(a, b, 0, "frame_ms"@);
    lemma_record_reordered(a, b, 0, "channels"@);
}

/// A focus is read alike in any order.
proof fn lemma_focus_reordered(a: JsonView, b: JsonView)
    requires
        reordered(a, b),
    ensures
        read_focus(a) == read_focus(b),
{
    lemma_record_reordered(a, b, 0, "type"@);
    lemma_record_reordered(a, b, 1, "node_id"@);
    lemma_record_reordered(a, b, 2, "media"@);
    lemma_record_reordered(a, b, 1, "livekit_alias"@);
    lemma_record_reordered(a, b, 2, "livekit_service_url"@);
    if let (SlotView::Value(v), SlotView::Value(w)) = (record_slot(a, 2, "media"@), record_slot(b, 2, "media"@)) {
        lemma_media_reordered(v, w);
    }
}

/// The focus in use is read alike in any order.
proof fn lemma_active_reordered(a: JsonView, b: JsonView)
    requires
        reordered(a, b),
    ensures
        read_active(a) == read_active(b),
{
    lemma_record_reordered(a, b, 0, "type"@);
    lemma_record_reordered(a, b, 1, "focus_selection"@);
}

/// The first `n` foci are read alike in any order of their members.
proof fn lemma_foci_reordered(x: Seq<JsonView>, y: Seq<JsonView>, n: nat)
    requires
        reordered(JsonView::List(x), JsonView::List(y)),
        n <= x.len(),
    ensures
        read_foci(x, n) == read_foci(y, n),
    decreases n,
{
    if n > 0 {
        lemma_foci_reordered(x, y, (n - 1) as nat);
        lemma_items_reordered(x, y, n - 1);
        lemma_focus_reordered(x[n - 1], y[n - 1]);
    }
}

/// Reading does not depend on the order of the members of objects: trees that
/// differ in nothing else, at whatever depth, are read alike.
pub proof fn law_order_of_members_does_not_matter(a: JsonView, b: JsonView)
    requires
        reordered(a, b),
    ensures
        read_content(a) == read_content(b),
{
    lemma_record_reordered(a, b, 0, "application"@);
    lemma_record_reordered(a, b, 1, "call_id"@);
    lemma_record_reordered(a, b, 2, "scope"@);
    lemma_record_reordered(a, b, 3, "device_id"@);
    lemma_record_reordered(a, b, 4, "foci_preferred"@);
    lemma_record_reordered(a, b, 5, "focus_active"@);
    lemma_record_reordered(a, b, 6, "created_ts"@);
    lemma_record_reordered(a, b, 7, "expires"@);
    if let (SlotView::Value(JsonView::List(x)), SlotView::Value(JsonView::List(y))) = (
        record_slot(a, 4, "foci_preferred"@),
        record_slot(b, 4, "foci_preferred"@),
    ) {
        lemma_foci_reordered(x, y, x.len());
    }
    if let (SlotView::Value(v), SlotView::Value(w)) = (record_slot(a, 5, "focus_active"@), record_slot(b, 5, "focus_active"@)) {
        lemma_active_reordered(v, w);
    }
    assert(read_session(a) == read_session(b));
    lemma_left_reordered(a, b);
}

/// The content of a member who left is read alike in any order.
proof fn lemma_left_reordered(a: JsonView, b: JsonView)
    requires
        reordered(a, b),
    ensures
        read_left(a) == read_left(b),
{
    let key = "leave_reason"@;
    lemma_record_reordered(a, b, 0, key);
    if let (JsonView::Object(x), JsonView::Object(y)) = (a, b) {
        let (p, q) = lemma_order_of(x, y);
        if forall|i: int| 0 <= i < x.len() ==> (#[trigger] x[i]).0 == key {
            assert forall|j: int| 0 <= j < y.len() implies (#[trigger] y[j]).0 == key by {
                assert(0 <= q[j] < x.len() && p[q[j]] == j);
                lemma_moved(x, y, p, q, q[j]);
                assert(x[q[j]].0 == key);
            }
        } else {
            let i = choose|i: int| 0 <= i < x.len() && (#[trigger] x[i]).0 != key;
            lemma_moved(x, y, p, q, i);
            assert(y[p[i]].0 != key);
        }
    }
}

/// A tree differs from itself in nothing.
proof fn lemma_reordered_reflexive(tree: JsonView)
    ensures
        reordered(tree, tree),
    decreases tree,
{
    match tree {
        JsonView::List(items) => {
            assert forall|i: int| 0 <= i < items.len() implies reordered(#[trigger] items[i], items[i]) by {
                lemma_reordered_reflexive(items[i]);
            }
        },
        JsonView::Object(members) => {
            let p = Seq::new(members.len(), |i: int| i);
            assert forall|i: int| 0 <= i < members.len() implies (#[trigger] members[i]).0 == members[p[i]].0 && reordered(
                members[i].1,
                members[p[i]].1,
            ) by {
                lemma_reordered_reflexive(members[i].1);
            }
            assert(is_order(p, p, members.len()));
        },
        _ => {},
    }
}

/// Any two members of an object may trade places.
pub proof fn law_members_may_trade_places(members: Seq<(Seq<char>, JsonView)>, i: int, j: int)
    requires
        0 <= i < members.len(),
        0 <= j < members.len(),
    ensures
        read_content(JsonView::Object(members.update(i, members[j]).update(j, members[i]))) == read_content(
            JsonView::Object(members),
        ),
{
    let traded = members.update(i, members[j]).update(j, members[i]);
    let p = Seq::new(
        members.len(),
        |k: int|
            if k == i {
                j
            } else if k == j {
                i
            } else {
                k
            },
    );
    assert forall|k: int| 0 <= k < members.len() implies (#[trigger] members[k]).0 == traded[p[k]].0 && reordered(
        members[k].1,
        traded[p[k]].1,
    ) by {
        lemma_reordered_reflexive(members[k].1);
    }
    assert(is_order(p, p, members.len()));
    assert(reordered(JsonView::Object(members), JsonView::Object(traded)));
    law_order_of_members_does_not_matter(JsonView::Object(members), JsonView::Object(traded));
}

/// What was written reads back as the content whatever order its members have
/// been put in on the way.
pub proof fn law_reordered_writing_reads_back(content: ContentView, tree: JsonView)
    requires
        reordered(content_tree(content), tree),
    ensures
        read_content(tree) == Some(content),
{
    law_wire_round_trip(content);
    law_order_of_members_does_not_matter(content_tree(content), tree);
}

/// Members beyond those of a session do not matter, wherever they are put and
/// whatever they hold.
pub proof fn law_unknown_members_do_not_matter(
    before: Seq<(Seq<char>, JsonView)>,
    extra: (Seq<char>, JsonView),
    after: Seq<(Seq<char>, JsonView)>,
)
    requires
        extra.0 != "application"@,
        extra.0 != "call_id"@,
        extra.0 != "scope"@,
        extra.0 != "device_id"@,
        extra.0 != "foci_preferred"@,
        extra.0 != "focus_active"@,
        extra.0 != "created_ts"@,
        extra.0 != "expires"@,
    ensures
        read_session(JsonView::Object(before.push(extra) + after)) == read_session(JsonView::Object(before + after)),
{
    lemma_slot_without(before, extra, after, "application"@);
    lemma_slot_without(before, extra, after, "call_id"@);
    lemma_slot_without(before, extra, after, "scope"@);
    lemma_slot_without(before, extra, after, "device_id"@);
    lemma_slot_without(before, extra, after, "foci_preferred"@);
    lemma_slot_without(before, extra, after, "focus_active"@);
    lemma_slot_without(before, extra, after, "created_ts"@);
    lemma_slot_without(before, extra, after, "expires"@);
}

/// Members beyond those of a focus do not matter either.
pub proof fn law_unknown_members_of_a_focus_do_not_matter(
    before: Seq<(Seq<char>, JsonView)>,
    extra: (Seq<char>, JsonView),
    after: Seq<(Seq<char>, JsonView)>,
)
    requires
        extra.0 != "type"@,
        extra.0 != "node_id"@,
        extra.0 != "media"@,
        extra.0 != "livekit_alias"@,
        extra.0 != "livekit_service_url"@,
    ensures
        read_focus(JsonView::Object(before.push(extra) + after)) == read_focus(JsonView::Object(before + after)),
        extra.0 != "focus_selection"@ ==> read_active(JsonView::Object(before.push(extra) + after)) == read_active(
            JsonView::Object(before + after),
        ),
{
    lemma_slot_without(before, extra, after, "type"@);
    lemma_slot_without(before, extra, after, "node_id"@);
    lemma_slot_without(before, extra, after, "media"@);
    lemma_slot_without(before, extra, after, "livekit_alias"@);
    lemma_slot_without(before, extra, after, "livekit_service_url"@);
    if extra.0 != "focus_selection"@ {
        lemma_slot_without(before, extra, after, "focus_selection"@);
    }
}

/// Members beyond those of the `media` object do not matter either.
pub proof fn law_unknown_members_of_media_do_not_matter(
    before: Seq<(Seq<char>, JsonView)>,
    extra: (Seq<char>, JsonView),
    after: Seq<(Seq<char>, JsonView)>,
)
    requires
        extra.0 != "audio"@,
        extra.0 != "bitrate"@,
        extra.0 != "sample_rate"@,
        extra.0 != "frame_ms"@,
        extra.0 != "channels"@,
    ensures
        read_media(JsonView::Object(before.push(extra) + after)) == read_media(JsonView::Object(before + after)),
{
    lemma_slot_without(before, extra, after, "audio"@);
    lemma_slot_without(before, extra, after, "bitrate"@);
    lemma_slot_without(before, extra, after, "sample_rate"@);
    lemma_slot_without(before, extra, after, "frame_ms"@);
    lemma_slot_without(before, extra, after, "channels"@);
}

/// A key has the same value without a member of another key.
proof fn lemma_slot_without(
    before: Seq<(Seq<char>, JsonView)>,
    extra: (Seq<char>, JsonView),
    after: Seq<(Seq<char>, JsonView)>,
    key: Seq<char>,
)
    requires
        extra.0 != key,
    ensures
        slot(before.push(extra) + after, key) == slot(before + after, key),
    decreases after.len(),
{
    let with = before.push(extra) + after;
    let without = before + after;
    if after.len() == 0 {
        assert(with.drop_last() =~= before);
        assert(without =~= before);
    } else {
        lemma_slot_without(before, extra, after.drop_last(), key);
        assert(with.drop_last() =~= before.push(extra) + after.drop_last());
        assert(without.drop_last() =~= before + after.drop_last());
    }
}

} // verus!
