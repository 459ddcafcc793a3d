use std::fmt;

use neutrino_ble::call_member::{
    mesh_members, state_key, unhex32, ActiveFocus, CallMemberContent, Focus, LeftMembership, MeshFocus, MeshMedia,
    OpusParams,
};
use neutrino_ble::json::Json;
use neutrino_ble::node_id::hex32;
use serde::de::{Deserialize, Deserializer, MapAccess, SeqAccess, Visitor};
use serde_json::Value;

/// A JSON document as the library's tree, repeated keys and all.
struct Tree(Json);

struct TreeVisitor;

impl<'de> Visitor<'de> for TreeVisitor {
    type Value = Tree;

    fn expecting(&self, f: &mut fmt::Formatter) -> fmt::Result {
        f.write_str("a JSON value")
    }

    fn visit_unit<E>(self) -> Result<Tree, E> {
        Ok(Tree(Json::Null))
    }

    fn visit_bool<E>(self, b: bool) -> Result<Tree, E> {
        Ok(Tree(Json::Bool(b)))
    }

    fn visit_u64<E>(self, n: u64) -> Result<Tree, E> {
        Ok(Tree(Json::Number(n)))
    }

    fn visit_i64<E>(self, n: i64) -> Result<Tree, E> {
        Ok(Tree(Json::OtherNumber(n.to_string())))
    }

    fn visit_f64<E>(self, n: f64) -> Result<Tree, E> {
        Ok(Tree(Json::OtherNumber(Value::from(n).to_string())))
    }

    fn visit_str<E>(self, s: &str) -> Result<Tree, E> {
        Ok(Tree(Json::Text(s.to_string())))
    }

    fn visit_seq<A: SeqAccess<'de>>(self, mut seq: A) -> Result<Tree, A::Error> {
        let mut items = Vec::new();
        while let Some(Tree(item)) = seq.next_element()? {
            items.push(item);
        }
        Ok(Tree(Json::List(items)))
    }

    fn visit_map<A: MapAccess<'de>>(self, mut map: A) -> Result<Tree, A::Error> {
        let mut members = Vec::new();
        while let Some((key, Tree(value))) = map.next_entry::<String, Tree>()? {
            members.push((key, value));
        }
        Ok(Tree(Json::Object(members)))
    }
}

impl<'de> Deserialize<'de> for Tree {
    fn deserialize<D: Deserializer<'de>>(deserializer: D) -> Result<Self, D::Error> {
        deserializer.deserialize_any(TreeVisitor)
    }
}

fn tree(json: &str) -> Json {
    serde_json::from_str::<Tree>(json).expect("valid JSON").0
}

fn parse(json: &str) -> Option<CallMemberContent> {
    CallMemberContent::from_value(&tree(json))
}

fn value(json: &str) -> Value {
    serde_json::from_str(json).expect("valid JSON")
}

fn node() -> [u8; 32] {
    let mut k = [0u8; 32];
    for (i, b) in k.iter_mut().enumerate() {
        *b = (i * 7 + 3) as u8;
    }
    k
}

#[test]
fn join_content_has_the_msc4143_session_shape_with_a_mesh_focus() {
    let content = CallMemberContent::join(&node(), "DEVICEID", OpusParams::default(), Some(3_600_000));
    let v: Value = serde_json::from_str(&content.to_json()).unwrap();
    let expected = format!(
        r#"{{
            "application": "m.call",
            "call_id": "",
            "scope": "m.room",
            "device_id": "DEVICEID",
            "foci_preferred": [{{
                "type": "in.indiafoss.mesh.iroh",
                "node_id": "{}",
                "media": {{
                    "audio": "opus",
                    "bitrate": 24000,
                    "sample_rate": 48000,
                    "frame_ms": 20,
                    "channels": 1
                }}
            }}],
            "focus_active": {{ "type": "in.indiafoss.mesh.iroh" }},
            "expires": 3600000
        }}"#,
        hex32(&node())
    );
    assert_eq!(v, value(&expected));
    // Never the LiveKit keys.
    assert!(!content.to_json().contains("livekit"));
}

#[test]
fn join_round_trips_through_json() {
    let content = CallMemberContent::join(
        &node(),
        "DEVICEID",
        OpusParams { bitrate: 16_000, ..Default::default() },
        None,
    );
    let back = parse(&content.to_json()).unwrap();
    assert_eq!(back, content);
    let s = back.session().unwrap();
    let focus = s.mesh_focus().unwrap();
    assert_eq!(focus.node_key(), Some(node()));
    assert_eq!(focus.media.opus.bitrate, 16_000);
    assert_eq!(s.focus_active, ActiveFocus::MeshIroh);
}

#[test]
fn leave_is_the_empty_object_and_parses_back_as_left() {
    assert_eq!(CallMemberContent::leave().to_json(), "{}");
    assert_eq!(parse("{}").unwrap(), CallMemberContent::leave());
    let lost = parse(r#"{"leave_reason":"m.lost_connection"}"#).unwrap();
    assert_eq!(
        lost,
        CallMemberContent::Left(LeftMembership { leave_reason: Some("m.lost_connection".into()) })
    );
    assert!(lost.session().is_none());
}

#[test]
fn opus_defaults_fill_in_when_the_wire_omits_them() {
    let json = format!(
        r#"{{
            "application": "m.call",
            "call_id": "",
            "device_id": "D",
            "foci_preferred": [{{
                "type": "in.indiafoss.mesh.iroh",
                "node_id": "{}",
                "media": {{ "audio": "opus", "bitrate": 20000 }}
            }}],
            "focus_active": {{ "type": "in.indiafoss.mesh.iroh" }}
        }}"#,
        hex32(&node())
    );
    let c = parse(&json).unwrap();
    let opus = &c.session().unwrap().mesh_focus().unwrap().media.opus;
    assert_eq!(*opus, OpusParams { bitrate: 20_000, ..Default::default() });
}

#[test]
fn a_livekit_member_parses_but_offers_no_mesh_focus() {
    let json = r#"{
        "application": "m.call",
        "call_id": "",
        "scope": "m.room",
        "device_id": "ELEMENTX",
        "foci_preferred": [{
            "type": "livekit",
            "livekit_alias": "!room:example.org",
            "livekit_service_url": "https://livekit.example.org"
        }],
        "focus_active": { "type": "livekit", "focus_selection": "oldest_membership" },
        "created_ts": 1700000000000,
        "expires": 14400000
    }"#;
    let c = parse(json).unwrap();
    let s = c.session().unwrap();
    assert!(s.mesh_focus().is_none());
    assert_eq!(
        s.focus_active,
        ActiveFocus::Livekit { focus_selection: "oldest_membership".into() }
    );
    // And it round-trips unchanged: a faithful reader, not a rewriter.
    assert_eq!(value(&c.to_json()), value(json));
}

#[test]
fn an_unknown_focus_type_is_an_error_not_a_silent_leave() {
    let json = r#"{
        "application": "m.call",
        "call_id": "",
        "device_id": "D",
        "foci_preferred": [{ "type": "org.example.sfu", "url": "x" }],
        "focus_active": { "type": "org.example.sfu" }
    }"#;
    assert!(parse(json).is_none());
    // Likewise a session missing a required field.
    assert!(parse(r#"{"application":"m.call"}"#).is_none());
}

#[test]
fn state_key_is_per_device_and_underscore_prefixed() {
    let node_hex = hex32(&node());
    assert_eq!(
        state_key(&format!("@n:{node_hex}"), "DEVICEID"),
        format!("_@n:{node_hex}_DEVICEID_m.call")
    );
}

#[test]
fn expiry_uses_the_earlier_of_created_ts_and_origin_server_ts() {
    let mut s = match CallMemberContent::join(&node(), "D", OpusParams::default(), Some(1_000)) {
        CallMemberContent::Session(s) => s,
        _ => unreachable!(),
    };
    // Join at origin 10_000, expires 1_000: stale from 11_000.
    assert!(!s.is_expired(10_000, 10_999));
    assert!(s.is_expired(10_000, 11_000));
    // An update carries the original join as created_ts; the newer timestamp
    // does not extend the life.
    s.created_ts = Some(10_000);
    assert!(s.is_expired(50_000, 11_000));
    // No expires: never stale by time.
    s.expires = None;
    assert!(!s.is_expired(0, u64::MAX));
}

#[test]
fn mesh_members_enumerates_only_live_mesh_sessions() {
    let a = node();
    let mut b = node();
    b[0] ^= 0xff;
    let joined_a = CallMemberContent::join(&a, "DA", OpusParams::default(), Some(60_000));
    let joined_b = CallMemberContent::join(&b, "DB", OpusParams::default(), Some(60_000));
    let left = CallMemberContent::leave();
    let livekit = parse(
        r#"{
            "application": "m.call", "call_id": "", "device_id": "LK",
            "foci_preferred": [{ "type": "livekit", "livekit_alias": "a", "livekit_service_url": "u" }],
            "focus_active": { "type": "livekit", "focus_selection": "oldest_membership" }
        }"#,
    )
    .unwrap();
    let bad_node = parse(
        r#"{
            "application": "m.call", "call_id": "", "device_id": "BAD",
            "foci_preferred": [{ "type": "in.indiafoss.mesh.iroh", "node_id": "NOT-HEX",
                                 "media": { "audio": "opus", "bitrate": 1 } }],
            "focus_active": { "type": "in.indiafoss.mesh.iroh" }
        }"#,
    )
    .unwrap();
    let state = [
        ("_@n:a_DA_m.call", 1_000u64, &joined_a),
        ("_@n:b_DB_m.call", 100_000u64, &joined_b), // expired below
        ("_@n:c_DC_m.call", 1_000u64, &left),
        ("_@x:example.org_LK_m.call", 1_000u64, &livekit),
        ("_@n:d_BAD_m.call", 1_000u64, &bad_node),
    ];
    let at = |now| mesh_members(&state, now);
    // At 50_000 both mesh sessions are live (a: 1_000 + 60_000, b: 100_000
    // + 60_000); the left, LiveKit and malformed entries never appear.
    let members = at(50_000);
    assert_eq!(members.len(), 2, "{members:?}");
    assert_eq!(members[0].state_key, "_@n:a_DA_m.call");
    assert_eq!(members[0].node_id, a);
    assert_eq!(members[0].device_id, "DA");
    assert_eq!(members[0].opus, OpusParams::default());
    assert_eq!(members[1].node_id, b);
    // At 120_000 a has expired and only b is live.
    let members = at(120_000);
    assert_eq!(members.len(), 1);
    assert_eq!(members[0].node_id, b);
    // At 160_000 both have.
    assert!(at(160_000).is_empty());
}

#[test]
fn unhex32_is_strict() {
    let hex = hex32(&node());
    assert_eq!(unhex32(&hex), Some(node()));
    assert_eq!(unhex32(&hex.to_uppercase()), None);
    assert_eq!(unhex32(&hex[..63]), None);
    assert_eq!(unhex32(&format!("{hex}0")), None);
}

#[test]
fn content_text_is_compact_and_in_field_order() {
    let content = CallMemberContent::join(&[0xabu8; 32], "D", OpusParams::default(), None);
    assert_eq!(
        content.to_json(),
        format!(
            "{{\"application\":\"m.call\",\"call_id\":\"\",\"scope\":\"m.room\",\"device_id\":\"D\",\
             \"foci_preferred\":[{{\"type\":\"in.indiafoss.mesh.iroh\",\"node_id\":\"{}\",\"media\":\
             {{\"audio\":\"opus\",\"bitrate\":24000,\"sample_rate\":48000,\"frame_ms\":20,\"channels\":1}}}}],\
             \"focus_active\":{{\"type\":\"in.indiafoss.mesh.iroh\"}}}}",
            "ab".repeat(32)
        )
    );
}

#[test]
fn text_is_escaped_where_json_needs_it() {
    for device in ["plain", "a\"b", "back\\slash", "line\nfeed\ttab\u{8}\u{c}\r", "\u{1}\u{1f}\u{7f}", "na\u{ef}ve \u{1f980}"] {
        let content = CallMemberContent::join(&node(), device, OpusParams::default(), Some(0));
        let v: Value = serde_json::from_str(&content.to_json()).unwrap();
        assert_eq!(v["device_id"], Value::from(device));
        assert!(content.to_json().contains(&serde_json::to_string(device).unwrap()));
        assert_eq!(parse(&content.to_json()), Some(content));
    }
}

#[test]
fn every_content_reads_back_as_it_was_written() {
    let mut s = match CallMemberContent::join(&node(), "D", OpusParams::default(), Some(u64::MAX)) {
        CallMemberContent::Session(s) => s,
        _ => unreachable!(),
    };
    s.scope = None;
    s.created_ts = Some(0);
    s.foci_preferred.insert(
        0,
        Focus::Livekit { livekit_alias: "a".into(), livekit_service_url: "u".into() },
    );
    s.foci_preferred.push(Focus::MeshIroh(MeshFocus {
        node_id: "not hex".into(),
        media: MeshMedia {
            audio: "other".into(),
            opus: OpusParams { bitrate: u32::MAX, sample_rate: 0, frame_ms: 1, channels: 255 },
        },
    }));
    s.focus_active = ActiveFocus::Livekit { focus_selection: "oldest_membership".into() };
    let session = CallMemberContent::Session(s);
    let left = CallMemberContent::Left(LeftMembership { leave_reason: Some("why".into()) });
    for content in [session, left, CallMemberContent::leave()] {
        assert_eq!(CallMemberContent::from_value(&content.to_value()).as_ref(), Some(&content));
        assert_eq!(parse(&content.to_json()), Some(content));
    }
}

/// A session with the given `media` object and the given further members.
fn session_json(media: &str, more: &str) -> String {
    format!(
        r#"{{"application":"m.call","call_id":"","device_id":"D",
            "foci_preferred":[{{"type":"in.indiafoss.mesh.iroh","node_id":"x","media":{media}}}],
            "focus_active":{{"type":"in.indiafoss.mesh.iroh"}}{more}}}"#
    )
}

const MEDIA: &str = r#"{"audio":"opus","bitrate":1}"#;

#[test]
fn unknown_members_are_passed_over_in_a_session_only() {
    assert!(parse(&session_json(MEDIA, r#","extra":{"a":1,"a":2}"#)).is_some());
    assert!(parse(&session_json(r#"{"audio":"opus","bitrate":1,"video":[]}"#, "")).is_some());
    assert!(parse(r#"{"leave_reason":"x","extra":1}"#).is_none());
}

#[test]
fn a_field_that_is_written_twice_is_an_error() {
    assert!(parse(&session_json(MEDIA, r#","call_id":"""#)).is_none());
    assert!(parse(&session_json(r#"{"audio":"opus","bitrate":1,"bitrate":1}"#, "")).is_none());
    assert!(parse(r#"{"leave_reason":"x","leave_reason":"x"}"#).is_none());
}

#[test]
fn numbers_have_to_fit() {
    assert!(parse(&session_json(r#"{"audio":"opus","bitrate":4294967295,"channels":255}"#, "")).is_some());
    assert!(parse(&session_json(r#"{"audio":"opus","bitrate":4294967296}"#, "")).is_none());
    assert!(parse(&session_json(r#"{"audio":"opus","bitrate":1,"channels":256}"#, "")).is_none());
    assert!(parse(&session_json(r#"{"audio":"opus","bitrate":-1}"#, "")).is_none());
    assert!(parse(&session_json(r#"{"audio":"opus","bitrate":1.0}"#, "")).is_none());
    assert!(parse(&session_json(r#"{"audio":"opus"}"#, "")).is_none());
    assert!(parse(&session_json(MEDIA, r#","expires":18446744073709551615"#)).is_some());
    assert!(parse(&session_json(MEDIA, r#","expires":18446744073709551616"#)).is_none());
}

#[test]
fn null_stands_for_an_absent_optional_field() {
    let c = parse(&session_json(MEDIA, r#","scope":null,"expires":null,"created_ts":null"#)).unwrap();
    assert_eq!(c.session().unwrap().expires, None);
    assert_eq!(c, parse(&session_json(MEDIA, "")).unwrap());
    assert_eq!(parse(r#"{"leave_reason":null}"#), Some(CallMemberContent::leave()));
    assert!(parse(&session_json(r#"{"audio":"opus","bitrate":1,"frame_ms":null}"#, "")).is_none());
}

#[test]
fn a_session_may_be_written_by_position() {
    let c = parse(
        r#"["m.call","","m.room","D",
            [["in.indiafoss.mesh.iroh","x",{"audio":"opus","bitrate":1}],["livekit","a","u"]],
            ["livekit","oldest_membership"],7]"#,
    )
    .unwrap();
    let s = c.session().unwrap();
    assert_eq!(s.created_ts, Some(7));
    assert_eq!(s.expires, None);
    assert_eq!(s.mesh_focus().unwrap().node_id, "x");
    assert_eq!(s.foci_preferred.len(), 2);
    assert!(parse(r#"["m.call","","m.room","D",[],["in.indiafoss.mesh.iroh"],7,8]"#).is_some());
    assert!(parse(r#"["m.call","","m.room","D",[],["in.indiafoss.mesh.iroh"],7,8,9]"#).is_none());
    assert!(parse(r#"["m.call","","m.room","D",[],["in.indiafoss.mesh.iroh",1]]"#).is_none());
    assert!(parse(r#"["m.call","","m.room","D",[]]"#).is_none());
}

#[test]
fn only_an_object_is_a_hang_up() {
    for json in ["[]", "[null]", "null", "true", "0", "\"\"", "[\"x\"]", r#"{"leave_reason":1}"#, r#"{"x":null}"#] {
        assert_eq!(parse(json), None, "{json}");
    }
}

#[test]
fn a_focus_type_is_a_string() {
    let json = r#"{"application":"m.call","call_id":"","device_id":"D",
        "focus_active":{"type":0}}"#;
    assert_eq!(parse(json), None);
    let json = json.replace("0", r#""in.indiafoss.mesh.iroh""#);
    assert!(parse(&json).unwrap().session().unwrap().foci_preferred.is_empty());
}

#[test]
fn expiry_saturates_at_the_end_of_time() {
    let mut s = match CallMemberContent::join(&node(), "D", OpusParams::default(), Some(10)) {
        CallMemberContent::Session(s) => s,
        _ => unreachable!(),
    };
    assert!(!s.is_expired(u64::MAX - 5, u64::MAX - 1));
    assert!(s.is_expired(u64::MAX - 5, u64::MAX));
    s.created_ts = Some(u64::MAX);
    assert!(s.is_expired(90, 100));
    assert!(!s.is_expired(90, 99));
}

#[test]
fn only_sessions_of_the_call_application_are_members() {
    let mut other = match CallMemberContent::join(&node(), "D", OpusParams::default(), None) {
        CallMemberContent::Session(s) => s,
        _ => unreachable!(),
    };
    other.application = "m.whiteboard".into();
    let other = CallMemberContent::Session(other);
    assert!(mesh_members(&[("k", 0, &other)], 0).is_empty());
}

#[test]
fn a_later_listing_is_part_of_an_earlier_one() {
    let short = CallMemberContent::join(&[1u8; 32], "A", OpusParams::default(), Some(5));
    let long = CallMemberContent::join(&[2u8; 32], "B", OpusParams::default(), None);
    let state = [("a", 10u64, &short), ("b", 10u64, &long)];
    let early = mesh_members(&state, 14);
    let late = mesh_members(&state, 15);
    assert_eq!(early.len(), 2);
    assert_eq!(late.len(), 1);
    assert_eq!(late[0], early[1]);
}

#[test]
fn members_are_listed_in_the_order_of_the_state() {
    let one = CallMemberContent::join(&[1u8; 32], "A", OpusParams::default(), None);
    let two = CallMemberContent::join(&[2u8; 32], "B", OpusParams::default(), None);
    let gone = CallMemberContent::leave();
    let both = mesh_members(&[("2", 0, &two), ("x", 0, &gone), ("1", 0, &one)], 0);
    assert_eq!(both.len(), 2);
    assert_eq!((both[0].state_key.as_str(), both[1].state_key.as_str()), ("2", "1"));
}

#[test]
fn state_keys_tell_devices_apart() {
    assert_ne!(state_key("@u", "A"), state_key("@u", "B"));
    assert_ne!(state_key("@u", "A"), state_key("@v", "A"));
    // An underscore in a device id can be read either way.
    assert_eq!(state_key("@u", "v_A"), state_key("@u_v", "A"));
}

#[test]
fn text_is_escaped_exactly_as_json_strings_are() {
    let device = "a\"\\/\u{8}\t\n\u{b}\u{c}\r\u{0}\u{1f}\u{7f}\u{e9}";
    let content = CallMemberContent::join(&node(), device, OpusParams::default(), None);
    let expected = "\"device_id\":\"a\\\"\\\\/\\b\\t\\n\\u000b\\f\\r\\u0000\\u001f\u{7f}\u{e9}\"";
    assert!(content.to_json().contains(expected));
}

#[test]
fn different_contents_are_written_differently() {
    let other = |device: &str, expires: Option<u64>| CallMemberContent::join(&node(), device, OpusParams::default(), expires);
    let texts: Vec<String> = [
        other("D", None),
        other("D", Some(1)),
        other("D", Some(11)),
        other("D\",\"expires\":1", None),
        other("", None),
        CallMemberContent::leave(),
        CallMemberContent::Left(LeftMembership { leave_reason: Some(String::new()) }),
        CallMemberContent::Left(LeftMembership { leave_reason: Some("null".into()) }),
    ]
    .iter()
    .map(|content| content.to_json())
    .collect();
    for (i, a) in texts.iter().enumerate() {
        for b in &texts[i + 1..] {
            assert_ne!(a, b);
        }
    }
}

#[test]
fn an_unknown_focus_is_an_error_by_position_too() {
    let known = r#"["m.call","",null,"D",[{"type":"livekit","livekit_alias":"a","livekit_service_url":"u"}],{"type":"in.indiafoss.mesh.iroh"}]"#;
    assert!(parse(known).is_some());
    assert_eq!(parse(&known.replace("\"livekit\"", "\"sfu\"")), None);
    assert_eq!(parse(&known.replace("mesh.iroh", "mesh.other")), None);
}
