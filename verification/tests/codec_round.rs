use rws_chat::codec::{decode, encode};
use rws_chat::ids::{parse_uuid, uuid_string};
use rws_chat::protocol::{ChatScope, ErrorCode, EventMessage, RoomInfo, UserInfo};

fn user(id: u128, name: &str) -> UserInfo {
    UserInfo { id, username: name.to_string() }
}

fn room(id: u128, name: &str) -> RoomInfo {
    RoomInfo { id, name: name.to_string() }
}

#[test]
fn uuid_text_matches_the_uuid_crate() {
    for v in [0u128, 1, 0xdeadbeef, u128::MAX, 0xa1a2a3a4b1b2c1c2d1d2d3d4d5d6d7d8] {
        let expected = uuid::Uuid::from_u128(v).hyphenated().to_string();
        assert_eq!(uuid_string(v), expected);
    }
}

#[test]
fn uuid_text_round_trips() {
    for v in [0u128, 1, 42, 1 << 127, u128::MAX] {
        assert_eq!(parse_uuid(&uuid_string(v)), Some(v));
    }
}

#[test]
fn uuid_parse_refuses_bad_text() {
    assert_eq!(parse_uuid(""), None);
    assert_eq!(parse_uuid("not-a-uuid"), None);
    assert_eq!(parse_uuid("00000000-0000-0000-0000-00000000001"), None);
    assert_eq!(parse_uuid("00000000_0000_0000_0000_000000000001"), None);
    assert_eq!(parse_uuid("0000000g-0000-0000-0000-000000000001"), None);
    // The canonical form is lowercase; uppercase digits are refused.
    assert_eq!(parse_uuid("00000000-0000-0000-0000-00000000000A"), None);
}

#[test]
fn encode_join_exactly() {
    let ev = EventMessage::Join { username: "alice".to_string() };
    assert_eq!(encode(&ev), "{\"event\":\"Join\",\"data\":{\"username\":\"alice\"}}");
}

#[test]
fn encode_ping_exactly() {
    assert_eq!(encode(&EventMessage::Ping), "{\"event\":\"Ping\"}");
}

#[test]
fn encode_assigned_id_exactly() {
    let ev = EventMessage::AssignedId { user_id: 1 };
    assert_eq!(
        encode(&ev),
        "{\"event\":\"AssignedId\",\"data\":{\"user_id\":\"00000000-0000-0000-0000-000000000001\"}}"
    );
}

#[test]
fn encode_chat_exactly() {
    let ev = EventMessage::Chat {
        id: 2,
        sender: user(1, "alice"),
        content: "hi".to_string(),
        scope: ChatScope::Global,
    };
    let expected = "{\"event\":\"Chat\",\"data\":{\"id\":\"00000000-0000-0000-0000-000000000002\",\"sender\":{\"id\":\"00000000-0000-0000-0000-000000000001\",\"username\":\"alice\"},\"content\":\"hi\",\"scope\":{\"scope\":\"Global\"}}}";
    assert_eq!(encode(&ev), expected);
}

#[test]
fn encode_escapes_json_characters() {
    let ev = EventMessage::Join { username: "a\"b\\c\nd\te".to_string() };
    assert_eq!(
        encode(&ev),
        "{\"event\":\"Join\",\"data\":{\"username\":\"a\\\"b\\\\c\\nd\\te\"}}"
    );
}

#[test]
fn encode_escapes_control_characters() {
    let ev = EventMessage::Join { username: "x\u{1}y".to_string() };
    assert_eq!(encode(&ev), "{\"event\":\"Join\",\"data\":{\"username\":\"x\\u0001y\"}}");
}

#[test]
fn encoded_frames_are_valid_json_with_the_expected_tagging() {
    let ev = EventMessage::Chat {
        id: 7,
        sender: user(5, "bob"),
        content: "hello there".to_string(),
        scope: ChatScope::Room { room: room(9, "lobby") },
    };
    let text = encode(&ev);
    let v: serde_json::Value = serde_json::from_str(&text).expect("encoder must emit valid JSON");
    assert_eq!(v["event"].as_str(), Some("Chat"));
    assert_eq!(v["data"]["content"].as_str(), Some("hello there"));
    assert_eq!(v["data"]["sender"]["username"].as_str(), Some("bob"));
    assert_eq!(v["data"]["scope"]["scope"].as_str(), Some("Room"));
    assert_eq!(v["data"]["scope"]["details"]["room"]["name"].as_str(), Some("lobby"));
    assert_eq!(
        v["data"]["id"].as_str(),
        Some("00000000-0000-0000-0000-000000000007")
    );
}

#[test]
fn decode_round_trips_every_variant() {
    let events = vec![
        EventMessage::Join { username: "alice".to_string() },
        EventMessage::AssignedId { user_id: 11 },
        EventMessage::Chat {
            id: 2,
            sender: user(1, "alice"),
            content: "hi \"quoted\" \\ back\nline".to_string(),
            scope: ChatScope::Global,
        },
        EventMessage::Chat {
            id: 3,
            sender: user(1, "alice"),
            content: "room talk".to_string(),
            scope: ChatScope::Room { room: room(9, "lobby") },
        },
        EventMessage::AckDelivered { id: 2 },
        EventMessage::CreateRoom { creator: user(1, "alice"), room_name: "lobby".to_string() },
        EventMessage::JoinRoom { user: user(2, "bob"), room: room(9, "lobby") },
        EventMessage::LeaveRoom { user: user(2, "bob"), room: room(9, "lobby") },
        EventMessage::Error {
            error: ErrorCode::RoomNotFound { message: "Room with id x not found".to_string() },
        },
        EventMessage::Error { error: ErrorCode::RoomAlreadyExists { message: "dup".to_string() } },
        EventMessage::Error { error: ErrorCode::AlreadyInRoom { message: "occupied".to_string() } },
        EventMessage::Error { error: ErrorCode::InvalidRoomId { message: "bad".to_string() } },
        EventMessage::Error { error: ErrorCode::PermissionDenied { message: "no".to_string() } },
        EventMessage::Ping,
    ];
    for ev in events {
        let text = encode(&ev);
        let back = decode(&text).expect("canonical frame must decode");
        assert_eq!(encode(&back), text);
    }
}

#[test]
fn decode_round_trips_control_characters() {
    let ev = EventMessage::Join { username: "a\u{1}\u{8}\u{c}\u{1f}b\r\t".to_string() };
    let text = encode(&ev);
    let back = decode(&text).expect("escaped controls must decode");
    assert_eq!(encode(&back), text);
    match back {
        EventMessage::Join { username } => assert_eq!(username, "a\u{1}\u{8}\u{c}\u{1f}b\r\t"),
        _ => panic!("wrong variant"),
    }
}

#[test]
fn decode_refuses_malformed_frames() {
    assert!(decode("").is_none());
    assert!(decode("hello").is_none());
    assert!(decode("{\"event\":\"Selfdestruct\"}").is_none());
    assert!(decode("{\"event\":\"Join\",\"data\":{\"username\":\"alice\"}").is_none());
    assert!(decode("{\"event\":\"Join\",\"data\":{\"username\":42}}").is_none());
    // Well-formed JSON that is not in canonical form (spare whitespace)
    // is refused too.
    assert!(decode("{ \"event\": \"Ping\" }").is_none());
    assert!(decode("{\"event\":\"Ping\"} ").is_none());
}
