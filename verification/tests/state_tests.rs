//! Snapshot encoding and decoding, exercised through the public codec.

use matrix_client_core::codec::{
    decode_client_state, decode_room_state, encode_client_state, encode_room_state,
};
use matrix_client_core::ids::{RoomId, UserId};
use matrix_client_core::state::{BaseClient, ClientState, RoomState, Ruleset, Session};

fn example_user() -> UserId {
    UserId::parse("@example:example.com").unwrap()
}

fn example_room_id() -> RoomId {
    RoomId::parse("!roomid:example.com").unwrap()
}

#[test]
fn serialize() {
    let user = example_user();

    let state = ClientState {
        session: None,
        sync_token: Some(b"hello".to_vec()),
        ignored_users: vec![user],
        push_ruleset: None,
    };
    assert_eq!(
        r#"{"session":null,"sync_token":"hello","ignored_users":["@example:example.com"],"push_ruleset":null}"#
            .as_bytes()
            .to_vec(),
        encode_client_state(&state)
    );

    let room = RoomState {
        room_id: example_room_id(),
        data: b"created by @example:example.com".to_vec(),
    };
    assert_eq!(
        r#"{"room_id":"!roomid:example.com","data":"created by @example:example.com"}"#
            .as_bytes()
            .to_vec(),
        encode_room_state(&room)
    );
}

#[test]
fn deserialize() {
    let user = example_user();

    let state = ClientState {
        session: None,
        sync_token: Some(b"hello".to_vec()),
        ignored_users: vec![user],
        push_ruleset: None,
    };
    let bytes = encode_client_state(&state);
    assert_eq!(state, decode_client_state(&bytes).unwrap());

    let room = RoomState {
        room_id: example_room_id(),
        data: b"created by @example:example.com".to_vec(),
    };
    let bytes = encode_room_state(&room);
    assert_eq!(room, decode_room_state(&bytes).unwrap());
}

#[test]
fn round_trip_full_state() {
    let state = ClientState {
        session: Some(Session {
            user_id: example_user(),
            device_id: b"DEVICEID".to_vec(),
            access_token: b"to\"ken\\with specials".to_vec(),
        }),
        sync_token: Some(b"s72594_4483_1934".to_vec()),
        ignored_users: vec![
            UserId::parse("@alice:example.com").unwrap(),
            UserId::parse("@bob:example.org").unwrap(),
        ],
        push_ruleset: Some(Ruleset { raw: b"{\"override\":[]}".to_vec() }),
    };
    let bytes = encode_client_state(&state);
    assert_eq!(state, decode_client_state(&bytes).unwrap());
}

#[test]
fn round_trip_empty_state() {
    let state = ClientState::default();
    let bytes = encode_client_state(&state);
    assert_eq!(
        r#"{"session":null,"sync_token":null,"ignored_users":[],"push_ruleset":null}"#
            .as_bytes()
            .to_vec(),
        bytes
    );
    assert_eq!(state, decode_client_state(&bytes).unwrap());
}

#[test]
fn decode_rejects_malformed_snapshots() {
    assert!(decode_client_state(&b"".to_vec()).is_none());
    assert!(decode_client_state(&b"{}".to_vec()).is_none());
    assert!(decode_client_state(&b"not json at all".to_vec()).is_none());
    // A truncated record must not decode.
    let state = ClientState::default();
    let mut bytes = encode_client_state(&state);
    bytes.pop();
    assert!(decode_client_state(&bytes).is_none());
    // A record whose ignored user lacks the sigil must not decode.
    let bad = r#"{"session":null,"sync_token":null,"ignored_users":["example"],"push_ruleset":null}"#;
    assert!(decode_client_state(&bad.as_bytes().to_vec()).is_none());
    assert!(decode_room_state(&b"{}".to_vec()).is_none());
}

#[test]
fn control_bytes_survive_the_wire() {
    let room = RoomState {
        room_id: example_room_id(),
        data: b"line1\nline2\ttab".to_vec(),
    };
    let bytes = encode_room_state(&room);
    assert_eq!(
        r#"{"room_id":"!roomid:example.com","data":"line1\u000aline2\u0009tab"}"#
            .as_bytes()
            .to_vec(),
        bytes
    );
    assert_eq!(room, decode_room_state(&bytes).unwrap());

    // Every byte value round-trips through the client snapshot.
    let mut all_bytes: Vec<u8> = Vec::new();
    for b in 0..=255u8 {
        all_bytes.push(b);
    }
    let state = ClientState {
        session: Some(Session {
            user_id: example_user(),
            device_id: all_bytes.clone(),
            access_token: all_bytes.clone(),
        }),
        sync_token: Some(all_bytes.clone()),
        ignored_users: Vec::new(),
        push_ruleset: Some(Ruleset { raw: all_bytes }),
    };
    let bytes = encode_client_state(&state);
    assert_eq!(state, decode_client_state(&bytes).unwrap());
}

#[test]
fn escaped_bytes_survive_the_wire() {
    let room = RoomState {
        room_id: example_room_id(),
        data: b"a\"b\\c".to_vec(),
    };
    let bytes = encode_room_state(&room);
    assert_eq!(
        r#"{"room_id":"!roomid:example.com","data":"a\"b\\c"}"#.as_bytes().to_vec(),
        bytes
    );
    assert_eq!(room, decode_room_state(&bytes).unwrap());
}

#[test]
fn from_base_client_projects_the_snapshot() {
    let client = BaseClient {
        session: None,
        sync_token: Some(b"cursor".to_vec()),
        ignored_users: vec![example_user()],
        push_ruleset: None,
    };
    let state = ClientState::from_base_client(&client);
    assert_eq!(state.session, None);
    assert_eq!(state.sync_token, Some(b"cursor".to_vec()));
    assert_eq!(state.ignored_users, vec![example_user()]);
    assert_eq!(state.push_ruleset, None);
}

#[test]
fn identifiers_validate_their_shape() {
    assert!(UserId::parse("@example:example.com").is_some());
    assert!(UserId::parse("example:example.com").is_none());
    assert!(UserId::parse("@example").is_none());
    assert!(UserId::parse("").is_none());
    assert!(RoomId::parse("!roomid:example.com").is_some());
    assert!(RoomId::parse("@roomid:example.com").is_none());
    let user = UserId::parse("@example:example.com").unwrap();
    assert_eq!(b"@example:example.com".to_vec(), *user.as_bytes());
}
