//! The in-memory state store, exercised through the `StateStore` contract.

use matrix_client_core::codec::encode_client_state;
use matrix_client_core::ids::{RoomId, UserId};
use matrix_client_core::state::{ClientState, RoomState};
use matrix_client_core::store::{MemStore, StateStore, StoreError};

const ROOT: &str = "/tmp/store-root";

fn room(id: &str, data: &[u8]) -> RoomState {
    RoomState { room_id: RoomId::parse(id).unwrap(), data: data.to_vec() }
}

#[test]
fn open_is_idempotent() {
    let mut store = MemStore::new();
    assert_eq!(Ok(()), store.open(ROOT));
    assert_eq!(Ok(()), store.open(ROOT));
}

#[test]
fn empty_store_loads_default_client_state() {
    let store = MemStore::new();
    let loaded = store.load_client_state(ROOT).unwrap();
    assert_eq!(ClientState::default(), loaded);
    assert_eq!(None, loaded.session);
    assert_eq!(None, loaded.sync_token);
    assert!(loaded.ignored_users.is_empty());
    assert_eq!(None, loaded.push_ruleset);
}

#[test]
fn absent_room_is_not_found() {
    let mut store = MemStore::new();
    let absent = RoomId::parse("!absent:example.com").unwrap();
    assert_eq!(Err(StoreError::NotFound), store.load_room_state(ROOT, &absent));
    // Persisting one room does not make another one up.
    store.store_room_state(ROOT, &room("!roomid:example.com", b"r")).unwrap();
    assert_eq!(Err(StoreError::NotFound), store.load_room_state(ROOT, &absent));
}

#[test]
fn store_and_reload_client_state() {
    let mut store = MemStore::new();
    let state = ClientState::default();
    store.store_client_state(ROOT, &state).unwrap();
    assert_eq!(state, store.load_client_state(ROOT).unwrap());

    let state = ClientState {
        session: None,
        sync_token: Some(b"hello".to_vec()),
        ignored_users: vec![UserId::parse("@example:example.com").unwrap()],
        push_ruleset: None,
    };
    store.store_client_state(ROOT, &state).unwrap();
    let reloaded = store.load_client_state(ROOT).unwrap();
    assert_eq!(state, reloaded);
    assert_eq!(
        r#"{"session":null,"sync_token":"hello","ignored_users":["@example:example.com"],"push_ruleset":null}"#
            .as_bytes()
            .to_vec(),
        encode_client_state(&reloaded)
    );
}

#[test]
fn repeated_writes_keep_the_store_readable() {
    let mut store = MemStore::new();
    for i in 0..10u32 {
        let state = ClientState {
            session: None,
            sync_token: Some(format!("cursor-{}", i).into_bytes()),
            ignored_users: Vec::new(),
            push_ruleset: None,
        };
        store.store_client_state(ROOT, &state).unwrap();
        // Every write replaces the record atomically: a load after any
        // number of overlapping writes sees a whole snapshot, never
        // `Corrupt`.
        let loaded = store.load_client_state(ROOT).unwrap();
        assert_eq!(state, loaded);
    }
}

#[test]
fn room_records_are_independent() {
    let mut store = MemStore::new();
    let first = room("!one:example.com", b"first");
    let second = room("!two:example.com", b"second");
    store.store_room_state(ROOT, &first).unwrap();
    store.store_room_state(ROOT, &second).unwrap();

    let updated = room("!one:example.com", b"first-updated");
    store.store_room_state(ROOT, &updated).unwrap();

    let one = RoomId::parse("!one:example.com").unwrap();
    let two = RoomId::parse("!two:example.com").unwrap();
    assert_eq!(updated, store.load_room_state(ROOT, &one).unwrap());
    assert_eq!(second, store.load_room_state(ROOT, &two).unwrap());
}

#[test]
fn load_all_rooms_returns_every_record_in_order() {
    let mut store = MemStore::new();
    assert_eq!(Vec::<RoomState>::new(), store.load_all_rooms(ROOT).unwrap());

    let first = room("!one:example.com", b"first");
    let second = room("!two:example.com", b"second");
    store.store_room_state(ROOT, &first).unwrap();
    store.store_room_state(ROOT, &second).unwrap();
    assert_eq!(vec![first, second], store.load_all_rooms(ROOT).unwrap());
}
