//! The persistence boundary: the [`StateStore`] contract for client and room
//! snapshots, and [`MemStore`], a fully verified in-memory backend.
//!
//! A store holds at most one client record and one record per room, each an
//! atomic unit: a write replaces the whole record or changes nothing, which
//! is what a write-to-temp-then-replace backend guarantees across crashes.

use vstd::prelude::*;
use crate::codec::{
    encode_client_model, encode_room_model, parse_client, parse_room, encode_client_state,
    encode_room_state, decode_client_state, decode_room_state,
};
use crate::ids::RoomId;
use crate::state::{ClientState, RoomState, RoomModel, ClientModel, valid_client, valid_room,
    default_client};
use crate::roundtrip::{lemma_client_round_trip, lemma_room_round_trip};
use crate::text::{bytes_eq, copy_bytes};

verus! {

/// Failure modes of the persistence boundary.
#[derive(Clone, Copy, Debug, PartialEq, Eq, Structural)]
pub enum StoreError {
    /// The storage location is unusable: surfaced, typically fatal to
    /// startup.
    StoreUnavailable,
    /// The requested record was never persisted: expected and non-fatal,
    /// the caller falls back to a default.
    NotFound,
    /// A persisted record cannot be decoded: surfaced, the caller decides
    /// whether to discard and reinitialize.
    Corrupt,
}

/// The mathematical contents of a store: the encoded client record, if one
/// was ever written, and the encoded room records keyed by room identifier,
/// in insertion order.
pub struct StoreModel {
    pub client: Option<Seq<u8>>,
    pub rooms: Seq<(Seq<u8>, Seq<u8>)>,
}

/// The record of the first room with the given key, if any.
pub open spec fn lookup_room(rooms: Seq<(Seq<u8>, Seq<u8>)>, key: Seq<u8>) -> Option<Seq<u8>>
    decreases rooms.len(),
{
    if rooms.len() == 0 {
        None
    } else if rooms[0].0 == key {
        Some(rooms[0].1)
    } else {
        lookup_room(rooms.skip(1), key)
    }
}

/// All room records decoded, in store order; nothing if any record is
/// undecodable.
pub open spec fn decode_rooms(rooms: Seq<(Seq<u8>, Seq<u8>)>) -> Option<Seq<RoomModel>>
    decreases rooms.len(),
{
    if rooms.len() == 0 {
        Some(Seq::empty())
    } else {
        match parse_room(rooms[0].1) {
            Some(rm) => match decode_rooms(rooms.skip(1)) {
                Some(t) => Some(seq![rm] + t),
                None => None,
            },
            None => None,
        }
    }
}

/// The models of a list of room snapshots, in order.
pub open spec fn room_states_view(v: Seq<RoomState>) -> Seq<RoomModel> {
    v.map_values(|s: RoomState| s@)
}

/// What a successful room write does to the room records: the written room
/// reads back as its fresh record, every other key reads as before, and the
/// record count grew exactly when the key was new.
pub open spec fn room_update_ok(
    old_rooms: Seq<(Seq<u8>, Seq<u8>)>,
    new_rooms: Seq<(Seq<u8>, Seq<u8>)>,
    rm: RoomModel,
) -> bool {
    &&& lookup_room(new_rooms, rm.room_id) == Some(encode_room_model(rm))
    &&& (forall|k: Seq<u8>|
        k != rm.room_id ==> #[trigger] lookup_room(new_rooms, k) == lookup_room(old_rooms, k))
    &&& new_rooms.len() == old_rooms.len() + (if lookup_room(old_rooms, rm.room_id) is Some {
        0int
    } else {
        1int
    })
}

/// Every record a store can hold decodes.  All writes replace a whole
/// record with a fresh encoding or change nothing, so every store reachable
/// from an empty one stays in this set; the lemmas below prove it.
pub open spec fn wf_records(m: StoreModel) -> bool {
    &&& (m.client matches Some(b) ==> parse_client(b) is Some)
    &&& (forall|k: Seq<u8>|
        (#[trigger] lookup_room(m.rooms, k)) matches Some(rec) ==> parse_room(rec) is Some)
}

/// A client snapshot write keeps the store well formed.  A write is atomic:
/// an interrupted one leaves the old contents, well formed by hypothesis,
/// and a completed one leaves the fresh encoding, which this lemma shows
/// decodes back to the written snapshot.  In neither case can a later load
/// find an undecodable record.
pub proof fn lemma_client_write_preserves_wf(m: StoreModel, c: ClientModel)
    requires
        wf_records(m),
        valid_client(c),
    ensures
        wf_records(StoreModel { client: Some(encode_client_model(c)), rooms: m.rooms }),
        parse_client(encode_client_model(c)) == Some(c),
{
    lemma_client_round_trip(c);
}

/// A room snapshot write keeps the store well formed: afterwards the
/// written room's record is the fresh encoding, which decodes, and every
/// other key reads exactly as before.
pub proof fn lemma_room_write_preserves_wf(m: StoreModel, rooms2: Seq<(Seq<u8>, Seq<u8>)>, rm: RoomModel)
    requires
        wf_records(m),
        valid_room(rm),
        room_update_ok(m.rooms, rooms2, rm),
    ensures
        wf_records(StoreModel { client: m.client, rooms: rooms2 }),
        parse_room(encode_room_model(rm)) == Some(rm),
{
    lemma_room_round_trip(rm);
    assert forall|k: Seq<u8>| #[trigger] lookup_room(rooms2, k) is Some implies parse_room(
        lookup_room(rooms2, k).unwrap(),
    ) is Some by {
        if k != rm.room_id {
            assert(lookup_room(rooms2, k) == lookup_room(m.rooms, k));
        }
    }
}

/// On a well-formed store no load reports corruption: the client record, if
/// any, decodes, and so does every room record a lookup can reach — in
/// particular, snapshots written over one another, with writes that are
/// atomic per record, never leave the store unreadable.
pub proof fn lemma_wf_store_never_corrupt(m: StoreModel, key: Seq<u8>)
    requires
        wf_records(m),
    ensures
        m.client matches Some(b) ==> parse_client(b) is Some,
        lookup_room(m.rooms, key) matches Some(rec) ==> parse_room(rec) is Some,
{
}

/// Persistence contract for client and room snapshots, relative to a
/// caller-supplied storage root.  Backends differ in where the records
/// live; what each operation means for the records is fixed here.
pub trait StateStore {
    /// The records the store currently holds.
    spec fn contents(&self) -> StoreModel;

    /// Sets up connections or checks that files exist; idempotent, never
    /// touches the records.  Fails with `StoreUnavailable` if the location
    /// is unusable.
    fn open(&mut self, path: &str) -> (r: Result<(), StoreError>)
        ensures
            final(self).contents() == old(self).contents(),
    ;

    /// Loads the client snapshot.  A store with no client record yields the
    /// default snapshot — a first run is not an error; an undecodable
    /// record is reported as `Corrupt`.
    fn load_client_state(&self, path: &str) -> (r: Result<ClientState, StoreError>)
        ensures
            self.contents().client is None ==> (r matches Ok(c) && c@ == default_client()),
            self.contents().client matches Some(b) ==> match parse_client(b) {
                Some(cm) => r matches Ok(c) && c@ == cm,
                None => r == Err::<ClientState, StoreError>(StoreError::Corrupt),
            },
    ;

    /// Loads one room's snapshot.  A room that was never persisted is
    /// `NotFound`, and nothing else is; an undecodable record is `Corrupt`.
    fn load_room_state(&self, path: &str, room_id: &RoomId) -> (r: Result<RoomState, StoreError>)
        ensures
            lookup_room(self.contents().rooms, room_id@) is None <==> r == Err::<
                RoomState,
                StoreError,
            >(StoreError::NotFound),
            lookup_room(self.contents().rooms, room_id@) matches Some(rec) ==> match parse_room(
                rec,
            ) {
                Some(rm) => r matches Ok(s) && s@ == rm,
                None => r == Err::<RoomState, StoreError>(StoreError::Corrupt),
            },
    ;

    /// Loads the snapshots of all persisted rooms, in store order: an empty
    /// store yields an empty list, never an error.
    fn load_all_rooms(&self, path: &str) -> (r: Result<Vec<RoomState>, StoreError>)
        ensures
            match decode_rooms(self.contents().rooms) {
                Some(ms) => r matches Ok(v) && room_states_view(v@) == ms,
                None => r == Err::<Vec<RoomState>, StoreError>(StoreError::Corrupt),
            },
    ;

    /// Replaces the client record with the snapshot's encoding, atomically:
    /// whatever happens, afterwards the store holds either the old record
    /// or the complete new one, and the room records are untouched.
    fn store_client_state(&mut self, path: &str, state: &ClientState) -> (r: Result<
        (),
        StoreError,
    >)
        ensures
            final(self).contents().rooms == old(self).contents().rooms,
            final(self).contents().client == old(self).contents().client
                || final(self).contents().client == Some(encode_client_model(state@)),
            r is Ok ==> final(self).contents().client == Some(encode_client_model(state@)),
    ;

    /// Replaces one room's record with the snapshot's encoding, atomically
    /// and independently: no other room's record changes.
    fn store_room_state(&mut self, path: &str, room: &RoomState) -> (r: Result<(), StoreError>)
        ensures
            final(self).contents().client == old(self).contents().client,
            room_update_ok(old(self).contents().rooms, final(self).contents().rooms, room@)
                || final(self).contents().rooms == old(self).contents().rooms,
            r is Ok ==> room_update_ok(
                old(self).contents().rooms,
                final(self).contents().rooms,
                room@,
            ),
    ;
}

/// The pairs of a concrete room table as byte strings.
pub open spec fn room_pairs_view(v: Seq<(Vec<u8>, Vec<u8>)>) -> Seq<(Seq<u8>, Seq<u8>)> {
    v.map_values(|p: (Vec<u8>, Vec<u8>)| (p.0@, p.1@))
}

/// An in-memory [`StateStore`]: the records live in this process, so every
/// operation is verified end to end.  The storage root is accepted and
/// ignored.
pub struct MemStore {
    client: Option<Vec<u8>>,
    rooms: Vec<(Vec<u8>, Vec<u8>)>,
}

impl View for MemStore {
    type V = StoreModel;

    closed spec fn view(&self) -> StoreModel {
        StoreModel {
            client: match self.client {
                Some(b) => Some(b@),
                None => None,
            },
            rooms: room_pairs_view(self.rooms@),
        }
    }
}

impl MemStore {
    /// A store holding nothing.
    pub fn new() -> (r: MemStore)
        ensures
            r@.client is None,
            r@.rooms == Seq::<(Seq<u8>, Seq<u8>)>::empty(),
    {
        let r = MemStore { client: None, rooms: Vec::new() };
        assert(r@.rooms =~= Seq::<(Seq<u8>, Seq<u8>)>::empty());
        r
    }
}

/// Skipping a matchless prefix does not change a lookup.
proof fn lemma_lookup_skip(rooms: Seq<(Seq<u8>, Seq<u8>)>, key: Seq<u8>, i: int)
    requires
        0 <= i <= rooms.len(),
        forall|j: int| 0 <= j < i ==> (#[trigger] rooms[j]).0 != key,
    ensures
        lookup_room(rooms, key) == lookup_room(rooms.skip(i), key),
    decreases i,
{
    if i == 0 {
        assert(rooms.skip(0) =~= rooms);
    } else {
        assert(rooms[0].0 != key);
        assert forall|j: int| 0 <= j < i - 1 implies (#[trigger] rooms.skip(1)[j]).0 != key by {
            assert(rooms.skip(1)[j] == rooms[j + 1]);
        }
        lemma_lookup_skip(rooms.skip(1), key, i - 1);
        assert(rooms.skip(1).skip(i - 1) =~= rooms.skip(i));
    }
}

/// Replacing the first record of a key in place changes that key's lookup
/// and no other.
proof fn lemma_lookup_update(
    rooms: Seq<(Seq<u8>, Seq<u8>)>,
    i: int,
    pair: (Seq<u8>, Seq<u8>),
    key: Seq<u8>,
)
    requires
        0 <= i < rooms.len(),
        rooms[i].0 == pair.0,
        forall|j: int| 0 <= j < i ==> (#[trigger] rooms[j]).0 != pair.0,
    ensures
        lookup_room(rooms.update(i, pair), pair.0) == Some(pair.1),
        key != pair.0 ==> lookup_room(rooms.update(i, pair), key) == lookup_room(rooms, key),
    decreases i,
{
    let upd = rooms.update(i, pair);
    if i == 0 {
        assert(upd[0] == pair);
        assert(upd.skip(1) =~= rooms.skip(1));
    } else {
        assert(upd[0] == rooms[0]);
        assert(rooms[0].0 != pair.0);
        assert forall|j: int| 0 <= j < i - 1 implies (#[trigger] rooms.skip(1)[j]).0 != pair.0 by {
            assert(rooms.skip(1)[j] == rooms[j + 1]);
        }
        lemma_lookup_update(rooms.skip(1), i - 1, pair, key);
        assert(upd.skip(1) =~= rooms.skip(1).update(i - 1, pair));
    }
}

/// Appending a record for a fresh key changes that key's lookup and no
/// other.
proof fn lemma_lookup_push(rooms: Seq<(Seq<u8>, Seq<u8>)>, pair: (Seq<u8>, Seq<u8>), key: Seq<u8>)
    requires
        lookup_room(rooms, pair.0) is None,
    ensures
        lookup_room(rooms.push(pair), pair.0) == Some(pair.1),
        key != pair.0 ==> lookup_room(rooms.push(pair), key) == lookup_room(rooms, key),
    decreases rooms.len(),
{
    let ext = rooms.push(pair);
    if rooms.len() == 0 {
        assert(ext[0] == pair);
        assert(ext.skip(1) =~= Seq::<(Seq<u8>, Seq<u8>)>::empty());
    } else {
        assert(ext[0] == rooms[0]);
        assert(rooms[0].0 != pair.0);
        lemma_lookup_push(rooms.skip(1), pair, key);
        assert(ext.skip(1) =~= rooms.skip(1).push(pair));
    }
}

impl StateStore for MemStore {
    open spec fn contents(&self) -> StoreModel {
        self@
    }

    fn open(&mut self, path: &str) -> (r: Result<(), StoreError>)
        ensures
            r is Ok,
    {
        Ok(())
    }

    fn load_client_state(&self, path: &str) -> (r: Result<ClientState, StoreError>) {
        match &self.client {
            None => Ok(ClientState::default()),
            Some(b) => match decode_client_state(b) {
                Some(c) => Ok(c),
                None => Err(StoreError::Corrupt),
            },
        }
    }

    #[verifier::loop_isolation(false)]
    fn load_room_state(&self, path: &str, room_id: &RoomId) -> (r: Result<
        RoomState,
        StoreError,
    >) {
        let ghost rooms = self@.rooms;
        let n = self.rooms.len();
        let mut i: usize = 0;
        while i < n
            invariant
                forall|j: int| 0 <= j < i ==> (#[trigger] rooms[j]).0 != room_id@,
                i <= n,
            decreases n - i,
        {
            if bytes_eq(&self.rooms[i].0, room_id.as_bytes()) {
                proof {
                    lemma_lookup_skip(rooms, room_id@, i as int);
                    assert(rooms.skip(i as int)[0] == rooms[i as int]);
                    assert(lookup_room(rooms, room_id@) == Some(rooms[i as int].1));
                }
                return match decode_room_state(&self.rooms[i].1) {
                    Some(s) => Ok(s),
                    None => Err(StoreError::Corrupt),
                };
            }
            i += 1;
        }
        proof {
            lemma_lookup_skip(rooms, room_id@, n as int);
            assert(rooms.skip(n as int) =~= Seq::<(Seq<u8>, Seq<u8>)>::empty());
        }
        Err(StoreError::NotFound)
    }

    #[verifier::loop_isolation(false)]
    fn load_all_rooms(&self, path: &str) -> (r: Result<Vec<RoomState>, StoreError>) {
        let ghost rooms = self@.rooms;
        let mut acc: Vec<RoomState> = Vec::new();
        let n = self.rooms.len();
        let mut i: usize = 0;
        proof {
            assert(rooms.skip(0) =~= rooms);
            assert(room_states_view(acc@) =~= Seq::<RoomModel>::empty());
            match decode_rooms(rooms) {
                Some(t) => {
                    assert(room_states_view(acc@) + t =~= t);
                },
                None => {
                },
            }
        }
        while i < n
            invariant
                i <= n,
                match decode_rooms(rooms.skip(i as int)) {
                    Some(t) => decode_rooms(rooms) == Some(room_states_view(acc@) + t),
                    None => decode_rooms(rooms) is None,
                },
            decreases n - i,
        {
            let ghost suffix = rooms.skip(i as int);
            proof {
                assert(suffix[0] == rooms[i as int]);
                assert(suffix.skip(1) =~= rooms.skip(i + 1 as int));
            }
            match decode_room_state(&self.rooms[i].1) {
                Some(s) => {
                    proof {
                        match decode_rooms(rooms.skip(i + 1 as int)) {
                            Some(t) => {
                                assert(decode_rooms(suffix) == Some(seq![s@] + t));
                                assert(room_states_view(acc@.push(s)) =~= room_states_view(acc@)
                                    + seq![s@]);
                                assert(room_states_view(acc@) + (seq![s@] + t) =~= (
                                room_states_view(acc@) + seq![s@]) + t);
                            },
                            None => {
                                assert(decode_rooms(suffix) is None);
                            },
                        }
                    }
                    acc.push(s);
                },
                None => {
                    assert(decode_rooms(suffix) is None);
                    return Err(StoreError::Corrupt);
                },
            }
            i += 1;
        }
        proof {
            assert(rooms.skip(n as int) =~= Seq::<(Seq<u8>, Seq<u8>)>::empty());
            assert(room_states_view(acc@) + Seq::<RoomModel>::empty() =~= room_states_view(acc@));
        }
        Ok(acc)
    }

    fn store_client_state(&mut self, path: &str, state: &ClientState) -> (r: Result<
        (),
        StoreError,
    >)
        ensures
            r is Ok,
    {
        self.client = Some(encode_client_state(state));
        Ok(())
    }

    #[verifier::loop_isolation(false)]
    fn store_room_state(&mut self, path: &str, room: &RoomState) -> (r: Result<(), StoreError>)
        ensures
            r is Ok,
    {
        let ghost rooms0 = self@.rooms;
        let record = encode_room_state(room);
        let key = copy_bytes(room.room_id.as_bytes());
        let ghost pair = (room@.room_id, encode_room_model(room@));
        let n = self.rooms.len();
        let mut i: usize = 0;
        while i < n
            invariant
                i <= n,
                self.rooms@ == old(self).rooms@,
                self.client == old(self).client,
                n == self.rooms@.len(),
                rooms0 == self@.rooms,
                forall|j: int| 0 <= j < i ==> (#[trigger] rooms0[j]).0 != room@.room_id,
            decreases n - i,
        {
            if bytes_eq(&self.rooms[i].0, room.room_id.as_bytes()) {
                self.rooms.remove(i);
                self.rooms.insert(i, (key, record));
                proof {
                    assert(self@.rooms =~= rooms0.update(i as int, pair));
                    lemma_lookup_skip(rooms0, room@.room_id, i as int);
                    assert(rooms0.skip(i as int)[0] == rooms0[i as int]);
                    assert(lookup_room(rooms0, room@.room_id) == Some(rooms0[i as int].1));
                    assert forall|k: Seq<u8>|
                        k != room@.room_id implies #[trigger] lookup_room(self@.rooms, k)
                        == lookup_room(rooms0, k) by {
                        lemma_lookup_update(rooms0, i as int, pair, k);
                    }
                    lemma_lookup_update(rooms0, i as int, pair, room@.room_id);
                }
                return Ok(());
            }
            i += 1;
        }
        self.rooms.push((key, record));
        proof {
            assert(self@.rooms =~= rooms0.push(pair));
            lemma_lookup_skip(rooms0, room@.room_id, n as int);
            assert(rooms0.skip(n as int) =~= Seq::<(Seq<u8>, Seq<u8>)>::empty());
            assert forall|k: Seq<u8>|
                k != room@.room_id implies #[trigger] lookup_room(self@.rooms, k) == lookup_room(
                rooms0,
                k,
            ) by {
                lemma_lookup_push(rooms0, pair, k);
            }
            lemma_lookup_push(rooms0, pair, room@.room_id);
        }
        Ok(())
    }
}

} // verus!
