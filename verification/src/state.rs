//! Durable client-side state: the session credential bundle, the client-wide
//! snapshot and the per-room snapshot, together with their mathematical
//! models.

use vstd::prelude::*;
use crate::ids::{UserId, RoomId, valid_user_id, valid_room_id};
use crate::text::copy_bytes;

verus! {

/// Model of a [`Session`]: the three credential byte strings.
pub struct SessionModel {
    pub user_id: Seq<u8>,
    pub device_id: Seq<u8>,
    pub access_token: Seq<u8>,
}

/// Model of a [`ClientState`].
pub struct ClientModel {
    pub session: Option<SessionModel>,
    pub sync_token: Option<Seq<u8>>,
    pub ignored_users: Seq<Seq<u8>>,
    pub push_ruleset: Option<Seq<u8>>,
}

/// Model of a [`RoomState`].
pub struct RoomModel {
    pub room_id: Seq<u8>,
    pub data: Seq<u8>,
}

/// A session is well formed when its user identifier is well shaped; the
/// device identifier and access token are arbitrary byte strings.
pub open spec fn valid_session(s: SessionModel) -> bool {
    valid_user_id(s.user_id)
}

/// A client snapshot is well formed when every identifier in it is well
/// shaped — what the identifier constructors guarantee.  These are exactly
/// the values whose persisted encoding decodes back to them; the token,
/// ruleset and payload fields may hold any bytes.
pub open spec fn valid_client(c: ClientModel) -> bool {
    &&& (c.session matches Some(s) ==> valid_session(s))
    &&& (forall|i: int| 0 <= i < c.ignored_users.len() ==> valid_user_id(#[trigger] c.ignored_users[i]))
}

/// A room snapshot is well formed when its identifier is well shaped; the
/// payload may hold any bytes.
pub open spec fn valid_room(r: RoomModel) -> bool {
    valid_room_id(r.room_id)
}

/// The default client snapshot: what a first run starts from.
pub open spec fn default_client() -> ClientModel {
    ClientModel {
        session: None,
        sync_token: None,
        ignored_users: Seq::empty(),
        push_ruleset: None,
    }
}

/// The view of a sequence of user identifiers: their byte strings, in order.
pub open spec fn user_ids_view(v: Seq<UserId>) -> Seq<Seq<u8>> {
    v.map_values(|u: UserId| u@)
}

/// User identity plus access credential, issued at login and immutable until
/// logout; transports read it to build authorization headers.
#[derive(Debug, PartialEq, Eq)]
pub struct Session {
    /// The identifier of the logged-in user.
    pub user_id: UserId,
    /// The identifier of this device.
    pub device_id: Vec<u8>,
    /// The opaque access credential.
    pub access_token: Vec<u8>,
}

impl View for Session {
    type V = SessionModel;

    open spec fn view(&self) -> SessionModel {
        SessionModel {
            user_id: self.user_id@,
            device_id: self.device_id@,
            access_token: self.access_token@,
        }
    }
}

impl Clone for Session {
    fn clone(&self) -> (r: Self)
        ensures
            r@ == self@,
    {
        Session {
            user_id: self.user_id.clone(),
            device_id: copy_bytes(&self.device_id),
            access_token: copy_bytes(&self.access_token),
        }
    }
}

/// The push ruleset of the logged-in user; opaque to this boundary, carried
/// as one serialized unit.
#[derive(Debug, PartialEq, Eq)]
pub struct Ruleset {
    /// The serialized ruleset text.
    pub raw: Vec<u8>,
}

impl View for Ruleset {
    type V = Seq<u8>;

    open spec fn view(&self) -> Seq<u8> {
        self.raw@
    }
}

impl Clone for Ruleset {
    fn clone(&self) -> (r: Self)
        ensures
            r@ == self@,
    {
        Ruleset { raw: copy_bytes(&self.raw) }
    }
}

/// The durable snapshot of client-wide state.
#[derive(Debug, PartialEq, Eq)]
pub struct ClientState {
    /// The current client session containing our user id, device id and
    /// access token.
    pub session: Option<Session>,
    /// The current sync token that should be used for the next sync call;
    /// absent means "start from scratch".
    pub sync_token: Option<Vec<u8>>,
    /// A list of ignored users, in insertion order.
    pub ignored_users: Vec<UserId>,
    /// The push ruleset for the logged in user.
    pub push_ruleset: Option<Ruleset>,
}

impl View for ClientState {
    type V = ClientModel;

    open spec fn view(&self) -> ClientModel {
        ClientModel {
            session: match self.session {
                Some(s) => Some(s@),
                None => None,
            },
            sync_token: match self.sync_token {
                Some(t) => Some(t@),
                None => None,
            },
            ignored_users: user_ids_view(self.ignored_users@),
            push_ruleset: match self.push_ruleset {
                Some(r) => Some(r@),
                None => None,
            },
        }
    }
}

impl Default for ClientState {
    /// The empty snapshot of a first run.
    fn default() -> (r: Self)
        ensures
            r@ == default_client(),
    {
        let r = ClientState {
            session: None,
            sync_token: None,
            ignored_users: Vec::new(),
            push_ruleset: None,
        };
        assert(r@.ignored_users =~= default_client().ignored_users);
        r
    }
}

impl ClientState {
    /// Projects the durable snapshot out of the full client, touching only
    /// the fields the snapshot needs.
    pub fn from_base_client(client: &BaseClient) -> (r: ClientState)
        ensures
            r@ == client@,
    {
        let session = match &client.session {
            Some(s) => Some(s.clone()),
            None => None,
        };
        let sync_token = match &client.sync_token {
            Some(t) => Some(copy_bytes(t)),
            None => None,
        };
        let push_ruleset = match &client.push_ruleset {
            Some(p) => Some(p.clone()),
            None => None,
        };
        let r = ClientState {
            session,
            sync_token,
            ignored_users: copy_user_ids(&client.ignored_users),
            push_ruleset,
        };
        assert(r@.ignored_users =~= client@.ignored_users);
        r
    }
}

/// The per-room snapshot: one atomic serializable unit keyed by the room's
/// identifier.  A tombstoned room keeps its terminal record here.
#[derive(Debug, PartialEq, Eq)]
pub struct RoomState {
    /// The room this record belongs to.
    pub room_id: RoomId,
    /// The room's serialized state, opaque to this boundary.
    pub data: Vec<u8>,
}

impl View for RoomState {
    type V = RoomModel;

    open spec fn view(&self) -> RoomModel {
        RoomModel { room_id: self.room_id@, data: self.data@ }
    }
}

impl Clone for RoomState {
    fn clone(&self) -> (r: Self)
        ensures
            r@ == self@,
    {
        RoomState { room_id: self.room_id.clone(), data: copy_bytes(&self.data) }
    }
}

/// The client-side fields that the durable snapshot is projected from.  The
/// full client owns more (transport, event emitter, room caches); the
/// snapshot reads exactly these.
pub struct BaseClient {
    /// The current session, if logged in.
    pub session: Option<Session>,
    /// The cursor into the server's event history.
    pub sync_token: Option<Vec<u8>>,
    /// Users whose events the client drops, in insertion order.
    pub ignored_users: Vec<UserId>,
    /// The user's push ruleset, if one was synced.
    pub push_ruleset: Option<Ruleset>,
}

impl View for BaseClient {
    type V = ClientModel;

    open spec fn view(&self) -> ClientModel {
        ClientModel {
            session: match self.session {
                Some(s) => Some(s@),
                None => None,
            },
            sync_token: match self.sync_token {
                Some(t) => Some(t@),
                None => None,
            },
            ignored_users: user_ids_view(self.ignored_users@),
            push_ruleset: match self.push_ruleset {
                Some(r) => Some(r@),
                None => None,
            },
        }
    }
}

/// Element-wise copy of a user-identifier list.
fn copy_user_ids(v: &Vec<UserId>) -> (r: Vec<UserId>)
    ensures
        user_ids_view(r@) == user_ids_view(v@),
{
    let n = v.len();
    let mut out: Vec<UserId> = Vec::new();
    let mut i: usize = 0;
    while i < n
        invariant
            n == v@.len(),
            0 <= i <= n,
            out@.len() == i,
            forall|j: int| 0 <= j < i ==> out@[j]@ == v@[j]@,
        decreases n - i,
    {
        out.push(v[i].clone());
        i += 1;
    }
    assert(user_ids_view(out@) =~= user_ids_view(v@));
    out
}

} // verus!
