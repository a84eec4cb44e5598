//! Event hooks: a polymorphic capability the client calls as room state
//! changes arrive, with a no-op default for every callback, so an
//! implementor overrides only what it observes.

use vstd::prelude::*;
use crate::state::RoomState;

verus! {

/// One room state event, opaque to this boundary.
#[derive(Debug, PartialEq, Eq)]
pub struct RoomEvent {
    /// The event's serialized form.
    pub payload: Vec<u8>,
}

/// Receiver of room state changes.  Every callback defaults to doing
/// nothing.
pub trait EventEmitter {
    /// An event that renames the room.
    fn on_room_name(&mut self, _room: &RoomState, _event: &RoomEvent) {
    }

    /// Any event that alters the state of the room's members.
    fn on_room_member(&mut self, _room: &RoomState, _event: &RoomEvent) {
    }
}

} // verus!
