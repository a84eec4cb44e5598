//! User and room identifiers: opaque byte strings with a sigil-and-server
//! shape, validated once on construction.

use vstd::prelude::*;
use vstd::string::StrSliceExecFns;
use vstd::string::StringSliceAdditionalSpecFns;
use crate::text::{valid_text, has_byte_between, is_valid_text, find_byte_between, copy_bytes};

verus! {

/// Shape required of a user identifier: a `@` sigil, a non-empty local part,
/// a `:` separator and a non-empty server part, all plain text.
pub open spec fn valid_user_id(s: Seq<u8>) -> bool {
    &&& s.len() >= 4
    &&& s[0] == 64
    &&& has_byte_between(s, 2, s.len() - 1, 58)
    &&& valid_text(s)
}

/// Shape required of a room identifier: as a user identifier, with a `!`
/// sigil.
pub open spec fn valid_room_id(s: Seq<u8>) -> bool {
    &&& s.len() >= 4
    &&& s[0] == 33
    &&& has_byte_between(s, 2, s.len() - 1, 58)
    &&& valid_text(s)
}

/// The identifier of a user, e.g. `@example:example.com`.
#[derive(Debug, PartialEq, Eq)]
pub struct UserId {
    bytes: Vec<u8>,
}

impl View for UserId {
    type V = Seq<u8>;

    closed spec fn view(&self) -> Seq<u8> {
        self.bytes@
    }
}

impl Clone for UserId {
    fn clone(&self) -> (r: Self)
        ensures
            r@ == self@,
    {
        UserId { bytes: copy_bytes(&self.bytes) }
    }
}

impl UserId {
    /// Accepts exactly the byte strings of a well-shaped user identifier.
    pub fn new(bytes: Vec<u8>) -> (r: Option<UserId>)
        ensures
            r is Some <==> valid_user_id(bytes@),
            r matches Some(u) ==> u@ == bytes@,
    {
        if check_user_id_shape(&bytes, 64) {
            Some(UserId { bytes })
        } else {
            None
        }
    }

    /// Parses a user identifier from string text.
    pub fn parse(s: &str) -> (r: Option<UserId>)
        ensures
            r is Some <==> valid_user_id(s.spec_bytes()),
            r matches Some(u) ==> u@ == s.spec_bytes(),
    {
        UserId::new(s.as_bytes_vec())
    }

    /// The identifier's bytes.
    pub fn as_bytes(&self) -> (r: &Vec<u8>)
        ensures
            r@ == self@,
    {
        &self.bytes
    }
}

/// The identifier of a room, e.g. `!roomid:example.com`.
#[derive(Debug, PartialEq, Eq)]
pub struct RoomId {
    bytes: Vec<u8>,
}

impl View for RoomId {
    type V = Seq<u8>;

    closed spec fn view(&self) -> Seq<u8> {
        self.bytes@
    }
}

impl Clone for RoomId {
    fn clone(&self) -> (r: Self)
        ensures
            r@ == self@,
    {
        RoomId { bytes: copy_bytes(&self.bytes) }
    }
}

impl RoomId {
    /// Accepts exactly the byte strings of a well-shaped room identifier.
    pub fn new(bytes: Vec<u8>) -> (r: Option<RoomId>)
        ensures
            r is Some <==> valid_room_id(bytes@),
            r matches Some(u) ==> u@ == bytes@,
    {
        if check_user_id_shape(&bytes, 33) {
            Some(RoomId { bytes })
        } else {
            None
        }
    }

    /// Parses a room identifier from string text.
    pub fn parse(s: &str) -> (r: Option<RoomId>)
        ensures
            r is Some <==> valid_room_id(s.spec_bytes()),
            r matches Some(u) ==> u@ == s.spec_bytes(),
    {
        RoomId::new(s.as_bytes_vec())
    }

    /// The identifier's bytes.
    pub fn as_bytes(&self) -> (r: &Vec<u8>)
        ensures
            r@ == self@,
    {
        &self.bytes
    }
}

/// Common shape check behind both identifier kinds, parametrised by the
/// sigil byte.
fn check_user_id_shape(bytes: &Vec<u8>, sigil: u8) -> (r: bool)
    ensures
        r == (bytes@.len() >= 4 && bytes@[0] == sigil && has_byte_between(
            bytes@,
            2,
            bytes@.len() - 1,
            58,
        ) && valid_text(bytes@)),
{
    if bytes.len() < 4 {
        return false;
    }
    if bytes[0] != sigil {
        return false;
    }
    if !find_byte_between(bytes, 2, bytes.len() - 1, 58) {
        return false;
    }
    is_valid_text(bytes)
}

} // verus!
