//! Transport and persistence boundary of a chat-protocol client.
//!
//! The crate models the two seams of such a client that have to stay stable
//! while backends change: executing one request/response exchange over a
//! pluggable transport (a direct network call or a relayed channel fed by an
//! external peer process), and persisting client, session and room snapshots
//! between process restarts.
//!
//! All identifiers, tokens and payloads are byte strings: transports and the
//! store never interpret them.  The persisted snapshot encoding is a small
//! JSON-shaped text format whose encoder and decoder are verified to be
//! mutual inverses on every well-formed snapshot.

pub mod codec;
pub mod emitter;
pub mod ids;
pub mod roundtrip;
pub mod router;
pub mod state;
pub mod store;
pub mod text;
pub mod transport;
