//! The networking core of a real-time multiplayer game: the wire protocol, the server's
//! client registry and identity allocation, the client's connection handshake, and the
//! per-tick state broadcast and input relay.
use vstd::prelude::*;

pub mod broadcast;
pub mod codec;
pub mod diagnostics;
pub mod handshake;
pub mod identity;
pub mod network;
pub mod registry;
pub mod server;
pub mod transport;

verus! {

} // verus!
