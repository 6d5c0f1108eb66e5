//! What the protocol hands to the datagram transport.
use vstd::prelude::*;

verus! {

/// A peer's address: the IPv6 form of its IP address (IPv4 addresses mapped into it) and
/// its port.
#[derive(Clone, Copy, Debug, PartialEq, Eq, Structural, Hash)]
pub struct Address {
    pub ip: u128,
    pub port: u16,
}

/// How the transport is to deliver a message.
#[derive(Clone, Copy, Debug, PartialEq, Eq, Structural)]
pub enum Delivery {
    /// Retransmitted until acknowledged, and delivered in order: the handshake.
    ReliableOrdered,
    /// Sent once; a message older than one already delivered is dropped: per-tick state.
    UnreliableSequenced,
}

/// One message to send.
#[derive(Clone, Debug)]
pub struct Outgoing {
    pub to: Address,
    pub payload: Vec<u8>,
    pub delivery: Delivery,
}

} // verus!
