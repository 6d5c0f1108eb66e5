//! Client side: the connection handshake, from first request to the server's answer.
use vstd::prelude::*;
use crate::codec::{decode, encode, packet_bytes};
use crate::network::{ClientInitialData, Error, Input, PacketType, PacketView};
use crate::transport::{Address, Delivery, Outgoing};

verus! {

/// Milliseconds between two connection requests while no answer has come.
pub const RETRY_INTERVAL_MS: u64 = 1000;

/// Where the client stands in the handshake.
#[derive(Clone, Copy, Debug, PartialEq, Eq, Structural)]
pub enum HandshakeState {
    Disconnected,
    AwaitingResponse,
    Connected { player_network_id: u64 },
    Rejected { error: Error },
}

/// Whether the client still asks to be let in.
pub open spec fn is_connecting(s: HandshakeState) -> bool {
    s is Disconnected || s is AwaitingResponse
}

/// The state that a connection response leads to.
pub open spec fn state_after_response(r: Result<ClientInitialData, Error>) -> HandshakeState {
    match r {
        Ok(d) => HandshakeState::Connected { player_network_id: d.player_network_id },
        Err(e) => HandshakeState::Rejected { error: e },
    }
}

/// What became of one incoming datagram.
#[derive(Debug, PartialEq, Eq)]
pub enum ClientEvent {
    /// The server answered the connection request; the handshake is over.
    Connection(Result<ClientInitialData, Error>),
    /// It came from another address than the server's; it was ignored.
    UnexpectedSender,
    /// It holds no packet; it was dropped.
    Malformed,
    /// A packet that the handshake does not wait for; it was ignored.
    Ignored,
}

/// Drives the handshake of a client with the server at `server`.
pub struct ClientConnectSystem {
    pub server: Address,
    pub player_name: String,
    /// When the last request went out, in milliseconds since start.
    pub last_run_ms: u64,
    pub state: HandshakeState,
}

impl ClientConnectSystem {
    pub fn new(server: Address, player_name: String) -> (r: ClientConnectSystem)
        ensures
            r.server == server,
            r.player_name == player_name,
            r.last_run_ms == 0,
            r.state == HandshakeState::Disconnected,
    {
        ClientConnectSystem { server, player_name, last_run_ms: 0, state: HandshakeState::Disconnected }
    }

    /// Called each tick with the time since start. While the handshake is open and the
    /// retry interval has passed since the last request, a new request goes out, reliable
    /// and ordered; otherwise nothing is sent and nothing changes.
    pub fn on_tick(&mut self, now_ms: u64) -> (r: Option<Outgoing>)
        ensures
            is_connecting(old(self).state) && now_ms >= old(self).last_run_ms + RETRY_INTERVAL_MS
                ==> {
                &&& r is Some
                &&& r->Some_0.to == old(self).server
                &&& r->Some_0.payload@ == packet_bytes(
                    PacketView::ConnectionRequest { player_name: old(self).player_name@ },
                )
                &&& r->Some_0.delivery == Delivery::ReliableOrdered
                &&& final(self).state == HandshakeState::AwaitingResponse
                &&& final(self).last_run_ms == now_ms
                &&& final(self).server == old(self).server
                &&& final(self).player_name == old(self).player_name
            },
            !(is_connecting(old(self).state) && now_ms >= old(self).last_run_ms + RETRY_INTERVAL_MS)
                ==> r is None && *final(self) == *old(self),
    {
        let connecting = match self.state {
            HandshakeState::Disconnected | HandshakeState::AwaitingResponse => true,
            _ => false,
        };
        if connecting && now_ms >= self.last_run_ms && now_ms - self.last_run_ms >= RETRY_INTERVAL_MS {
            self.last_run_ms = now_ms;
            self.state = HandshakeState::AwaitingResponse;
            let request = PacketType::ConnectionRequest { player_name: self.player_name.clone() };
            Some(Outgoing { to: self.server, payload: encode(&request), delivery: Delivery::ReliableOrdered })
        } else {
            None
        }
    }

    /// Called with each datagram that arrives. Only the server's answer to the connection
    /// request, while the handshake is open, changes the state; everything else is
    /// reported and ignored.
    pub fn on_message(&mut self, from: Address, bytes: &[u8]) -> (r: ClientEvent)
        ensures
            from != old(self).server ==> r == ClientEvent::UnexpectedSender && *final(self) == *old(self),
            from == old(self).server && (forall|q: PacketView| packet_bytes(q) != bytes@) ==> r
                == ClientEvent::Malformed && *final(self) == *old(self),
            forall|res: Result<ClientInitialData, Error>|
                from == old(self).server && is_connecting(old(self).state) && #[trigger] packet_bytes(
                    PacketView::ConnectionResponse(res),
                ) == bytes@ ==> {
                    &&& r == ClientEvent::Connection(res)
                    &&& final(self).state == state_after_response(res)
                    &&& final(self).server == old(self).server
                    &&& final(self).player_name == old(self).player_name
                    &&& final(self).last_run_ms == old(self).last_run_ms
                },
            forall|q: PacketView|
                from == old(self).server && #[trigger] packet_bytes(q) == bytes@ && !(is_connecting(
                    old(self).state,
                ) && q is ConnectionResponse) ==> r == ClientEvent::Ignored && *final(self) == *old(
                    self,
                ),
    {
        if from != self.server {
            return ClientEvent::UnexpectedSender;
        }
        let connecting = match self.state {
            HandshakeState::Disconnected | HandshakeState::AwaitingResponse => true,
            _ => false,
        };
        match decode(bytes) {
            Err(_) => ClientEvent::Malformed,
            Ok(packet) => {
                proof {
                    assert forall|q: PacketView| #[trigger] packet_bytes(q) == bytes@ implies q == packet@ by {
                        crate::codec::lemma_round_trip(packet@, q);
                    }
                }
                match packet {
                    PacketType::ConnectionResponse(res) => {
                        if connecting {
                            self.state = match res {
                                Ok(d) => HandshakeState::Connected { player_network_id: d.player_network_id },
                                Err(e) => HandshakeState::Rejected { error: e },
                            };
                            ClientEvent::Connection(res)
                        } else {
                            ClientEvent::Ignored
                        }
                    },
                    _ => ClientEvent::Ignored,
                }
            },
        }
    }
}

/// Once a connection response has been taken the handshake is closed for good: in the state
/// it leads to, `on_tick` sends no request and `on_message` changes nothing.
pub proof fn lemma_closed_after_response(res: Result<ClientInitialData, Error>)
    ensures
        !is_connecting(state_after_response(res)),
{
}

/// The message that carries this tick's input to the server: unreliable and sequenced, since
/// a fresher one follows within a tick.
pub fn input_state_message(server: Address, input: Input) -> (r: Outgoing)
    ensures
        r.to == server,
        r.payload@ == packet_bytes(PacketView::InputState { input }),
        r.delivery == Delivery::UnreliableSequenced,
{
    Outgoing { to: server, payload: encode(&PacketType::InputState { input }), delivery: Delivery::UnreliableSequenced }
}

} // verus!
