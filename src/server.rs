//! Server side: what to do with a datagram from a client.
use vstd::prelude::*;
use crate::codec::{decode, encode, packet_bytes};
use crate::identity::NetworkIdSupplier;
use crate::network::{ClientInitialData, Error, ErrorKind, Input, PacketType, PacketView};
use crate::registry::{registered, ClientHandle, ClientRegistry};
use crate::transport::{Address, Delivery, Outgoing};

verus! {

/// What became of one datagram that reached the server.
#[derive(Debug)]
pub enum ServerEvent {
    /// A connection request, answered by this reply to its sender.
    Reply(Outgoing),
    /// The current input of a registered client.
    InputReceived { from: Address, input: Input },
    /// It holds no packet; it was dropped.
    Malformed,
    /// A packet that the server does not take, or input from an unknown address; ignored.
    Ignored,
}

/// The response to a connection request from `from`, as `try_register` decides it.
pub open spec fn connection_response(
    clients: Seq<ClientHandle>,
    last_issued: u64,
    from: Address,
) -> Result<ClientInitialData, Error> {
    if registered(clients, from) {
        Err(Error { error_kind: ErrorKind::AlreadyConnected })
    } else if last_issued == u64::MAX {
        Err(Error { error_kind: ErrorKind::Other })
    } else {
        Ok(ClientInitialData { player_network_id: (last_issued + 1) as u64 })
    }
}

/// Handles one datagram from `from`. A connection request registers its sender, or is
/// refused, and is answered reliably; input from a registered client is handed on; all
/// else changes nothing.
pub fn handle_client_message(
    registry: &mut ClientRegistry,
    ids: &mut NetworkIdSupplier,
    from: Address,
    bytes: &[u8],
) -> (r: ServerEvent)
    requires
        old(registry).wf(),
    ensures
        final(registry).wf(),
        (forall|q: PacketView| packet_bytes(q) != bytes@) ==> {
            &&& r is Malformed
            &&& final(registry)@ == old(registry)@
            &&& final(ids).last_issued() == old(ids).last_issued()
        },
        forall|name: Seq<char>|
            #[trigger] packet_bytes(PacketView::ConnectionRequest { player_name: name }) == bytes@
                ==> {
                let res = connection_response(old(registry)@, old(ids).last_issued(), from);
                &&& r is Reply
                &&& r->Reply_0.to == from
                &&& r->Reply_0.delivery == Delivery::ReliableOrdered
                &&& r->Reply_0.payload@ == packet_bytes(PacketView::ConnectionResponse(res))
                &&& res is Err ==> final(registry)@ == old(registry)@ && final(ids).last_issued()
                    == old(ids).last_issued()
                &&& res is Ok ==> {
                    &&& final(ids).last_issued() == res->Ok_0.player_network_id
                    &&& final(registry)@.len() == old(registry)@.len() + 1
                    &&& final(registry)@.drop_last() == old(registry)@
                    &&& final(registry)@.last().addr == from
                    &&& final(registry)@.last().network_id.id == res->Ok_0.player_network_id
                    &&& final(registry)@.last().player_name@ == name
                }
            },
        forall|input: Input|
            #[trigger] packet_bytes(PacketView::InputState { input }) == bytes@ ==> {
                &&& registered(old(registry)@, from) ==> r == (ServerEvent::InputReceived { from, input })
                &&& !registered(old(registry)@, from) ==> r is Ignored
                &&& final(registry)@ == old(registry)@
                &&& final(ids).last_issued() == old(ids).last_issued()
            },
        forall|q: PacketView|
            #[trigger] packet_bytes(q) == bytes@ && (q is ConnectionResponse || q is EntityStateUpdate)
                ==> {
                &&& r is Ignored
                &&& final(registry)@ == old(registry)@
                &&& final(ids).last_issued() == old(ids).last_issued()
            },
{
    match decode(bytes) {
        Err(_) => ServerEvent::Malformed,
        Ok(packet) => {
            proof {
                assert forall|q: PacketView| #[trigger] packet_bytes(q) == bytes@ implies q == packet@ by {
                    crate::codec::lemma_round_trip(packet@, q);
                }
            }
            match packet {
                PacketType::ConnectionRequest { player_name } => {
                    let result = match registry.try_register(from, player_name, ids) {
                        Ok(network_id) => Ok(ClientInitialData { player_network_id: network_id.id }),
                        Err(e) => Err(e),
                    };
                    let response = PacketType::ConnectionResponse(result);
                    ServerEvent::Reply(
                        Outgoing { to: from, payload: encode(&response), delivery: Delivery::ReliableOrdered },
                    )
                },
                PacketType::InputState { input } => {
                    if registry.find(from).is_some() {
                        ServerEvent::InputReceived { from, input }
                    } else {
                        ServerEvent::Ignored
                    }
                },
                _ => ServerEvent::Ignored,
            }
        },
    }
}

} // verus!
