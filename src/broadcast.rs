//! Server side, each tick: the state of every network-visible entity, sent to every client.
use vstd::prelude::*;
use crate::codec::{encode, packet_bytes};
use crate::network::{EntityState, PacketType, PacketView};
use crate::registry::{ClientHandle, ClientRegistry};
use crate::transport::{Delivery, Outgoing};

verus! {

/// Sends the transform of every entity that has a network identity to every connected
/// client, one message per entity and client.
pub struct EntityStateBroadcasterSystem;

/// The message that carries `e` to the client at position `j` of the registry.
pub open spec fn state_message_for(o: Outgoing, clients: Seq<ClientHandle>, j: int, e: EntityState) -> bool {
    &&& o.to == clients[j].addr
    &&& o.payload@ == packet_bytes(PacketView::EntityStateUpdate(e))
    &&& o.delivery == Delivery::UnreliableSequenced
}

impl EntityStateBroadcasterSystem {
    /// The messages of one tick: for entity `i` and client `j`, the message at `i * n + j`,
    /// where `n` is the number of clients, carries the state of entity `i` to client `j`,
    /// unreliable and sequenced.
    pub fn run(&self, registry: &ClientRegistry, entities: &Vec<EntityState>) -> (r: Vec<Outgoing>)
        requires
            entities@.len() * registry@.len() <= usize::MAX,
        ensures
            r@.len() == entities@.len() * registry@.len(),
            forall|i: int, j: int|
                0 <= i < entities@.len() && 0 <= j < registry@.len() ==> #[trigger] state_message_for(
                    r@[i * registry@.len() + j],
                    registry@,
                    j,
                    entities@[i],
                ),
    {
        let clients = registry.get_clients();
        let ghost nc = registry@.len() as int;
        let mut out: Vec<Outgoing> = Vec::new();
        let mut i: usize = 0;
        while i < entities.len()
            invariant
                i <= entities@.len(),
                clients@.len() == nc,
                nc == registry@.len(),
                forall|j: int| 0 <= j < nc ==> clients@[j] == registry@[j].addr,
                entities@.len() * nc <= usize::MAX,
                out@.len() == i * nc,
                forall|a: int, j: int|
                    0 <= a < i && 0 <= j < nc ==> #[trigger] state_message_for(
                        out@[a * nc + j],
                        registry@,
                        j,
                        entities@[a],
                    ),
            decreases entities@.len() - i,
        {
            let packet = PacketType::EntityStateUpdate(entities[i]);
            assert((i + 1) * nc <= entities@.len() * nc) by (nonlinear_arith)
                requires
                    i < entities@.len(),
                    nc >= 0,
            ;
            let mut k: usize = 0;
            let ghost start = out@;
            while k < clients.len()
                invariant
                    i < entities@.len(),
                    k <= nc,
                    clients@.len() == nc,
                    forall|j: int| 0 <= j < nc ==> clients@[j] == registry@[j].addr,
                    packet@ == PacketView::EntityStateUpdate(entities@[i as int]),
                    start.len() == i * nc,
                    out@.len() == i * nc + k,
                    forall|m: int| 0 <= m < start.len() ==> out@[m] == start[m],
                    forall|j: int|
                        0 <= j < k ==> #[trigger] state_message_for(
                            out@[i * nc + j],
                            registry@,
                            j,
                            entities@[i as int],
                        ),
                    (i + 1) * nc <= entities@.len() * nc,
                    entities@.len() * nc <= usize::MAX,
                decreases nc - k,
            {
                assert(i * nc + k < (i + 1) * nc) by (nonlinear_arith)
                    requires
                        k < nc,
                ;
                out.push(Outgoing {
                    to: clients[k],
                    payload: encode(&packet),
                    delivery: Delivery::UnreliableSequenced,
                });
                k = k + 1;
            }
            assert forall|a: int, j: int|
                0 <= a < i + 1 && 0 <= j < nc implies #[trigger] state_message_for(
                out@[a * nc + j],
                registry@,
                j,
                entities@[a],
            ) by {
                if a < i {
                    assert(a * nc + j < i * nc) by (nonlinear_arith)
                        requires
                            0 <= a < i,
                            0 <= j < nc,
                    ;
                    assert(out@[a * nc + j] == start[a * nc + j]);
                }
            }
            assert((i + 1) * nc == i * nc + nc) by (nonlinear_arith);
            i = i + 1;
        }
        out
    }
}

} // verus!
