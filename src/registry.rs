//! The server's table of connected clients.
use vstd::prelude::*;
use crate::identity::NetworkIdSupplier;
use crate::network::{Error, ErrorKind, NetworkId};
use crate::transport::Address;

verus! {

/// A connected client: where it sends from, the identity it was given, and its name.
#[derive(Clone, Debug)]
pub struct ClientHandle {
    pub addr: Address,
    pub network_id: NetworkId,
    pub player_name: String,
}

/// Whether some entry of `s` has the address `a`.
pub open spec fn registered(s: Seq<ClientHandle>, a: Address) -> bool {
    exists|i: int| 0 <= i < s.len() && s[i].addr == a
}

/// No two entries share an address.
pub open spec fn addresses_unique(s: Seq<ClientHandle>) -> bool {
    forall|i: int, j: int| 0 <= i < s.len() && 0 <= j < s.len() && i != j ==> s[i].addr != s[j].addr
}

/// The connected clients, at most one entry per address, in the order they registered.
pub struct ClientRegistry {
    clients: Vec<ClientHandle>,
}

impl View for ClientRegistry {
    type V = Seq<ClientHandle>;

    closed spec fn view(&self) -> Seq<ClientHandle> {
        self.clients@
    }
}

impl ClientRegistry {
    pub open spec fn wf(&self) -> bool {
        addresses_unique(self@)
    }

    pub fn new() -> (r: ClientRegistry)
        ensures
            r@ == Seq::<ClientHandle>::empty(),
            r.wf(),
    {
        ClientRegistry { clients: Vec::new() }
    }

    /// The position of the entry with address `addr`, if there is one.
    pub fn find(&self, addr: Address) -> (r: Option<usize>)
        ensures
            match r {
                Some(i) => i < self@.len() && self@[i as int].addr == addr,
                None => !registered(self@, addr),
            },
    {
        let mut k: usize = 0;
        while k < self.clients.len()
            invariant
                k <= self@.len(),
                self@ == self.clients@,
                forall|j: int| 0 <= j < k ==> self@[j].addr != addr,
            decreases self@.len() - k,
        {
            if self.clients[k].addr == addr {
                return Some(k);
            }
            k = k + 1;
        }
        None
    }

    /// Registers a client that connects from `addr`, issuing it a fresh identity. A second
    /// registration from an address that is present fails with `AlreadyConnected`, and one
    /// when no identity is left fails with `Other`; neither changes anything.
    pub fn try_register(&mut self, addr: Address, player_name: String, ids: &mut NetworkIdSupplier)
        -> (r: Result<NetworkId, Error>)
        requires
            old(self).wf(),
        ensures
            final(self).wf(),
            registered(old(self)@, addr) ==> {
                &&& r == Err::<NetworkId, Error>(Error { error_kind: ErrorKind::AlreadyConnected })
                &&& final(self)@ == old(self)@
                &&& final(ids).last_issued() == old(ids).last_issued()
            },
            !registered(old(self)@, addr) && old(ids).last_issued() == u64::MAX ==> {
                &&& r == Err::<NetworkId, Error>(Error { error_kind: ErrorKind::Other })
                &&& final(self)@ == old(self)@
                &&& final(ids).last_issued() == old(ids).last_issued()
            },
            !registered(old(self)@, addr) && old(ids).last_issued() < u64::MAX ==> {
                &&& r is Ok
                &&& r->Ok_0.id == old(ids).last_issued() + 1
                &&& final(ids).last_issued() == r->Ok_0.id
                &&& final(self)@ == old(self)@.push(
                    ClientHandle { addr, network_id: r->Ok_0, player_name },
                )
                &&& registered(final(self)@, addr)
            },
    {
        if self.find(addr).is_some() {
            return Err(Error::new(ErrorKind::AlreadyConnected));
        }
        if ids.is_exhausted() {
            return Err(Error::new(ErrorKind::Other));
        }
        let network_id = ids.next();
        let ghost before = self@;
        self.clients.push(ClientHandle { addr, network_id, player_name });
        assert(forall|j: int| 0 <= j < before.len() ==> before[j].addr != addr);
        assert(self@[before.len() as int].addr == addr);
        Ok(network_id)
    }

    /// Removes the entry with address `addr`, if there is one.
    pub fn unregister(&mut self, addr: Address)
        requires
            old(self).wf(),
        ensures
            final(self).wf(),
            !registered(final(self)@, addr),
            !registered(old(self)@, addr) ==> final(self)@ == old(self)@,
            registered(old(self)@, addr) ==> exists|i: int|
                0 <= i < old(self)@.len() && old(self)@[i].addr == addr
                    && final(self)@ == old(self)@.remove(i),
    {
        match self.find(addr) {
            Some(i) => {
                let ghost before = self@;
                self.clients.remove(i);
                assert(self@ == before.remove(i as int));
                assert forall|j: int| 0 <= j < self@.len() implies self@[j].addr != addr by {
                    if j < i {
                        assert(self@[j] == before[j]);
                    } else {
                        assert(self@[j] == before[j + 1]);
                    }
                }
            },
            None => {},
        }
    }

    /// The addresses of the connected clients, in the order of the entries.
    pub fn get_clients(&self) -> (r: Vec<Address>)
        ensures
            r@ == self@.map_values(|h: ClientHandle| h.addr),
    {
        let mut out: Vec<Address> = Vec::new();
        let mut k: usize = 0;
        while k < self.clients.len()
            invariant
                k <= self@.len(),
                self@ == self.clients@,
                out@ == self@.subrange(0, k as int).map_values(|h: ClientHandle| h.addr),
            decreases self@.len() - k,
        {
            out.push(self.clients[k].addr);
            k = k + 1;
            assert(out@ =~= self@.subrange(0, k as int).map_values(|h: ClientHandle| h.addr));
        }
        assert(self@.subrange(0, k as int) =~= self@);
        out
    }

    /// The number of connected clients.
    pub fn client_count(&self) -> (r: usize)
        ensures
            r == self@.len(),
    {
        self.clients.len()
    }
}

/// Once a client has registered from `addr`, the address is present, which is the case in
/// which a further `try_register` from `addr`, under any name, fails with `AlreadyConnected`
/// and leaves the registry as it was.
pub proof fn lemma_registration_exclusive(
    before: Seq<ClientHandle>,
    addr: Address,
    network_id: NetworkId,
    player_name: String,
)
    ensures
        registered(before.push(ClientHandle { addr, network_id, player_name }), addr),
{
    let after = before.push(ClientHandle { addr, network_id, player_name });
    assert(after[before.len() as int].addr == addr);
}

} // verus!
