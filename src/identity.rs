//! Issuing network identities: a counter that only grows, so that no identity is issued
//! twice during the life of a server.
use vstd::prelude::*;
use crate::network::NetworkId;

verus! {

/// Issues network identities `1, 2, 3, ...` in order. Nothing is ever given back.
pub struct NetworkIdSupplier {
    last: u64,
}

impl NetworkIdSupplier {
    /// The identity issued last; zero while none has been issued.
    pub closed spec fn last_issued(&self) -> u64 {
        self.last
    }

    pub fn new() -> (r: NetworkIdSupplier)
        ensures
            r.last_issued() == 0,
    {
        NetworkIdSupplier { last: 0 }
    }

    /// Whether every identity has been issued.
    pub fn is_exhausted(&self) -> (r: bool)
        ensures
            r == (self.last_issued() == u64::MAX),
    {
        self.last == u64::MAX
    }

    /// Issues the identity after the last one.
    pub fn next(&mut self) -> (r: NetworkId)
        requires
            old(self).last_issued() < u64::MAX,
        ensures
            r.id == old(self).last_issued() + 1,
            final(self).last_issued() == r.id,
    {
        self.last = self.last + 1;
        NetworkId { id: self.last }
    }
}

/// Identities issued by consecutive calls of `next` strictly increase, so no two are equal.
/// `states[k]` is the supplier before the `k`-th call and `states[k + 1]` after it, and
/// `ids[k]` is what that call returned, as the contract of `next` relates them.
pub proof fn lemma_ids_strictly_increase(states: Seq<NetworkIdSupplier>, ids: Seq<NetworkId>)
    requires
        states.len() == ids.len() + 1,
        forall|k: int|
            0 <= k < ids.len() ==> #[trigger] ids[k].id == states[k].last_issued() + 1
                && states[k + 1].last_issued() == ids[k].id,
    ensures
        forall|i: int, j: int| 0 <= i < j < ids.len() ==> ids[i].id < ids[j].id,
{
    assert forall|i: int, j: int| 0 <= i < j < ids.len() implies ids[i].id < ids[j].id by {
        lemma_issued_below(states, ids, i, j);
    }
}

proof fn lemma_issued_below(states: Seq<NetworkIdSupplier>, ids: Seq<NetworkId>, i: int, j: int)
    requires
        states.len() == ids.len() + 1,
        forall|k: int|
            0 <= k < ids.len() ==> #[trigger] ids[k].id == states[k].last_issued() + 1
                && states[k + 1].last_issued() == ids[k].id,
        0 <= i < j < ids.len(),
    ensures
        ids[i].id < ids[j].id,
    decreases j - i,
{
    let _ = ids[j - 1].id;
    if j - 1 > i {
        lemma_issued_below(states, ids, i, j - 1);
    }
}

} // verus!
