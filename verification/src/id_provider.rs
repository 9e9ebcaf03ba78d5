use vstd::prelude::*;
use crate::node_id::{MetaNodeId, StagedNodeId};

verus! {

/// Hands out node and tree IDs from one increasing counter, so that no two
/// IDs it returns are ever equal.
pub struct IdProvider {
    next_id: usize,
}

impl IdProvider {
    /// The ID the next call will return.
    pub closed spec fn counter(&self) -> nat {
        self.next_id as nat
    }

    /// The counter never passes the largest `usize`.
    pub proof fn lemma_counter_bounded(&self)
        ensures
            self.counter() <= usize::MAX,
    {
    }

    pub fn new() -> (p: Self)
        ensures
            p.counter() == 0,
    {
        IdProvider { next_id: 0 }
    }

    /// The next ID, without handing it out.
    pub fn peek(&self) -> (n: usize)
        ensures
            n == self.counter(),
    {
        self.next_id
    }

    /// Hands out a fresh ID.
    pub fn next(&mut self) -> (id: usize)
        requires
            old(self).counter() < usize::MAX,
        ensures
            id == old(self).counter(),
            final(self).counter() == old(self).counter() + 1,
    {
        let id = self.next_id;
        self.next_id = self.next_id + 1;
        id
    }

    /// Hands out a fresh ID as a `MetaNodeId`.
    pub fn next_meta(&mut self) -> (id: MetaNodeId)
        requires
            old(self).counter() < usize::MAX,
        ensures
            id.0 == old(self).counter(),
            final(self).counter() == old(self).counter() + 1,
    {
        MetaNodeId(self.next())
    }

    /// Hands out a fresh ID as a `StagedNodeId`.
    pub fn next_staged(&mut self) -> (id: StagedNodeId)
        requires
            old(self).counter() < usize::MAX,
        ensures
            id.0 == old(self).counter(),
            final(self).counter() == old(self).counter() + 1,
    {
        StagedNodeId(self.next())
    }
}

} // verus!
