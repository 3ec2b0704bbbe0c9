//! Entity mapping layer: the per-client translation table from
//! server-assigned entity identifiers to this client's local entity
//! identifiers.
//!
//! It is owned by one client process, consulted on every snapshot row and
//! mutated only by the client reconciliation loop.

use vstd::prelude::*;

use crate::registry::IdMap;

verus! {

/// Translation table from server entity identifiers to local ones.
pub struct NetworkMapping {
    map: IdMap<u64>,
}

impl View for NetworkMapping {
    type V = Map<u64, u64>;

    /// The represented map: server entity identifier to local entity
    /// identifier.
    closed spec fn view(&self) -> Map<u64, u64> {
        self.map.as_map()
    }
}

impl NetworkMapping {
    /// The table's keys are unique.
    pub closed spec fn wf(&self) -> bool {
        self.map.wf()
    }

    /// An empty table.
    pub fn new() -> (r: NetworkMapping)
        ensures
            r@ == Map::<u64, u64>::empty(),
            r.wf(),
    {
        NetworkMapping { map: IdMap::new() }
    }

    /// Number of mappings.
    pub fn len(&self) -> (r: usize)
        requires
            self.wf(),
        ensures
            r == self@.dom().len(),
    {
        proof {
            crate::registry::lemma_as_map_len(self.map@);
        }
        self.map.len()
    }

    /// Records a new mapping.  An already-mapped server identifier is left
    /// untouched — the caller is expected to check first; the result says
    /// whether the mapping was recorded.
    pub fn record(&mut self, server_id: u64, client_id: u64) -> (r: bool)
        requires
            old(self).wf(),
        ensures
            final(self).wf(),
            r == !old(self)@.contains_key(server_id),
            final(self)@ == if r {
                old(self)@.insert(server_id, client_id)
            } else {
                old(self)@
            },
    {
        if self.map.contains(server_id) {
            false
        } else {
            self.map.insert(server_id, client_id);
            true
        }
    }

    /// Read-only lookup used during snapshot application; `None` means the
    /// server entity is not yet known here, and the caller skips the row.
    pub fn resolve(&self, server_id: u64) -> (r: Option<u64>)
        requires
            self.wf(),
        ensures
            match r {
                Some(c) => self@.contains_key(server_id) && self@[server_id] == c,
                None => !self@.contains_key(server_id),
            },
    {
        match self.map.get(server_id) {
            Some(c) => Some(*c),
            None => None,
        }
    }

    /// Erases a mapping; a missing key is a no-op.
    pub fn erase(&mut self, server_id: u64)
        requires
            old(self).wf(),
        ensures
            final(self).wf(),
            final(self)@ == old(self)@.remove(server_id),
    {
        let _ = self.map.remove(server_id);
    }
}

} // verus!
