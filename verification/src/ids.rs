//! The id allocator: a strictly increasing sequence of unique identifiers,
//! backed by a single durable counter that holds the last issued value.

use vstd::prelude::*;
use crate::stable::cell_get;
use crate::stable::cell_set;
use crate::stable::cell_value;
use crate::stable::StableU64Cell;

verus! {

/// Produces identifiers by incrementing a durable counter.
pub struct IdAllocator {
    cell: StableU64Cell,
}

impl IdAllocator {
    /// The last issued identifier (0 before any issuance).
    pub closed spec fn last(&self) -> u64 {
        cell_value(self.cell)
    }

    /// Wrap a durable cell; the last issued id is whatever the cell holds —
    /// zero for a fresh cell, the persisted value for a reloaded one.
    pub fn new(cell: StableU64Cell) -> (a: Self)
        ensures
            a.last() == cell_value(cell),
    {
        IdAllocator { cell }
    }

    /// The last issued identifier, read back from the durable cell.
    pub fn last_issued(&self) -> (id: u64)
        ensures
            id == self.last(),
    {
        cell_get(&self.cell)
    }

    /// Increment the durable counter by one and return the new value; no two
    /// calls ever return the same value.
    pub fn allocate(&mut self) -> (id: u64)
        requires
            old(self).last() < u64::MAX,
        ensures
            final(self).last() == old(self).last() + 1,
            id == old(self).last() + 1,
    {
        let cur = cell_get(&self.cell);
        let next = cur + 1;
        cell_set(&mut self.cell, next);
        next
    }
}

} // verus!
