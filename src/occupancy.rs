//! Which agent holds which cell, and which cells were claimed during the
//! current tick.
use vstd::prelude::*;
use std::collections::HashMap;
use vstd::std_specs::hash::group_hash_axioms;
use crate::grid::GridPosition;
use crate::spatial_index::{CellSet, cell_key, key_of, lemma_cell_key_injective};

verus! {

broadcast use group_hash_axioms;

pub struct OccupancyTable {
    /// Occupancy markers: cell key to the agent holding the cell.
    markers: HashMap<i128, usize>,
    /// Cells claimed as a next step during the current tick.
    claimed: CellSet,
}

impl OccupancyTable {
    /// The agent whose marker is on `p`.
    pub closed spec fn owner(&self, p: GridPosition) -> Option<usize> {
        if self.markers@.contains_key(cell_key(p.x as int, p.y as int) as i128) {
            Some(self.markers@[cell_key(p.x as int, p.y as int) as i128])
        } else {
            None
        }
    }

    /// Whether `p` was claimed during the current tick.
    pub closed spec fn claimed_now(&self, p: GridPosition) -> bool {
        self.claimed.contains_spec(p)
    }

    pub fn new() -> (r: OccupancyTable)
        ensures
            forall|p: GridPosition| (#[trigger] r.owner(p)).is_none(),
            forall|p: GridPosition| !(#[trigger] r.claimed_now(p)),
    {
        OccupancyTable { markers: HashMap::new(), claimed: CellSet::new() }
    }

    /// Forgets the claims of the previous tick; the markers stay.
    pub fn begin_tick(&mut self)
        ensures
            forall|p: GridPosition| #[trigger] final(self).owner(p) == old(self).owner(p),
            forall|p: GridPosition| !(#[trigger] final(self).claimed_now(p)),
    {
        self.claimed = CellSet::new();
    }

    pub fn owner_of(&self, p: &GridPosition) -> (r: Option<usize>)
        ensures
            r == self.owner(*p),
    {
        match self.markers.get(&key_of(p.x, p.y)) {
            Some(a) => Some(*a),
            None => None,
        }
    }

    /// Whether some agent's marker is on `p`.
    pub fn is_occupied(&self, p: &GridPosition) -> (r: bool)
        ensures
            r == self.owner(*p).is_some(),
    {
        self.markers.contains_key(&key_of(p.x, p.y))
    }

    /// Puts `agent`'s marker on the free cell `p`.
    pub fn mark(&mut self, p: &GridPosition, agent: usize)
        requires
            old(self).owner(*p).is_none(),
        ensures
            forall|q: GridPosition|
                #[trigger] final(self).owner(q) == if q == *p {
                    Some(agent)
                } else {
                    old(self).owner(q)
                },
            forall|q: GridPosition| #[trigger] final(self).claimed_now(q) == old(self).claimed_now(q),
    {
        self.markers.insert(key_of(p.x, p.y), agent);
        proof {
            assert forall|q: GridPosition|
                cell_key(q.x as int, q.y as int) == cell_key(p.x as int, p.y as int) implies q == *p by {
                lemma_cell_key_injective(q.x as int, q.y as int, p.x as int, p.y as int);
            }
        }
    }

    /// The reservation protocol: `agent`, standing on `from`, asks for `to`.
    /// It gets it only if no agent claimed `to` this tick and no marker is on
    /// it; then `to` is claimed for this tick, the marker moves from `from`
    /// to `to`, and the result is `true`. Otherwise nothing changes.
    pub fn try_claim(&mut self, from: &GridPosition, to: &GridPosition, agent: usize) -> (r: bool)
        ensures
            r == (!old(self).claimed_now(*to) && old(self).owner(*to).is_none()),
            r ==> forall|q: GridPosition|
                #[trigger] final(self).owner(q) == if q == *to {
                    Some(agent)
                } else if q == *from {
                    None
                } else {
                    old(self).owner(q)
                },
            r ==> forall|q: GridPosition|
                #[trigger] final(self).claimed_now(q) == (q == *to || old(self).claimed_now(q)),
            !r ==> *final(self) == *old(self),
    {
        if self.claimed.contains(to) || self.markers.contains_key(&key_of(to.x, to.y)) {
            return false;
        }
        self.claimed.insert(*to);
        self.markers.remove(&key_of(from.x, from.y));
        self.markers.insert(key_of(to.x, to.y), agent);
        proof {
            assert forall|q: GridPosition|
                cell_key(q.x as int, q.y as int) == cell_key(to.x as int, to.y as int) implies q == *to by {
                lemma_cell_key_injective(q.x as int, q.y as int, to.x as int, to.y as int);
            }
            assert forall|q: GridPosition|
                cell_key(q.x as int, q.y as int) == cell_key(from.x as int, from.y as int) implies q
                == *from by {
                lemma_cell_key_injective(q.x as int, q.y as int, from.x as int, from.y as int);
            }
        }
        true
    }
}

} // verus!
