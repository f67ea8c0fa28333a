//! The best-cost table: every state seen so far, filed by value, with its
//! best known accumulated cost and a back-pointer to its predecessor.
//!
//! States are kept in discovery order and addressed by slot. Lookup by value
//! goes through an index keyed by the state's digest, so that only states of
//! equal digest are compared.

use super::state::SearchState;
use std::collections::HashMap;
use vstd::prelude::*;

verus! {

/// The bookkeeping the engine keeps for one state.
pub struct Node<S> {
    pub state: S,
    /// The slot of the predecessor on the best known path, `None` for the
    /// start.
    pub parent: Option<usize>,
    /// The best known accumulated cost.
    pub g_cost: usize,
}

/// No state occurs in two slots.
pub open spec fn distinct_states<S>(nodes: Seq<Node<S>>) -> bool {
    forall|i: int, j: int|
        0 <= i < nodes.len() && 0 <= j < nodes.len() && i != j ==> (#[trigger] nodes[i]).state != (
        #[trigger] nodes[j]).state
}

/// Some slot holds `state`.
pub open spec fn holds_state<S>(nodes: Seq<Node<S>>, state: S) -> bool {
    exists|i: int| 0 <= i < nodes.len() && (#[trigger] nodes[i]).state == state
}

/// The states seen by one search, with their bookkeeping.
pub struct CostTable<S: SearchState> {
    nodes: Vec<Node<S>>,
    index: HashMap<u64, Vec<usize>>,
}

impl<S: SearchState> CostTable<S> {
    /// The slots in discovery order.
    pub closed spec fn view(&self) -> Seq<Node<S>> {
        self.nodes@
    }

    /// Every slot is listed under the digest of its state, and the index lists
    /// nothing but slots.
    pub closed spec fn indexed(&self) -> bool {
        &&& forall|i: int|
            0 <= i < self.nodes@.len() ==> {
                &&& self.index@.contains_key((#[trigger] self.nodes@[i]).state.digest())
                &&& self.index@[self.nodes@[i].state.digest()]@.contains(i as usize)
            }
        &&& forall|key: u64, j: int|
            self.index@.contains_key(key) && 0 <= j < self.index@[key]@.len()
                ==> #[trigger] self.index@[key]@[j] < self.nodes@.len()
    }

    /// The invariant of the table: states are pairwise distinct and the index
    /// is complete.
    pub open spec fn wf(&self) -> bool {
        &&& distinct_states(self@)
        &&& self.indexed()
    }

    /// An empty table.
    pub fn new() -> (table: CostTable<S>)
        ensures
            table.wf(),
            table@.len() == 0,
    {
        CostTable { nodes: Vec::new(), index: HashMap::new() }
    }

    /// The number of states seen.
    pub fn len(&self) -> (n: usize)
        ensures
            n == self@.len(),
    {
        self.nodes.len()
    }

    /// The state in `slot`.
    pub fn state(&self, slot: usize) -> (state: &S)
        requires
            slot < self@.len(),
        ensures
            *state == self@[slot as int].state,
    {
        &self.nodes[slot].state
    }

    /// The back-pointer of `slot`.
    pub fn parent(&self, slot: usize) -> (parent: Option<usize>)
        requires
            slot < self@.len(),
        ensures
            parent == self@[slot as int].parent,
    {
        self.nodes[slot].parent
    }

    /// The best known cost of the state in `slot`.
    pub fn g_cost(&self, slot: usize) -> (g: usize)
        requires
            slot < self@.len(),
        ensures
            g == self@[slot as int].g_cost,
    {
        self.nodes[slot].g_cost
    }

    /// The slot that holds `state`, if it has been seen.
    pub fn find(&self, state: &S) -> (slot: Option<usize>)
        requires
            self.wf(),
        ensures
            match slot {
                Some(i) => i < self@.len() && self@[i as int].state == *state,
                None => !holds_state(self@, *state),
            },
    {
        let key = state.fingerprint();
        let total = self.nodes.len();
        match self.index.get(&key) {
            None => {
                None
            },
            Some(bucket) => {
                let mut j: usize = 0;
                while j < bucket.len()
                    invariant
                        j <= bucket@.len(),
                        total == self.nodes@.len(),
                        self.wf(),
                        self.index@.contains_key(key),
                        *bucket == self.index@[key],
                        forall|t: int|
                            0 <= t < j ==> self.nodes@[(#[trigger] bucket@[t]) as int].state
                                != *state,
                    decreases bucket@.len() - j,
                {
                    let slot = bucket[j];
                    if self.nodes[slot].state.same(state) {
                        return Some(slot);
                    }
                    j += 1;
                }
                None
            },
        }
    }

    /// Files a state that has not been seen yet, and returns its slot.
    pub fn insert(&mut self, state: S, parent: Option<usize>, g_cost: usize) -> (slot: usize)
        requires
            old(self).wf(),
            !holds_state(old(self)@, state),
        ensures
            final(self).wf(),
            slot == old(self)@.len(),
            final(self)@ == old(self)@.push(Node { state, parent, g_cost }),
    {
        let key = state.fingerprint();
        let slot = self.nodes.len();
        let ghost before = *self;
        let mut bucket = match self.index.remove(&key) {
            Some(found) => found,
            None => Vec::new(),
        };
        let ghost listed = bucket@;
        bucket.push(slot);
        self.index.insert(key, bucket);
        self.nodes.push(Node { state, parent, g_cost });
        proof {
            let after = *self;
            assert forall|i: int| 0 <= i < after.nodes@.len() implies {
                &&& after.index@.contains_key((#[trigger] after.nodes@[i]).state.digest())
                &&& after.index@[after.nodes@[i].state.digest()]@.contains(i as usize)
            } by {
                if i < before.nodes@.len() {
                    let d = before.nodes@[i].state.digest();
                    if d == key {
                        let t = choose|t: int| 0 <= t < listed.len() && listed[t] == i as usize;
                        assert(listed.push(slot)[t] == i as usize);
                    }
                } else {
                    assert(listed.push(slot)[listed.len() as int] == slot);
                }
            }
        }
        slot
    }

    /// Records a better path to the state in `slot`.
    pub fn improve(&mut self, slot: usize, parent: Option<usize>, g_cost: usize)
        requires
            old(self).wf(),
            slot < old(self)@.len(),
        ensures
            final(self).wf(),
            final(self)@ == old(self)@.update(
                slot as int,
                Node { state: old(self)@[slot as int].state, parent, g_cost },
            ),
    {
        let entry = &mut self.nodes[slot];
        entry.parent = parent;
        entry.g_cost = g_cost;
    }
}

} // verus!
