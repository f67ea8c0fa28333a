//! The open set: a priority queue of discovered states awaiting expansion.
//!
//! Entries are served in order of estimated total cost `f = g + h`; among
//! entries of equal `f` the one with the smaller `h` is served first. The
//! queue is a binary min-heap laid out in a vector, and its abstract value is
//! the bag of entries it holds.

use vstd::multiset::Multiset;
use vstd::prelude::*;

verus! {

/// A discovered state waiting in the open set.
///
/// The state is referred to by its slot in the engine's cost table; the entry
/// carries the accumulated cost under which it was queued and the heuristic
/// estimate of the state.
#[derive(Clone, Copy, Debug)]
pub struct FrontierEntry {
    pub node: usize,
    pub g_cost: usize,
    pub h_cost: u32,
}

impl FrontierEntry {
    /// The estimated total cost `g + h`.
    pub open spec fn total(&self) -> int {
        self.g_cost as int + self.h_cost as int
    }

    /// `self` is served no later than `other`: smaller `f` first, and on equal
    /// `f` the smaller `h` first.
    pub open spec fn precedes(&self, other: &FrontierEntry) -> bool {
        self.total() < other.total() || (self.total() == other.total() && self.h_cost
            <= other.h_cost)
    }

    /// The estimated total cost `g + h`.
    pub fn f_cost(&self) -> (f: u128)
        ensures
            f == self.total(),
    {
        self.g_cost as u128 + self.h_cost as u128
    }

    /// Decides the serving order of two entries.
    pub fn goes_before(&self, other: &FrontierEntry) -> (first: bool)
        ensures
            first == self.precedes(other),
    {
        let mine = self.f_cost();
        let theirs = other.f_cost();
        mine < theirs || (mine == theirs && self.h_cost <= other.h_cost)
    }
}

/// The slot above `i` in the heap layout.
pub open spec fn slot_above(i: int) -> int {
    (i - 1) / 2
}

/// Every entry is preceded by the entry in the slot above it.
pub open spec fn heap_ordered(s: Seq<FrontierEntry>) -> bool {
    forall|i: int| 1 <= i < s.len() ==> (#[trigger] s[slot_above(i)]).precedes(&s[i])
}

/// The heap order holds everywhere except between `k` and the slot above it,
/// and the entries below `k` are already preceded by the entry above `k`.
spec fn ordered_while_rising(s: Seq<FrontierEntry>, k: int) -> bool {
    &&& forall|i: int| 1 <= i < s.len() && i != k ==> (#[trigger] s[slot_above(i)]).precedes(&s[i])
    &&& forall|i: int|
        1 <= i < s.len() && slot_above(i) == k && k >= 1 ==> s[slot_above(k)].precedes(
            #[trigger] &s[i],
        )
}

/// The heap order holds everywhere except between `k` and the slots below it,
/// and the entries below `k` are already preceded by the entry above `k`.
spec fn ordered_while_sinking(s: Seq<FrontierEntry>, k: int) -> bool {
    &&& forall|i: int|
        1 <= i < s.len() && slot_above(i) != k ==> (#[trigger] s[slot_above(i)]).precedes(&s[i])
    &&& forall|i: int|
        1 <= i < s.len() && slot_above(i) == k && k >= 1 ==> s[slot_above(k)].precedes(
            #[trigger] &s[i],
        )
}

/// In a heap-ordered sequence the first entry precedes every entry.
proof fn lemma_root_precedes_all(s: Seq<FrontierEntry>, i: int)
    requires
        heap_ordered(s),
        0 <= i < s.len(),
    ensures
        s[0].precedes(&s[i]),
    decreases i,
{
    if i > 0 {
        lemma_root_precedes_all(s, slot_above(i));
    }
}

/// Exchanging two entries leaves the bag of entries unchanged.
proof fn lemma_exchange_keeps_bag(s: Seq<FrontierEntry>, i: int, j: int)
    requires
        0 <= i < s.len(),
        0 <= j < s.len(),
    ensures
        s.update(i, s[j]).update(j, s[i]).to_multiset() == s.to_multiset(),
{
    let t = s.update(i, s[j]);
    vstd::seq_lib::to_multiset_update(s, i, s[j]);
    vstd::seq_lib::to_multiset_update(t, j, s[i]);
    vstd::seq_lib::to_multiset_contains(s, s[i]);
}

/// The open set of a search.
pub struct Frontier {
    heap: Vec<FrontierEntry>,
}

impl Frontier {
    /// The bag of entries held.
    pub closed spec fn view(&self) -> Multiset<FrontierEntry> {
        self.heap@.to_multiset()
    }

    /// The layout invariant of the heap.
    pub closed spec fn wf(&self) -> bool {
        heap_ordered(self.heap@)
    }

    /// An empty open set.
    pub fn new() -> (frontier: Frontier)
        ensures
            frontier.wf(),
            frontier@ == Multiset::<FrontierEntry>::empty(),
    {
        let frontier = Frontier { heap: Vec::new() };
        proof {
            assert(frontier.heap@.to_multiset() =~= Multiset::<FrontierEntry>::empty()) by {
                vstd::seq_lib::to_multiset_len(frontier.heap@);
            }
        }
        frontier
    }

    /// The number of entries held.
    pub fn len(&self) -> (n: usize)
        ensures
            n == self@.len(),
    {
        proof {
            vstd::seq_lib::to_multiset_len(self.heap@);
        }
        self.heap.len()
    }

    /// Whether no entry is held.
    pub fn is_empty(&self) -> (empty: bool)
        ensures
            empty == (self@.len() == 0),
    {
        self.len() == 0
    }

    /// Exchanges the entries in slots `i` and `j`.
    fn exchange(&mut self, i: usize, j: usize)
        requires
            i < old(self).heap@.len(),
            j < old(self).heap@.len(),
        ensures
            final(self).heap@ == old(self).heap@.update(i as int, old(self).heap@[j as int]).update(
                j as int,
                old(self).heap@[i as int],
            ),
            final(self)@ == old(self)@,
    {
        let a = self.heap[i];
        let b = self.heap[j];
        proof {
            lemma_exchange_keeps_bag(self.heap@, i as int, j as int);
        }
        self.heap.set(i, b);
        self.heap.set(j, a);
    }

    /// Moves the entry in slot `start` up until the entry above precedes it.
    fn rise(&mut self, start: usize)
        requires
            start < old(self).heap@.len(),
            ordered_while_rising(old(self).heap@, start as int),
        ensures
            final(self).wf(),
            final(self)@ == old(self)@,
    {
        let mut k = start;
        while k > 0 && !self.heap[(k - 1) / 2].goes_before(&self.heap[k])
            invariant
                k < self.heap@.len(),
                ordered_while_rising(self.heap@, k as int),
                self@ == old(self)@,
            decreases k,
        {
            let above = (k - 1) / 2;
            self.exchange(k, above);
            k = above;
        }
    }

    /// Moves the entry in slot `start` down until it precedes the entries
    /// below it.
    fn sink(&mut self, start: usize)
        requires
            start < old(self).heap@.len(),
            ordered_while_sinking(old(self).heap@, start as int),
        ensures
            final(self).wf(),
            final(self)@ == old(self)@,
    {
        let mut k = start;
        let n = self.heap.len();
        loop
            invariant_except_break
                ordered_while_sinking(self.heap@, k as int),
            invariant
                k < n,
                n == self.heap@.len(),
                self@ == old(self)@,
            ensures
                heap_ordered(self.heap@),
            decreases n - k,
        {
            if k >= (n - 1) / 2 + 1 {
                break ;
            }
            let left = 2 * k + 1;
            if left >= n {
                break ;
            }
            let right = left + 1;
            let mut least = left;
            if right < n && self.heap[right].goes_before(&self.heap[left]) {
                least = right;
            }
            if self.heap[k].goes_before(&self.heap[least]) {
                break ;
            }
            self.exchange(k, least);
            k = least;
        }
    }

    /// Adds an entry to the open set.
    pub fn push(&mut self, entry: FrontierEntry)
        requires
            old(self).wf(),
        ensures
            final(self).wf(),
            final(self)@ == old(self)@.insert(entry),
    {
        let ghost before = self.heap@;
        self.heap.push(entry);
        proof {
            vstd::seq_lib::to_multiset_build(before, entry);
        }
        let last = self.heap.len() - 1;
        self.rise(last);
    }

    /// Removes and returns an entry that precedes every entry held, or `None`
    /// when the open set is empty.
    pub fn pop(&mut self) -> (served: Option<FrontierEntry>)
        requires
            old(self).wf(),
        ensures
            final(self).wf(),
            match served {
                None => old(self)@.len() == 0 && final(self)@ == old(self)@,
                Some(entry) => {
                    &&& old(self)@ == final(self)@.insert(entry)
                    &&& forall|other: FrontierEntry| #[trigger]
                        old(self)@.contains(other) ==> entry.precedes(&other)
                },
            },
    {
        let ghost before = self.heap@;
        proof {
            vstd::seq_lib::to_multiset_len(before);
        }
        match self.heap.pop() {
            None => None,
            Some(last) => {
                let ghost rest = self.heap@;
                proof {
                    assert(before =~= rest.push(last));
                    vstd::seq_lib::to_multiset_build(rest, last);
                    assert forall|other: FrontierEntry| #[trigger]
                        before.to_multiset().contains(other) implies before[0].precedes(
                        &other,
                    ) by {
                        vstd::seq_lib::to_multiset_contains(before, other);
                        let i = choose|i: int| 0 <= i < before.len() && before[i] == other;
                        lemma_root_precedes_all(before, i);
                    }
                }
                if self.heap.len() == 0 {
                    Some(last)
                } else {
                    let top = self.heap[0];
                    self.heap.set(0, last);
                    proof {
                        vstd::seq_lib::to_multiset_update(rest, 0, last);
                        vstd::seq_lib::to_multiset_contains(rest, top);
                    }
                    self.sink(0);
                    Some(top)
                }
            },
        }
    }
}

} // verus!
