//! The A* engine.
//!
//! One call explores the graph a start state induces, in order of estimated
//! total cost, and reports a path to a goal together with expansion counts.
//! The engine works purely through [`SearchState`]; what it guarantees is
//! stated over the model that trait exposes.

use super::clock::Elapsed;
use super::clock::read_clock;
use super::course::arrives;
use super::course::first_in_line;
use super::course::first_queue;
use super::course::first_table;
use super::course::goal_next_in_line;
use super::course::goal_one_move_away;
use super::course::lemma_arrives_after_step;
use super::course::lemma_arrives_at_opening;
use super::course::lemma_course_opens;
use super::course::lemma_first_step;
use super::course::lemma_fresh_are_filed;
use super::course::lemma_goal_one_move_away;
use super::course::lemma_no_second_step;
use super::course::opening_table;
use super::course::queue_relaxed;
use super::course::served;
use super::course::slot_of;
use super::course::stale;
use super::course::table_relaxed;
use super::frontier::Frontier;
use super::frontier::FrontierEntry;
use super::state::admissible_from;
use super::state::consistent_from;
use super::state::is_solution;
use super::state::is_walk;
use super::state::lemma_walk_reaches;
use super::state::overshoots_within;
use super::state::reachable_set;
use super::state::SearchState;
use super::table::CostTable;
use super::table::distinct_states;
use super::table::holds_state;
use super::table::Node;
use std::time::Instant;
use vstd::multiset::Multiset;
use vstd::prelude::*;

verus! {

/// The wall-clock ceiling of one search, in seconds.
pub const TIME_LIMIT_SECS: u64 = 3600;

/// What one search call hands back.
#[derive(Debug, Clone)]
pub struct SearchReport<S> {
    /// The states from start to goal; empty when no goal was reached.
    pub path: Vec<S>,
    /// How many times a state was expanded.
    pub expanded_nodes: usize,
    /// How many distinct states were seen.
    pub visited_states: usize,
    pub goal_found: bool,
    pub elapsed: Elapsed,
}

impl<S> Default for SearchReport<S> {
    fn default() -> (report: Self)
        ensures
            report.path@.len() == 0,
            report.expanded_nodes == 0,
            report.visited_states == 0,
            !report.goal_found,
            report.elapsed == (Elapsed { secs: 0, nanos: 0 }),
    {
        SearchReport {
            path: Vec::new(),
            expanded_nodes: 0,
            visited_states: 0,
            goal_found: false,
            elapsed: Elapsed::zero(),
        }
    }
}

/// The states on the recorded path from the start to the state in `slot`,
/// read off the back-pointers.
pub open spec fn chain<S>(nodes: Seq<Node<S>>, slot: int) -> Seq<S>
    decreases nodes[slot].g_cost,
{
    match nodes[slot].parent {
        Some(p) => if 0 <= slot < nodes.len() && p < nodes.len() && nodes[p as int].g_cost
            < nodes[slot].g_cost {
            chain(nodes, p as int).push(nodes[slot].state)
        } else {
            seq![nodes[slot].state]
        },
        None => seq![nodes[slot].state],
    }
}

/// The back-pointer of `slot` names a state of lower cost of which the state
/// in `slot` is a successor.
pub open spec fn linked<S: SearchState>(nodes: Seq<Node<S>>, slot: int) -> bool {
    match nodes[slot].parent {
        Some(p) => {
            &&& p < nodes.len()
            &&& nodes[p as int].g_cost < nodes[slot].g_cost
            &&& nodes[p as int].state.next_states().contains(nodes[slot].state)
        },
        None => false,
    }
}

/// The first slot holds the start at cost zero, and every other slot is
/// linked to a predecessor.
pub open spec fn rooted<S: SearchState>(nodes: Seq<Node<S>>, start: S) -> bool {
    &&& nodes.len() >= 1
    &&& nodes[0].state == start
    &&& nodes[0].parent is None
    &&& nodes[0].g_cost == 0
    &&& forall|i: int| 1 <= i < nodes.len() ==> #[trigger] linked(nodes, i)
}

/// In a rooted table the chain of a slot is a walk from the start to the
/// state in the slot, with no more transitions than the recorded cost.
pub proof fn lemma_chain_is_walk<S: SearchState>(nodes: Seq<Node<S>>, start: S, slot: int)
    requires
        rooted(nodes, start),
        0 <= slot < nodes.len(),
    ensures
        is_walk(chain(nodes, slot)),
        chain(nodes, slot).len() >= 1,
        chain(nodes, slot)[0] == start,
        chain(nodes, slot).last() == nodes[slot].state,
        chain(nodes, slot).len() <= nodes[slot].g_cost + 1,
    decreases nodes[slot].g_cost,
{
    if slot != 0 {
        assert(linked(nodes, slot));
        let p = nodes[slot].parent->0 as int;
        lemma_chain_is_walk(nodes, start, p);
    }
}

/// Every back-pointer names a slot of the table, and one that holds a
/// strictly lower cost.
pub open spec fn descending<S>(nodes: Seq<Node<S>>) -> bool {
    forall|i: int|
        0 <= i < nodes.len() ==> match (#[trigger] nodes[i]).parent {
            Some(p) => p < nodes.len() && nodes[p as int].g_cost < nodes[i].g_cost,
            None => true,
        }
}

/// The slots met on the way from `slot` back along the back-pointers, the
/// slot without a back-pointer first and `slot` last.
pub open spec fn lineage<S>(nodes: Seq<Node<S>>, slot: int) -> Seq<int>
    decreases nodes[slot].g_cost,
{
    match nodes[slot].parent {
        Some(p) => if 0 <= slot < nodes.len() && p < nodes.len() && nodes[p as int].g_cost
            < nodes[slot].g_cost {
            lineage(nodes, p as int).push(slot)
        } else {
            seq![slot]
        },
        None => seq![slot],
    }
}

/// `path` holds the states met by following every back-pointer from `goal`
/// until a slot without one, in the order from that slot to `goal`.
pub open spec fn traced_back<S>(nodes: Seq<Node<S>>, goal: int, path: Seq<S>) -> bool {
    let slots = lineage(nodes, goal);
    &&& path.len() == slots.len()
    &&& path.len() >= 1
    &&& slots.last() == goal
    &&& nodes[slots[0]].parent is None
    &&& forall|i: int| 0 <= i < slots.len() ==> 0 <= #[trigger] slots[i] < nodes.len()
    &&& forall|i: int| 0 <= i < path.len() ==> #[trigger] path[i] == nodes[slots[i]].state
    &&& forall|i: int|
        0 <= i < slots.len() - 1 ==> nodes[#[trigger] slots[i + 1]].parent == Some(
            slots[i] as usize,
        )
    &&& forall|i: int, j: int|
        0 <= i < j < slots.len() ==> nodes[#[trigger] slots[i]].g_cost < nodes[#[trigger] slots[j]].g_cost
}

/// In a table whose costs fall along the back-pointers, the chain of a slot
/// follows every back-pointer to the slot that has none.
pub proof fn lemma_chain_traces_back<S>(nodes: Seq<Node<S>>, slot: int)
    requires
        descending(nodes),
        0 <= slot < nodes.len(),
    ensures
        traced_back(nodes, slot, chain(nodes, slot)),
    decreases nodes[slot].g_cost,
{
    match nodes[slot].parent {
        Some(p) => {
            lemma_chain_traces_back(nodes, p as int);
            let before = lineage(nodes, p as int);
            let slots = lineage(nodes, slot);
            assert(slots == before.push(slot));
            assert(chain(nodes, slot) == chain(nodes, p as int).push(nodes[slot].state));
            assert forall|i: int| 0 <= i < slots.len() - 1 implies nodes[#[trigger] slots[i
                + 1]].parent == Some(slots[i] as usize) by {
                if i < before.len() - 1 {
                    assert(slots[i + 1] == before[i + 1]);
                }
            }
            assert forall|i: int, j: int| 0 <= i < j < slots.len() implies nodes[#[trigger] slots[i]].g_cost
                < nodes[#[trigger] slots[j]].g_cost by {
                if j < before.len() {
                    assert(slots[i] == before[i] && slots[j] == before[j]);
                } else {
                    assert(slots[i] == before[i]);
                    if i < before.len() - 1 {
                        assert(nodes[before[i]].g_cost < nodes[before[before.len() - 1]].g_cost);
                    }
                }
            }
        },
        None => {},
    }
}

/// The states in the slots of `trail`, last slot first.
pub open spec fn states_backwards<S>(nodes: Seq<Node<S>>, trail: Seq<usize>) -> Seq<S> {
    Seq::new(trail.len(), |k: int| nodes[trail[trail.len() - 1 - k] as int].state)
}

/// Rebuilds the path from the start to the state in `goal` by following the
/// back-pointers: from `goal` back to the slot that has none, then turned
/// round.
pub fn reconstruct_path<S: SearchState>(table: &CostTable<S>, goal: usize) -> (path: Vec<S>)
    requires
        goal < table@.len(),
        descending(table@),
    ensures
        path@ == chain(table@, goal as int),
        traced_back(table@, goal as int, path@),
{
    let mut trail: Vec<usize> = Vec::new();
    let mut current = goal;
    loop
        invariant_except_break
            chain(table@, goal as int) == chain(table@, current as int) + states_backwards(
                table@,
                trail@,
            ),
        invariant
            descending(table@),
            current < table@.len(),
            forall|k: int| 0 <= k < trail@.len() ==> #[trigger] trail@[k] < table@.len(),
        ensures
            chain(table@, goal as int) == states_backwards(table@, trail@),
        decreases table@[current as int].g_cost,
    {
        trail.push(current);
        match table.parent(current) {
            Some(p) => {
                current = p;
            },
            None => {
                break ;
            },
        }
    }
    let mut path: Vec<S> = Vec::new();
    let mut left = trail.len();
    while left > 0
        invariant
            left <= trail@.len(),
            path@.len() == trail@.len() - left,
            forall|k: int| 0 <= k < trail@.len() ==> #[trigger] trail@[k] < table@.len(),
            forall|m: int|
                0 <= m < path@.len() ==> #[trigger] path@[m] == states_backwards(table@, trail@)[m],
        decreases left,
    {
        left -= 1;
        let slot = trail[left];
        path.push(table.state(slot).duplicate());
    }
    proof {
        lemma_chain_traces_back(table@, goal as int);
    }
    path
}

/// The entry under which the state in `slot` is queued at its current cost.
pub open spec fn queued_as<S: SearchState>(nodes: Seq<Node<S>>, slot: int) -> FrontierEntry {
    FrontierEntry {
        node: slot as usize,
        g_cost: nodes[slot].g_cost,
        h_cost: nodes[slot].state.estimate(),
    }
}

/// The state in `slot` waits in the open set at its current cost.
pub open spec fn live<S: SearchState>(
    nodes: Seq<Node<S>>,
    open: Multiset<FrontierEntry>,
    slot: int,
) -> bool {
    open.contains(queued_as(nodes, slot))
}

/// `state` has been seen at a cost of at most `bound`.
pub open spec fn reached_within<S: SearchState>(nodes: Seq<Node<S>>, state: S, bound: int) -> bool {
    exists|j: int| 0 <= j < nodes.len() && (#[trigger] nodes[j]).state == state && nodes[j].g_cost
        <= bound
}

/// The first `upto` successors of the state in `slot` have been seen at a
/// cost of at most one more than that of the state itself.
pub open spec fn relaxed_upto<S: SearchState>(nodes: Seq<Node<S>>, slot: int, upto: int) -> bool {
    forall|k: int|
        0 <= k < upto && k < nodes[slot].state.next_states().len() ==> reached_within(
            nodes,
            #[trigger] nodes[slot].state.next_states()[k],
            nodes[slot].g_cost + 1,
        )
}

/// Every successor of the state in `slot` has been seen at a cost of at most
/// one more than that of the state itself.
pub open spec fn relaxed<S: SearchState>(nodes: Seq<Node<S>>, slot: int) -> bool {
    relaxed_upto(nodes, slot, nodes[slot].state.next_states().len() as int)
}

/// The state in `slot` either waits in the open set or has been expanded at
/// its current cost.
pub open spec fn settled<S: SearchState>(
    nodes: Seq<Node<S>>,
    open: Multiset<FrontierEntry>,
    slot: int,
) -> bool {
    live(nodes, open, slot) || relaxed(nodes, slot)
}

/// Every entry of the open set names a slot, carries the estimate of its
/// state, and a cost between the best known one and the expansion count.
pub open spec fn entries_valid<S: SearchState>(
    nodes: Seq<Node<S>>,
    open: Multiset<FrontierEntry>,
    expanded: int,
) -> bool {
    forall|e: FrontierEntry| #[trigger]
        open.contains(e) ==> {
            &&& e.node < nodes.len()
            &&& e.h_cost == nodes[e.node as int].state.estimate()
            &&& nodes[e.node as int].g_cost <= e.g_cost <= expanded
        }
}

/// The bookkeeping of a search between two steps. `busy` names the slot under
/// expansion, if any, of whose successors the first `upto` are done.
pub open spec fn coherent<S: SearchState>(
    nodes: Seq<Node<S>>,
    open: Multiset<FrontierEntry>,
    start: S,
    expanded: int,
    busy: Option<int>,
    upto: int,
) -> bool {
    &&& rooted(nodes, start)
    &&& nodes.len() <= usize::MAX
    &&& expanded <= usize::MAX
    &&& forall|i: int| 0 <= i < nodes.len() ==> (#[trigger] nodes[i]).g_cost <= expanded
    &&& entries_valid(nodes, open, expanded)
    &&& forall|i: int| 0 <= i < nodes.len() && busy != Some(i) ==> #[trigger] settled(nodes, open, i)
    &&& forall|i: int|
        0 <= i < nodes.len() && (#[trigger] nodes[i]).state.goal() ==> live(nodes, open, i)
    &&& match busy {
        Some(c) => {
            &&& 0 <= c < nodes.len()
            &&& nodes[c].g_cost + 1 <= expanded
            &&& relaxed_upto(nodes, c, upto)
        },
        None => true,
    }
}

/// Along any walk from the start, a state reached within its position leads
/// to an entry of the open set whose total cost exceeds the length of the
/// walk by no more than the heuristic overshoots, provided the walk ends in
/// a goal.
proof fn lemma_walk_meets_frontier<S: SearchState>(
    nodes: Seq<Node<S>>,
    open: Multiset<FrontierEntry>,
    start: S,
    expanded: int,
    walk: Seq<S>,
    at: int,
    slack: int,
) -> (met: FrontierEntry)
    requires
        coherent(nodes, open, start, expanded, None, 0),
        is_solution(start, walk),
        overshoots_within(start, slack),
        0 <= at < walk.len(),
        reached_within(nodes, walk[at], at),
    ensures
        open.contains(met),
        met.total() <= walk.len() - 1 + slack,
    decreases walk.len() - at,
{
    let n = choose|j: int|
        0 <= j < nodes.len() && (#[trigger] nodes[j]).state == walk[at] && nodes[j].g_cost <= at;
    let rest = walk.subrange(at, walk.len() as int);
    assert(is_solution(rest[0], rest));
    lemma_walk_reaches(start, walk, at);
    assert(settled(nodes, open, n));
    if at == walk.len() - 1 {
        queued_as(nodes, n)
    } else if live(nodes, open, n) {
        queued_as(nodes, n)
    } else {
        lemma_walk_meets_frontier(nodes, open, start, expanded, walk, at + 1, slack)
    }
}

/// Once the open set is empty, every state of a walk from the start has been
/// seen and none of them is a goal.
proof fn lemma_walk_stays_seen<S: SearchState>(
    nodes: Seq<Node<S>>,
    open: Multiset<FrontierEntry>,
    start: S,
    expanded: int,
    walk: Seq<S>,
    at: int,
)
    requires
        coherent(nodes, open, start, expanded, None, 0),
        open.len() == 0,
        walk.len() >= 1,
        walk[0] == start,
        is_walk(walk),
        0 <= at < walk.len(),
    ensures
        holds_state(nodes, walk[at]),
        !walk[at].goal(),
    decreases at,
{
    if at > 0 {
        lemma_walk_stays_seen(nodes, open, start, expanded, walk, at - 1);
        let n = choose|i: int| 0 <= i < nodes.len() && (#[trigger] nodes[i]).state == walk[at - 1];
        assert(settled(nodes, open, n));
    }
}

/// What additionally holds of the bookkeeping under a consistent heuristic:
/// `done` is the set of expanded slots, none of which waits in the open set
/// while all others do, and `floor` is a total cost no expanded slot exceeds
/// and no entry of the open set falls below.
pub open spec fn monotone<S: SearchState>(
    nodes: Seq<Node<S>>,
    open: Multiset<FrontierEntry>,
    expanded: int,
    busy: Option<int>,
    done: Set<int>,
    floor: int,
) -> bool {
    &&& done.finite()
    &&& done.len() == expanded
    &&& forall|i: int| #[trigger]
        done.contains(i) ==> {
            &&& 0 <= i < nodes.len()
            &&& nodes[i].g_cost + nodes[i].state.estimate() <= floor
            &&& open.count(queued_as(nodes, i)) == 0
        }
    &&& forall|e: FrontierEntry| #[trigger] open.contains(e) ==> floor <= e.total()
    &&& forall|i: int| 0 <= i < nodes.len() ==> open.count(#[trigger] queued_as(nodes, i)) <= 1
    &&& forall|i: int|
        0 <= i < nodes.len() && !done.contains(i) ==> #[trigger] live(nodes, open, i)
    &&& match busy {
        Some(c) => done.contains(c) && floor == nodes[c].g_cost + nodes[c].state.estimate(),
        None => true,
    }
}

/// The bookkeeping right after the start has been filed and queued.
proof fn lemma_start_coherent<S: SearchState>(
    nodes: Seq<Node<S>>,
    open: Multiset<FrontierEntry>,
    start: S,
)
    requires
        nodes == seq![Node { state: start, parent: None, g_cost: 0 }],
        open == Multiset::<FrontierEntry>::empty().insert(
            FrontierEntry { node: 0, g_cost: 0, h_cost: start.estimate() },
        ),
    ensures
        coherent(nodes, open, start, 0, None, 0),
        monotone(nodes, open, 0, None, Set::<int>::empty(), 0),
        open.len() == 1,
{
}

/// Dropping an entry that is no longer current keeps the bookkeeping intact.
proof fn lemma_discard_stale<S: SearchState>(
    nodes: Seq<Node<S>>,
    before: Multiset<FrontierEntry>,
    after: Multiset<FrontierEntry>,
    entry: FrontierEntry,
    start: S,
    expanded: int,
    done: Set<int>,
    floor: int,
)
    requires
        coherent(nodes, before, start, expanded, None, 0),
        before == after.insert(entry),
        entry.node < nodes.len(),
        entry.g_cost > nodes[entry.node as int].g_cost,
    ensures
        coherent(nodes, after, start, expanded, None, 0),
        monotone(nodes, before, expanded, None, done, floor) ==> monotone(
            nodes,
            after,
            expanded,
            None,
            done,
            floor,
        ),
{
    assert forall|e: FrontierEntry| #[trigger] after.contains(e) implies before.contains(e) by {}
    assert forall|i: int| 0 <= i < nodes.len() && live(nodes, before, i) implies live(
        nodes,
        after,
        i,
    ) by {
    }
    assert forall|i: int| 0 <= i < nodes.len() implies #[trigger] settled(nodes, after, i) by {
        assert(settled(nodes, before, i));
    }
}

/// Taking the current entry of a state that is no goal out of the open set
/// opens its expansion.
proof fn lemma_begin_expansion<S: SearchState>(
    nodes: Seq<Node<S>>,
    before: Multiset<FrontierEntry>,
    after: Multiset<FrontierEntry>,
    entry: FrontierEntry,
    start: S,
    expanded: int,
    done: Set<int>,
    floor: int,
)
    requires
        coherent(nodes, before, start, expanded, None, 0),
        before == after.insert(entry),
        entry.node < nodes.len(),
        entry.g_cost <= nodes[entry.node as int].g_cost,
        !nodes[entry.node as int].state.goal(),
        expanded < usize::MAX,
        forall|other: FrontierEntry| #[trigger] before.contains(other) ==> entry.precedes(&other),
    ensures
        entry == queued_as(nodes, entry.node as int),
        coherent(nodes, after, start, expanded + 1, Some(entry.node as int), 0),
        monotone(nodes, before, expanded, None, done, floor) ==> monotone(
            nodes,
            after,
            expanded + 1,
            Some(entry.node as int),
            done.insert(entry.node as int),
            entry.total(),
        ),
{
    let c = entry.node as int;
    assert(before.contains(entry));
    assert forall|e: FrontierEntry| #[trigger] after.contains(e) implies before.contains(e) by {}
    assert forall|i: int| 0 <= i < nodes.len() && i != c && live(nodes, before, i) implies live(
        nodes,
        after,
        i,
    ) by {
    }
    assert forall|i: int| 0 <= i < nodes.len() && Some(c) != Some(i) implies #[trigger] settled(
        nodes,
        after,
        i,
    ) by {
        assert(settled(nodes, before, i));
    }
}

/// A successor already seen at a cost that the new path does not improve
/// needs no change.
proof fn lemma_keep_cost<S: SearchState>(
    nodes: Seq<Node<S>>,
    open: Multiset<FrontierEntry>,
    start: S,
    expanded: int,
    c: int,
    upto: int,
    slot: int,
)
    requires
        coherent(nodes, open, start, expanded, Some(c), upto),
        0 <= upto < nodes[c].state.next_states().len(),
        0 <= slot < nodes.len(),
        nodes[slot].state == nodes[c].state.next_states()[upto],
        nodes[slot].g_cost <= nodes[c].g_cost + 1,
    ensures
        coherent(nodes, open, start, expanded, Some(c), upto + 1),
{
}

/// Seeing a state at a lower or equal cost in a table that only lowered costs
/// or grew keeps every established bound.
proof fn lemma_reached_persists<S: SearchState>(
    nodes: Seq<Node<S>>,
    later: Seq<Node<S>>,
    state: S,
    bound: int,
)
    requires
        reached_within(nodes, state, bound),
        nodes.len() <= later.len(),
        forall|i: int|
            0 <= i < nodes.len() ==> (#[trigger] later[i]).state == nodes[i].state
                && later[i].g_cost <= nodes[i].g_cost,
    ensures
        reached_within(later, state, bound),
{
    let j = choose|j: int|
        0 <= j < nodes.len() && (#[trigger] nodes[j]).state == state && nodes[j].g_cost <= bound;
    assert(later[j].state == state && later[j].g_cost <= bound);
}

/// Recording a cheaper path to a successor, and queueing it at the new cost,
/// keeps the bookkeeping intact.
proof fn lemma_record_better<S: SearchState>(
    nodes: Seq<Node<S>>,
    later: Seq<Node<S>>,
    open: Multiset<FrontierEntry>,
    grown: Multiset<FrontierEntry>,
    start: S,
    expanded: int,
    c: int,
    upto: int,
    slot: int,
    done: Set<int>,
    floor: int,
)
    requires
        coherent(nodes, open, start, expanded, Some(c), upto),
        0 <= upto < nodes[c].state.next_states().len(),
        0 <= slot < nodes.len(),
        nodes[slot].state == nodes[c].state.next_states()[upto],
        nodes[c].g_cost + 1 < nodes[slot].g_cost,
        later == nodes.update(
            slot,
            Node {
                state: nodes[slot].state,
                parent: Some(c as usize),
                g_cost: (nodes[c].g_cost + 1) as usize,
            },
        ),
        grown == open.insert(
            FrontierEntry {
                node: slot as usize,
                g_cost: (nodes[c].g_cost + 1) as usize,
                h_cost: nodes[slot].state.estimate(),
            },
        ),
    ensures
        coherent(later, grown, start, expanded, Some(c), upto + 1),
        consistent_from(start) && monotone(nodes, open, expanded, Some(c), done, floor) ==> monotone(
            later,
            grown,
            expanded,
            Some(c),
            done,
            floor,
        ),
{
    let tentative = nodes[c].g_cost + 1;
    let fresh = FrontierEntry {
        node: slot as usize,
        g_cost: tentative as usize,
        h_cost: nodes[slot].state.estimate(),
    };
    assert forall|i: int| 1 <= i < later.len() implies #[trigger] linked(later, i) by {
        assert(linked(nodes, i));
        if i == slot {
            assert(later[c] == nodes[c]);
        }
    }
    assert forall|e: FrontierEntry| #[trigger] grown.contains(e) implies {
        &&& e.node < later.len()
        &&& e.h_cost == later[e.node as int].state.estimate()
        &&& later[e.node as int].g_cost <= e.g_cost <= expanded
    } by {
        if e != fresh {
            assert(open.contains(e));
        }
    }
    assert forall|i: int| 0 <= i < nodes.len() && i != slot && live(nodes, open, i) implies live(
        later,
        grown,
        i,
    ) by {
    }
    assert forall|i: int| 0 <= i < later.len() && Some(c) != Some(i) implies #[trigger] settled(
        later,
        grown,
        i,
    ) by {
        if i != slot {
            assert(settled(nodes, open, i));
            if !live(nodes, open, i) {
                assert forall|k: int|
                    0 <= k < later[i].state.next_states().len() implies reached_within(
                    later,
                    #[trigger] later[i].state.next_states()[k],
                    later[i].g_cost + 1,
                ) by {
                    lemma_reached_persists(
                        nodes,
                        later,
                        nodes[i].state.next_states()[k],
                        nodes[i].g_cost + 1,
                    );
                }
            }
        }
    }
    assert forall|k: int|
        0 <= k < upto + 1 && k < later[c].state.next_states().len() implies reached_within(
        later,
        #[trigger] later[c].state.next_states()[k],
        later[c].g_cost + 1,
    ) by {
        if k < upto {
            lemma_reached_persists(
                nodes,
                later,
                nodes[c].state.next_states()[k],
                nodes[c].g_cost + 1,
            );
        }
    }
    if consistent_from(start) && monotone(nodes, open, expanded, Some(c), done, floor) {
        lemma_chain_is_walk(nodes, start, c);
        assert(open.count(fresh) == 0) by {
            if open.contains(fresh) {
                assert(fresh.node < nodes.len());
            }
        }
        assert forall|e: FrontierEntry| #[trigger] grown.contains(e) implies floor
            <= e.total() by {
            if e != fresh {
                assert(open.contains(e));
            }
        }
        assert forall|i: int| 0 <= i < later.len() implies grown.count(
            #[trigger] queued_as(later, i),
        ) <= 1 by {
            if i != slot {
                assert(queued_as(later, i) == queued_as(nodes, i));
            }
        }
    }
}

/// Filing a successor seen for the first time, and queueing it, keeps the
/// bookkeeping intact.
proof fn lemma_record_new<S: SearchState>(
    nodes: Seq<Node<S>>,
    later: Seq<Node<S>>,
    open: Multiset<FrontierEntry>,
    grown: Multiset<FrontierEntry>,
    start: S,
    expanded: int,
    c: int,
    upto: int,
    done: Set<int>,
    floor: int,
)
    requires
        coherent(nodes, open, start, expanded, Some(c), upto),
        0 <= upto < nodes[c].state.next_states().len(),
        nodes.len() < usize::MAX,
        later == nodes.push(
            Node {
                state: nodes[c].state.next_states()[upto],
                parent: Some(c as usize),
                g_cost: (nodes[c].g_cost + 1) as usize,
            },
        ),
        grown == open.insert(
            FrontierEntry {
                node: nodes.len() as usize,
                g_cost: (nodes[c].g_cost + 1) as usize,
                h_cost: nodes[c].state.next_states()[upto].estimate(),
            },
        ),
    ensures
        coherent(later, grown, start, expanded, Some(c), upto + 1),
        consistent_from(start) && monotone(nodes, open, expanded, Some(c), done, floor) ==> monotone(
            later,
            grown,
            expanded,
            Some(c),
            done,
            floor,
        ),
{
    let slot = nodes.len() as int;
    let tentative = nodes[c].g_cost + 1;
    let fresh = FrontierEntry {
        node: slot as usize,
        g_cost: tentative as usize,
        h_cost: nodes[c].state.next_states()[upto].estimate(),
    };
    assert(fresh == queued_as(later, slot));
    assert forall|i: int| 1 <= i < later.len() implies #[trigger] linked(later, i) by {
        if i != slot {
            assert(linked(nodes, i));
        }
    }
    assert forall|e: FrontierEntry| #[trigger] grown.contains(e) implies {
        &&& e.node < later.len()
        &&& e.h_cost == later[e.node as int].state.estimate()
        &&& later[e.node as int].g_cost <= e.g_cost <= expanded
    } by {
        if e != fresh {
            assert(open.contains(e));
        }
    }
    assert forall|i: int| 0 <= i < nodes.len() && live(nodes, open, i) implies live(
        later,
        grown,
        i,
    ) by {
    }
    assert forall|i: int| 0 <= i < later.len() && Some(c) != Some(i) implies #[trigger] settled(
        later,
        grown,
        i,
    ) by {
        if i != slot {
            assert(settled(nodes, open, i));
            if !live(nodes, open, i) {
                assert forall|k: int|
                    0 <= k < later[i].state.next_states().len() implies reached_within(
                    later,
                    #[trigger] later[i].state.next_states()[k],
                    later[i].g_cost + 1,
                ) by {
                    lemma_reached_persists(
                        nodes,
                        later,
                        nodes[i].state.next_states()[k],
                        nodes[i].g_cost + 1,
                    );
                }
            }
        }
    }
    assert forall|k: int|
        0 <= k < upto + 1 && k < later[c].state.next_states().len() implies reached_within(
        later,
        #[trigger] later[c].state.next_states()[k],
        later[c].g_cost + 1,
    ) by {
        if k < upto {
            lemma_reached_persists(
                nodes,
                later,
                nodes[c].state.next_states()[k],
                nodes[c].g_cost + 1,
            );
        }
    }
    if consistent_from(start) && monotone(nodes, open, expanded, Some(c), done, floor) {
        lemma_chain_is_walk(nodes, start, c);
        assert(open.count(fresh) == 0) by {
            if open.contains(fresh) {
                assert(fresh.node < nodes.len());
            }
        }
        assert forall|e: FrontierEntry| #[trigger] grown.contains(e) implies floor
            <= e.total() by {
            if e != fresh {
                assert(open.contains(e));
            }
        }
        assert forall|i: int| 0 <= i < later.len() implies grown.count(
            #[trigger] queued_as(later, i),
        ) <= 1 by {
            if i != slot {
                assert(queued_as(later, i) == queued_as(nodes, i));
            }
        }
    }
}

/// Once every successor is done, the expansion is closed.
proof fn lemma_end_expansion<S: SearchState>(
    nodes: Seq<Node<S>>,
    open: Multiset<FrontierEntry>,
    start: S,
    expanded: int,
    c: int,
    done: Set<int>,
    floor: int,
)
    requires
        coherent(
            nodes,
            open,
            start,
            expanded,
            Some(c),
            nodes[c].state.next_states().len() as int,
        ),
    ensures
        coherent(nodes, open, start, expanded, None, 0),
        monotone(nodes, open, expanded, Some(c), done, floor) ==> monotone(
            nodes,
            open,
            expanded,
            None,
            done,
            floor,
        ),
{
}

/// No more slots have been expanded than there are slots.
proof fn lemma_done_fits<S: SearchState>(
    nodes: Seq<Node<S>>,
    open: Multiset<FrontierEntry>,
    expanded: int,
    busy: Option<int>,
    done: Set<int>,
    floor: int,
)
    requires
        monotone(nodes, open, expanded, busy, done, floor),
    ensures
        expanded <= nodes.len(),
{
    let all = vstd::set_lib::set_int_range(0, nodes.len() as int);
    vstd::set_lib::lemma_int_range(0, nodes.len() as int);
    vstd::set_lib::lemma_len_subset(done, all);
}

/// While a slot waits in the open set at its current cost, fewer slots have
/// been expanded than there are slots.
proof fn lemma_room_to_expand<S: SearchState>(
    nodes: Seq<Node<S>>,
    open: Multiset<FrontierEntry>,
    expanded: int,
    done: Set<int>,
    floor: int,
    slot: int,
)
    requires
        monotone(nodes, open, expanded, None, done, floor),
        0 <= slot < nodes.len(),
        live(nodes, open, slot),
    ensures
        expanded < nodes.len(),
{
    let rest = vstd::set_lib::set_int_range(0, nodes.len() as int).remove(slot);
    vstd::set_lib::lemma_int_range(0, nodes.len() as int);
    vstd::set_lib::lemma_len_subset(done, rest);
}

/// Once the open set is empty, the slots hold exactly the states that can be
/// reached from the start, each once.
proof fn lemma_exhausted_has_seen_all<S: SearchState>(
    nodes: Seq<Node<S>>,
    open: Multiset<FrontierEntry>,
    start: S,
    expanded: int,
)
    requires
        coherent(nodes, open, start, expanded, None, 0),
        distinct_states(nodes),
        open.len() == 0,
    ensures
        reachable_set(start).finite(),
        reachable_set(start).len() == nodes.len(),
{
    let states = Seq::new(nodes.len(), |i: int| nodes[i].state);
    assert forall|state: S| reachable_set(start).contains(state) implies states.to_set().contains(
        state,
    ) by {
        let walk = choose|walk: Seq<S>| #[trigger]
            is_walk(walk) && walk.len() >= 1 && walk[0] == start && walk.last() == state;
        lemma_walk_stays_seen(nodes, open, start, expanded, walk, walk.len() - 1);
        let i = choose|i: int| 0 <= i < nodes.len() && (#[trigger] nodes[i]).state == state;
        assert(states[i] == state);
    }
    assert forall|state: S| states.to_set().contains(state) implies reachable_set(start).contains(
        state,
    ) by {
        let i = choose|i: int| 0 <= i < states.len() && states[i] == state;
        lemma_chain_is_walk(nodes, start, i);
    }
    assert(reachable_set(start) =~= states.to_set());
    states.unique_seq_to_set();
}

/// Once the open set is empty under a consistent heuristic, every slot has
/// been expanded, each once.
proof fn lemma_exhausted_has_expanded_all<S: SearchState>(
    nodes: Seq<Node<S>>,
    open: Multiset<FrontierEntry>,
    expanded: int,
    done: Set<int>,
    floor: int,
)
    requires
        monotone(nodes, open, expanded, None, done, floor),
        open.len() == 0,
    ensures
        expanded == nodes.len(),
{
    let all = vstd::set_lib::set_int_range(0, nodes.len() as int);
    vstd::set_lib::lemma_int_range(0, nodes.len() as int);
    assert forall|i: int| all.contains(i) implies done.contains(i) by {
        if !done.contains(i) {
            assert(live(nodes, open, i));
        }
    }
    assert(done =~= all);
}

/// The search ended at the table `nodes` and the open set `open`: the states
/// seen are the slots of the table; a found path is the chain of an entry
/// that was first in line, not stale, and whose state is a goal; and a
/// search that ended neither on the clock nor on the expansion count, and
/// found no goal, ended on an empty open set.
pub open spec fn stopped<S: SearchState>(
    nodes: Seq<Node<S>>,
    open: Multiset<FrontierEntry>,
    path: Seq<S>,
    expanded_nodes: usize,
    visited_states: usize,
    goal_found: bool,
    elapsed: Elapsed,
) -> bool {
    &&& visited_states == nodes.len()
    &&& goal_found ==> exists|entry: FrontierEntry| #[trigger]
        first_in_line(open, entry) && entry.node < nodes.len() && !stale(nodes, entry)
            && nodes[entry.node as int].state.goal() && path == chain(nodes, entry.node as int)
    &&& !goal_found && !elapsed.beyond(TIME_LIMIT_SECS) && expanded_nodes < usize::MAX
        ==> open.len() == 0
}

/// What the path, the counts and the elapsed time of a report say of the
/// search from `start` that produced them.
///
/// A reported path is a walk from the start to a goal that holds no state
/// twice. Under a heuristic that is admissible on what can be reached from
/// the start no walk from the start to a goal is shorter; under one that
/// overshoots by at most some slack, none is shorter by more than the slack.
/// A search that ended neither on the clock nor on the expansion count, and
/// found no goal, shows that no goal can be reached, and has seen every
/// state that can be reached. Under a heuristic that is consistent on what
/// can be reached from the start no state is expanded twice, so the
/// expansions do not outnumber the states seen, equal them once every state
/// has been seen, and never end the search by their count. The counts are those of the bookkeeping the search
/// stood at when it ended, after some number of steps of its course.
pub open spec fn outcome<S: SearchState>(
    start: S,
    path: Seq<S>,
    expanded_nodes: usize,
    visited_states: usize,
    goal_found: bool,
    elapsed: Elapsed,
) -> bool {
    &&& goal_found ==> is_solution(start, path)
    &&& goal_found ==> forall|i: int, j: int| 0 <= i < j < path.len() ==> path[i] != path[j]
    &&& !goal_found ==> path.len() == 0
    &&& goal_found && admissible_from(start) ==> forall|other: Seq<S>| #[trigger]
        is_solution(start, other) ==> path.len() <= other.len()
    &&& goal_found ==> forall|slack: int, other: Seq<S>|
        #![trigger overshoots_within(start, slack), is_solution(start, other)]
        overshoots_within(start, slack) && is_solution(start, other) ==> path.len()
            <= other.len() + slack
    &&& !goal_found && !elapsed.beyond(TIME_LIMIT_SECS) && (expanded_nodes < usize::MAX
        || consistent_from(start)) ==> {
        &&& forall|other: Seq<S>| !#[trigger] is_solution(start, other)
        &&& reachable_set(start).finite()
        &&& reachable_set(start).len() == visited_states
        &&& consistent_from(start) ==> expanded_nodes == visited_states
    }
    &&& visited_states >= 1
    &&& consistent_from(start) ==> expanded_nodes <= visited_states
    &&& exists|nodes: Seq<Node<S>>, open: Multiset<FrontierEntry>, steps: nat| #[trigger]
        arrives(start, nodes, open, expanded_nodes as int, steps) && stopped(
            nodes,
            open,
            path,
            expanded_nodes,
            visited_states,
            goal_found,
            elapsed,
        )
    &&& start.goal() ==> {
        &&& expanded_nodes == 0
        &&& visited_states == 1
        &&& goal_found ==> path == seq![start]
        &&& !goal_found ==> elapsed.beyond(TIME_LIMIT_SECS)
    }
    &&& !start.goal() && start.next_states().len() == 0 ==> {
        &&& !goal_found
        &&& visited_states == 1
        &&& expanded_nodes <= 1
        &&& !elapsed.beyond(TIME_LIMIT_SECS) ==> expanded_nodes == 1
    }
}

/// The report is the outcome of a search from `start`.
pub open spec fn answers<S: SearchState>(start: S, report: SearchReport<S>) -> bool {
    outcome(
        start,
        report.path@,
        report.expanded_nodes,
        report.visited_states,
        report.goal_found,
        report.elapsed,
    )
}

/// Searches the graph that `start` induces for a goal state, best estimated
/// total cost first.
///
/// The open set is served by smallest `f = g + h`, ties going to the smaller
/// `h`; every transition costs one. The search ends when a goal is served,
/// when the open set runs empty, when a clock reading taken after serving an
/// entry exceeds [`TIME_LIMIT_SECS`], or when the expansion count would
/// no longer fit its type. A search that ends on the clock reports that very
/// reading as its elapsed time.
pub fn astar<S: SearchState>(start: S) -> (report: SearchReport<S>)
    ensures
        answers(start, report),
{
    let clock = Instant::now();
    let mut open = Frontier::new();
    let mut table: CostTable<S> = CostTable::new();
    let first = start.heuristic();
    let ghost lone = !start.goal() && start.next_states().len() == 0;
    let root = table.insert(start, None, 0);
    open.push(FrontierEntry { node: root, g_cost: 0, h_cost: first });
    let mut expanded: usize = 0;
    let ghost mut done: Set<int> = Set::empty();
    let ghost mut floor: int = 0;
    let ghost mut steps: nat = 0;
    proof {
        assert(table@ =~= opening_table(start));
        lemma_start_coherent(table@, open@, start);
        lemma_arrives_at_opening(start);
    }
    loop
        invariant
            table.wf(),
            open.wf(),
            arrives(start, table@, open@, expanded as int, steps),
            lone == (!start.goal() && start.next_states().len() == 0),
            coherent(table@, open@, start, expanded as int, None, 0),
            consistent_from(start) ==> monotone(table@, open@, expanded as int, None, done, floor),
            start.goal() ==> expanded == 0 && table@.len() == 1,
            lone ==> table@.len() == 1 && open@.len() + expanded == 1,
        decreases usize::MAX - expanded, open@.len(),
    {
        let ghost before = open@;
        let visited = table.len();
        proof {
            if consistent_from(start) {
                lemma_done_fits(table@, open@, expanded as int, None, done, floor);
            }
        }
        let entry = match open.pop() {
            None => {
                proof {
                    assert forall|other: Seq<S>| !#[trigger] is_solution(start, other) by {
                        if is_solution(start, other) {
                            lemma_walk_stays_seen(
                                table@,
                                before,
                                start,
                                expanded as int,
                                other,
                                other.len() - 1,
                            );
                        }
                    }
                    lemma_exhausted_has_seen_all(table@, before, start, expanded as int);
                    if consistent_from(start) {
                        lemma_exhausted_has_expanded_all(
                            table@,
                            before,
                            expanded as int,
                            done,
                            floor,
                        );
                    }
                }
                let elapsed = read_clock(&clock);
                assert(arrives(start, table@, before, expanded as int, steps) && stopped(
                    table@,
                    before,
                    Seq::<S>::empty(),
                    expanded,
                    visited,
                    false,
                    elapsed,
                ));
                return SearchReport {
                    path: Vec::new(),
                    expanded_nodes: expanded,
                    visited_states: visited,
                    goal_found: false,
                    elapsed,
                };
            },
            Some(entry) => entry,
        };
        proof {
            assert(before.contains(entry));
            assert(first_in_line(before, entry));
            assert(open@ =~= before.remove(entry));
        }
        let now = read_clock(&clock);
        if now.exceeds(TIME_LIMIT_SECS) {
            assert(arrives(start, table@, before, expanded as int, steps) && stopped(
                table@,
                before,
                Seq::<S>::empty(),
                expanded,
                visited,
                false,
                now,
            ));
            return SearchReport {
                path: Vec::new(),
                expanded_nodes: expanded,
                visited_states: visited,
                goal_found: false,
                elapsed: now,
            };
        }
        let current = entry.node;
        if entry.g_cost > table.g_cost(current) {
            proof {
                lemma_discard_stale(
                    table@,
                    before,
                    open@,
                    entry,
                    start,
                    expanded as int,
                    done,
                    floor,
                );
                lemma_arrives_after_step(
                    start,
                    table@,
                    before,
                    expanded as int,
                    steps,
                    entry,
                    table@,
                    open@,
                    expanded as int,
                );
                steps = steps + 1;
            }
            continue ;
        }
        if table.state(current).is_goal() {
            assert(descending(table@)) by {
                assert forall|i: int| 0 <= i < table@.len() implies match (#[trigger] table@[i]).parent {
                    Some(p) => p < table@.len() && table@[p as int].g_cost < table@[i].g_cost,
                    None => true,
                } by {
                    if i >= 1 {
                        assert(linked(table@, i));
                    }
                }
            }
            let path = reconstruct_path(&table, current);
            proof {
                let slots = lineage(table@, current as int);
                assert forall|i: int, j: int| 0 <= i < j < path@.len() implies path@[i]
                    != path@[j] by {
                    assert(table@[slots[i]].g_cost < table@[slots[j]].g_cost);
                    assert(table@[slots[i]].state != table@[slots[j]].state);
                }
                lemma_chain_is_walk(table@, start, current as int);
                assert forall|slack: int, other: Seq<S>|
                    #![trigger overshoots_within(start, slack), is_solution(start, other)]
                    overshoots_within(start, slack) && is_solution(
                        start,
                        other,
                    ) implies path@.len() <= other.len() + slack by {
                    let met = lemma_walk_meets_frontier(
                        table@,
                        before,
                        start,
                        expanded as int,
                        other,
                        0,
                        slack,
                    );
                    assert(entry.precedes(&met));
                }
                if admissible_from(start) {
                    assert(overshoots_within(start, 0));
                }
            }
            let elapsed = read_clock(&clock);
            assert(arrives(start, table@, before, expanded as int, steps) && stopped(
                table@,
                before,
                path@,
                expanded,
                visited,
                true,
                elapsed,
            ));
            return SearchReport {
                path,
                expanded_nodes: expanded,
                visited_states: visited,
                goal_found: true,
                elapsed,
            };
        }
        if expanded == usize::MAX {
            proof {
                if consistent_from(start) {
                    assert(entry == queued_as(table@, current as int));
                    lemma_room_to_expand(
                        table@,
                        before,
                        expanded as int,
                        done,
                        floor,
                        current as int,
                    );
                }
            }
            let elapsed = read_clock(&clock);
            assert(arrives(start, table@, before, expanded as int, steps) && stopped(
                table@,
                before,
                Seq::<S>::empty(),
                expanded,
                visited,
                false,
                elapsed,
            ));
            return SearchReport {
                path: Vec::new(),
                expanded_nodes: expanded,
                visited_states: visited,
                goal_found: false,
                elapsed,
            };
        }
        let ghost stood = table@;
        let ghost waiting = open@;
        proof {
            lemma_begin_expansion(
                table@,
                before,
                open@,
                entry,
                start,
                expanded as int,
                done,
                floor,
            );
            done = done.insert(current as int);
            floor = entry.total();
        }
        expanded += 1;
        let tentative = entry.g_cost + 1;
        let successors = table.state(current).successors();
        let ghost here = table@[current as int].state;
        let mut k: usize = 0;
        while k < successors.len()
            invariant
                k <= successors@.len(),
                table.wf(),
                open.wf(),
                current < table@.len(),
                table@[current as int].state == here,
                table@[current as int].g_cost + 1 == tentative,
                table@ == table_relaxed(stood, current as int, tentative, here.next_states(), k as int),
                open@ == queue_relaxed(
                    stood,
                    waiting,
                    current as int,
                    tentative,
                    here.next_states(),
                    k as int,
                ),
                successors@.len() == here.next_states().len(),
                forall|i: int|
                    0 <= i < successors@.len() ==> (#[trigger] successors@[i]).1
                        == here.next_states()[i],
                coherent(table@, open@, start, expanded as int, Some(current as int), k as int),
                consistent_from(start) ==> monotone(
                    table@,
                    open@,
                    expanded as int,
                    Some(current as int),
                    done,
                    floor,
                ),
                !start.goal(),
                lone == (!start.goal() && start.next_states().len() == 0),
                lone ==> table@.len() == 1 && open@.len() == 0 && expanded == 1,
            decreases successors@.len() - k,
        {
            let successor = &successors[k].1;
            let ghost nodes = table@;
            let ghost queued = open@;
            match table.find(successor) {
                Some(slot) => {
                    assert(slot_of(nodes, *successor) == Some(slot as int)) by {
                        let found = slot_of(nodes, *successor)->0;
                        assert(nodes[found].state == nodes[slot as int].state);
                    }
                    if tentative < table.g_cost(slot) {
                        let estimate = successor.heuristic();
                        table.improve(slot, Some(current), tentative);
                        open.push(FrontierEntry { node: slot, g_cost: tentative, h_cost: estimate });
                        proof {
                            lemma_record_better(
                                nodes,
                                table@,
                                queued,
                                open@,
                                start,
                                expanded as int,
                                current as int,
                                k as int,
                                slot as int,
                                done,
                                floor,
                            );
                        }
                    } else {
                        proof {
                            lemma_keep_cost(
                                nodes,
                                queued,
                                start,
                                expanded as int,
                                current as int,
                                k as int,
                                slot as int,
                            );
                        }
                    }
                },
                None => {
                    let estimate = successor.heuristic();
                    let slot = table.insert(successor.duplicate(), Some(current), tentative);
                    open.push(FrontierEntry { node: slot, g_cost: tentative, h_cost: estimate });
                    let filed = table.len();
                    proof {
                        lemma_record_new(
                            nodes,
                            table@,
                            queued,
                            open@,
                            start,
                            expanded as int,
                            current as int,
                            k as int,
                            done,
                            floor,
                        );
                    }
                },
            }
            k += 1;
        }
        proof {
            lemma_end_expansion(
                table@,
                open@,
                start,
                expanded as int,
                current as int,
                done,
                floor,
            );
            lemma_arrives_after_step(
                start,
                stood,
                before,
                expanded - 1,
                steps,
                entry,
                table@,
                open@,
                expanded as int,
            );
            steps = steps + 1;
        }
    }
}

/// Under an admissible heuristic no walk from the start to a goal is shorter
/// than the path a search reports.
pub proof fn lemma_reported_path_is_shortest<S: SearchState>(
    start: S,
    report: SearchReport<S>,
    other: Seq<S>,
)
    requires
        answers(start, report),
        admissible_from(start),
        report.goal_found,
        is_solution(start, other),
    ensures
        is_solution(start, report.path@),
        report.path@.len() <= other.len(),
{
}

/// Under a consistent heuristic a search expands no more states than it has
/// seen.
pub proof fn lemma_expansions_within_visited<S: SearchState>(start: S, report: SearchReport<S>)
    requires
        answers(start, report),
        consistent_from(start),
    ensures
        report.visited_states >= report.expanded_nodes,
{
}

/// A search from a goal that does not end on the clock reports the start
/// alone, without a single expansion.
pub proof fn lemma_search_from_goal<S: SearchState>(start: S, report: SearchReport<S>)
    requires
        answers(start, report),
        start.goal(),
        !report.elapsed.beyond(TIME_LIMIT_SECS),
    ensures
        report.goal_found,
        report.path@ == seq![start],
        report.expanded_nodes == 0,
        report.visited_states == 1,
{
}

/// A search from a state that is no goal and has no successor, and that does
/// not end on the clock, finds nothing after expanding the start once.
pub proof fn lemma_search_from_dead_end<S: SearchState>(start: S, report: SearchReport<S>)
    requires
        answers(start, report),
        !start.goal(),
        start.next_states().len() == 0,
        !report.elapsed.beyond(TIME_LIMIT_SECS),
    ensures
        !report.goal_found,
        report.path@.len() == 0,
        report.expanded_nodes == 1,
        report.visited_states == 1,
{
}

/// Two searches from one state that is no goal and has no successor, neither
/// ending on the clock, report the same path and the same counts.
pub proof fn lemma_dead_end_reports_agree<S: SearchState>(
    start: S,
    first: SearchReport<S>,
    second: SearchReport<S>,
)
    requires
        answers(start, first),
        answers(start, second),
        !start.goal(),
        start.next_states().len() == 0,
        !first.elapsed.beyond(TIME_LIMIT_SECS),
        !second.elapsed.beyond(TIME_LIMIT_SECS),
    ensures
        first.goal_found == second.goal_found,
        first.path@ == second.path@,
        first.expanded_nodes == second.expanded_nodes,
        first.visited_states == second.visited_states,
{
    assert(first.path@ =~= second.path@);
}

/// Where a goal can be reached and the heuristic is admissible on what can
/// be reached from the start, a search that ends neither on the clock nor on
/// the expansion count finds a goal, over a walk that no walk from the start
/// to a goal is shorter than.
pub proof fn lemma_reachable_goal_is_found<S: SearchState>(
    start: S,
    report: SearchReport<S>,
    other: Seq<S>,
)
    requires
        answers(start, report),
        admissible_from(start),
        is_solution(start, other),
        !report.elapsed.beyond(TIME_LIMIT_SECS),
        report.expanded_nodes < usize::MAX || consistent_from(start),
    ensures
        report.goal_found,
        is_solution(start, report.path@),
        report.path@.len() <= other.len(),
{
}

/// A search that finds nothing, and ends neither on the clock nor on the
/// expansion count, shows that no walk leads from the start to a goal. Under
/// a heuristic that is consistent on what can be reached from the start no
/// search ends on the expansion count.
pub proof fn lemma_exhausted_search_is_final<S: SearchState>(
    start: S,
    report: SearchReport<S>,
    other: Seq<S>,
)
    requires
        answers(start, report),
        !report.goal_found,
        !report.elapsed.beyond(TIME_LIMIT_SECS),
        report.expanded_nodes < usize::MAX || consistent_from(start),
    ensures
        !is_solution(start, other),
{
}

/// A search that finds nothing, and ends neither on the clock nor on the
/// expansion count, has seen exactly the states that can be reached from the
/// start; under a consistent heuristic it has expanded each of them once.
pub proof fn lemma_exhausted_search_counts<S: SearchState>(start: S, report: SearchReport<S>)
    requires
        answers(start, report),
        !report.goal_found,
        !report.elapsed.beyond(TIME_LIMIT_SECS),
        report.expanded_nodes < usize::MAX || consistent_from(start),
    ensures
        reachable_set(start).finite(),
        report.visited_states == reachable_set(start).len(),
        consistent_from(start) ==> report.expanded_nodes == report.visited_states,
{
}

/// Under a heuristic that overshoots by at most `slack`, the path a search
/// reports is longer than any walk from the start to a goal by at most
/// `slack`.
pub proof fn lemma_reported_path_is_nearly_shortest<S: SearchState>(
    start: S,
    report: SearchReport<S>,
    other: Seq<S>,
    slack: int,
)
    requires
        answers(start, report),
        overshoots_within(start, slack),
        report.goal_found,
        is_solution(start, other),
    ensures
        is_solution(start, report.path@),
        report.path@.len() <= other.len() + slack,
{
}

/// Where the start is no goal and a goal is next in line once the start has
/// been expanded, a search that does not end on the clock finds it after
/// that one expansion, having seen the start and its successors.
pub proof fn lemma_goal_next_in_line_is_found<S: SearchState>(start: S, report: SearchReport<S>)
    requires
        answers(start, report),
        !start.goal(),
        goal_next_in_line(start),
        !report.elapsed.beyond(TIME_LIMIT_SECS),
    ensures
        report.goal_found,
        report.expanded_nodes == 1,
        report.visited_states == first_table(start).len(),
        exists|entry: FrontierEntry| #[trigger]
            first_in_line(first_queue(start), entry) && report.path@ == chain(
                first_table(start),
                entry.node as int,
            ),
{
    let (nodes, open, steps) = choose|
        nodes: Seq<Node<S>>,
        open: Multiset<FrontierEntry>,
        steps: nat,
    | #[trigger]
        arrives(start, nodes, open, report.expanded_nodes as int, steps) && stopped(
            nodes,
            open,
            report.path@,
            report.expanded_nodes,
            report.visited_states,
            report.goal_found,
            report.elapsed,
        );
    if steps == 0 {
        lemma_course_opens(start, nodes, open, report.expanded_nodes as int);
        let only = FrontierEntry { node: 0, g_cost: 0, h_cost: start.estimate() };
        assert(open.contains(only));
        if report.goal_found {
            let entry = choose|entry: FrontierEntry| #[trigger]
                first_in_line(open, entry) && entry.node < nodes.len() && !stale(nodes, entry)
                    && nodes[entry.node as int].state.goal() && report.path@ == chain(
                    nodes,
                    entry.node as int,
                );
            assert(entry == only);
        }
    } else if steps == 1 {
        lemma_first_step(start, nodes, open, report.expanded_nodes as int);
        let next = choose|entry: FrontierEntry| #[trigger] first_in_line(first_queue(start), entry);
        assert(open.contains(next));
    } else {
        lemma_no_second_step(start, nodes, open, report.expanded_nodes as int, steps);
    }
}

/// Where the start is no goal, its successors are new and pairwise distinct,
/// one of them is a goal, and the estimate is zero on the goals among them
/// and on no other, a search that does not end on the clock expands the start
/// alone, has then seen the start and its successors, and reports the start
/// and a goal.
pub proof fn lemma_goal_one_move_away_is_found<S: SearchState>(start: S, report: SearchReport<S>)
    requires
        answers(start, report),
        goal_one_move_away(start),
        !report.elapsed.beyond(TIME_LIMIT_SECS),
    ensures
        report.goal_found,
        report.expanded_nodes == 1,
        report.visited_states == 1 + start.next_states().len(),
        report.path@.len() == 2,
{
    lemma_goal_one_move_away(start);
    lemma_goal_next_in_line_is_found(start, report);
    let entry = choose|entry: FrontierEntry| #[trigger]
        first_in_line(first_queue(start), entry) && report.path@ == chain(
            first_table(start),
            entry.node as int,
        );
    let table = first_table(start);
    lemma_fresh_are_filed(
        opening_table(start),
        Multiset::empty(),
        0,
        1,
        start.next_states(),
        start.next_states().len() as int,
    );
    assert(table[0] == opening_table(start)[0]);
    reveal_with_fuel(chain, 2);
}

} // verus!
