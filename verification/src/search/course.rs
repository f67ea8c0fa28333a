//! The course of a search, step by step: which bookkeeping follows from
//! which when an entry of the open set is served.
//!
//! The open set is taken as a bag, so the course is a relation: where
//! several entries are first in line, serving any of them is a step.

use super::frontier::FrontierEntry;
use super::state::SearchState;
use super::table::holds_state;
use super::table::Node;
use vstd::multiset::Multiset;
use vstd::prelude::*;

verus! {

/// The table right after the start has been filed.
pub open spec fn opening_table<S: SearchState>(start: S) -> Seq<Node<S>> {
    seq![Node { state: start, parent: None, g_cost: 0 }]
}

/// The open set right after the start has been queued.
pub open spec fn opening_queue<S: SearchState>(start: S) -> Multiset<FrontierEntry> {
    Multiset::empty().insert(FrontierEntry { node: 0, g_cost: 0, h_cost: start.estimate() })
}

/// The slot that holds `state`, if one does.
pub open spec fn slot_of<S>(nodes: Seq<Node<S>>, state: S) -> Option<int> {
    if holds_state(nodes, state) {
        Some(choose|i: int| 0 <= i < nodes.len() && (#[trigger] nodes[i]).state == state)
    } else {
        None
    }
}

/// The table after the successor `next` of the state in `from` has been
/// looked at, at the cost `cost` of getting to it: a state not seen before is
/// filed, a state seen at a higher cost takes the new cost and back-pointer,
/// and any other stays as it is.
pub open spec fn table_after<S: SearchState>(
    nodes: Seq<Node<S>>,
    from: int,
    cost: usize,
    next: S,
) -> Seq<Node<S>> {
    match slot_of(nodes, next) {
        Some(slot) => if cost < nodes[slot].g_cost {
            nodes.update(
                slot,
                Node { state: nodes[slot].state, parent: Some(from as usize), g_cost: cost },
            )
        } else {
            nodes
        },
        None => nodes.push(Node { state: next, parent: Some(from as usize), g_cost: cost }),
    }
}

/// The open set after the successor `next` has been looked at: whenever the
/// table changes, the state is queued at its new cost.
pub open spec fn queue_after<S: SearchState>(
    nodes: Seq<Node<S>>,
    open: Multiset<FrontierEntry>,
    cost: usize,
    next: S,
) -> Multiset<FrontierEntry> {
    match slot_of(nodes, next) {
        Some(slot) => if cost < nodes[slot].g_cost {
            open.insert(
                FrontierEntry { node: slot as usize, g_cost: cost, h_cost: next.estimate() },
            )
        } else {
            open
        },
        None => open.insert(
            FrontierEntry { node: nodes.len() as usize, g_cost: cost, h_cost: next.estimate() },
        ),
    }
}

/// The table after the first `upto` of the successors `nexts` of the state
/// in `from` have been looked at, in order.
pub open spec fn table_relaxed<S: SearchState>(
    nodes: Seq<Node<S>>,
    from: int,
    cost: usize,
    nexts: Seq<S>,
    upto: int,
) -> Seq<Node<S>>
    decreases upto,
{
    if upto <= 0 {
        nodes
    } else {
        table_after(table_relaxed(nodes, from, cost, nexts, upto - 1), from, cost, nexts[upto - 1])
    }
}

/// The open set after the first `upto` of the successors `nexts` have been
/// looked at, in order.
pub open spec fn queue_relaxed<S: SearchState>(
    nodes: Seq<Node<S>>,
    open: Multiset<FrontierEntry>,
    from: int,
    cost: usize,
    nexts: Seq<S>,
    upto: int,
) -> Multiset<FrontierEntry>
    decreases upto,
{
    if upto <= 0 {
        open
    } else {
        queue_after(
            table_relaxed(nodes, from, cost, nexts, upto - 1),
            queue_relaxed(nodes, open, from, cost, nexts, upto - 1),
            cost,
            nexts[upto - 1],
        )
    }
}

/// `entry` is held and precedes every entry held.
pub open spec fn first_in_line(open: Multiset<FrontierEntry>, entry: FrontierEntry) -> bool {
    &&& open.contains(entry)
    &&& forall|other: FrontierEntry| #[trigger] open.contains(other) ==> entry.precedes(&other)
}

/// The entry was queued at a cost that has since been improved on.
pub open spec fn stale<S>(nodes: Seq<Node<S>>, entry: FrontierEntry) -> bool {
    entry.g_cost > nodes[entry.node as int].g_cost
}

/// Serving `entry` is a step of the search, and leads from the table
/// `nodes`, the open set `open` and `expanded` expansions to `later`, `left`
/// and `count`: a stale entry is dropped; any other, whose state is no goal,
/// has its state expanded.
pub open spec fn served<S: SearchState>(
    nodes: Seq<Node<S>>,
    open: Multiset<FrontierEntry>,
    expanded: int,
    entry: FrontierEntry,
    later: Seq<Node<S>>,
    left: Multiset<FrontierEntry>,
    count: int,
) -> bool {
    let from = entry.node as int;
    let cost = (nodes[from].g_cost + 1) as usize;
    let nexts = nodes[from].state.next_states();
    &&& first_in_line(open, entry)
    &&& entry.node < nodes.len()
    &&& if stale(nodes, entry) {
        &&& later == nodes
        &&& left == open.remove(entry)
        &&& count == expanded
    } else {
        &&& !nodes[from].state.goal()
        &&& later == table_relaxed(nodes, from, cost, nexts, nexts.len() as int)
        &&& left == queue_relaxed(nodes, open.remove(entry), from, cost, nexts, nexts.len() as int)
        &&& count == expanded + 1
    }
}

/// The search from `start` can stand at the table `nodes`, the open set
/// `open` and `expanded` expansions after `steps` steps.
#[verifier::opaque]
pub open spec fn arrives<S: SearchState>(
    start: S,
    nodes: Seq<Node<S>>,
    open: Multiset<FrontierEntry>,
    expanded: int,
    steps: nat,
) -> bool
    decreases steps,
{
    if steps == 0 {
        nodes == opening_table(start) && open == opening_queue(start) && expanded == 0
    } else {
        exists|
            earlier: Seq<Node<S>>,
            waiting: Multiset<FrontierEntry>,
            count: int,
            entry: FrontierEntry,
        |
            arrives(start, earlier, waiting, count, (steps - 1) as nat) && #[trigger] served(
                earlier,
                waiting,
                count,
                entry,
                nodes,
                open,
                expanded,
            )
    }
}

/// The search stands where it starts before any step.
pub proof fn lemma_arrives_at_opening<S: SearchState>(start: S)
    ensures
        arrives(start, opening_table(start), opening_queue(start), 0, 0),
{
    reveal(arrives);
}

/// Before any step the search stands where it starts.
pub proof fn lemma_course_opens<S: SearchState>(
    start: S,
    nodes: Seq<Node<S>>,
    open: Multiset<FrontierEntry>,
    expanded: int,
)
    requires
        arrives(start, nodes, open, expanded, 0),
    ensures
        nodes == opening_table(start),
        open == opening_queue(start),
        expanded == 0,
{
    reveal(arrives);
}

/// A step from where the search can stand leads to where it can stand.
pub proof fn lemma_arrives_after_step<S: SearchState>(
    start: S,
    nodes: Seq<Node<S>>,
    open: Multiset<FrontierEntry>,
    expanded: int,
    steps: nat,
    entry: FrontierEntry,
    later: Seq<Node<S>>,
    left: Multiset<FrontierEntry>,
    count: int,
)
    requires
        arrives(start, nodes, open, expanded, steps),
        served(nodes, open, expanded, entry, later, left, count),
    ensures
        arrives(start, later, left, count, steps + 1),
{
    reveal(arrives);
}

/// The table after the first step of a search from a start that is no goal:
/// the start has been expanded.
pub open spec fn first_table<S: SearchState>(start: S) -> Seq<Node<S>> {
    table_relaxed(
        opening_table(start),
        0,
        1,
        start.next_states(),
        start.next_states().len() as int,
    )
}

/// The open set after the first step of a search from a start that is no
/// goal.
pub open spec fn first_queue<S: SearchState>(start: S) -> Multiset<FrontierEntry> {
    queue_relaxed(
        opening_table(start),
        Multiset::empty(),
        0,
        1,
        start.next_states(),
        start.next_states().len() as int,
    )
}

/// After one step the search stands where the expansion of the start leaves
/// it.
pub proof fn lemma_first_step<S: SearchState>(
    start: S,
    nodes: Seq<Node<S>>,
    open: Multiset<FrontierEntry>,
    expanded: int,
)
    requires
        arrives(start, nodes, open, expanded, 1),
    ensures
        !start.goal(),
        nodes == first_table(start),
        open == first_queue(start),
        expanded == 1,
{
    reveal_with_fuel(arrives, 2);
    let (earlier, waiting, count, entry) = choose|
        earlier: Seq<Node<S>>,
        waiting: Multiset<FrontierEntry>,
        count: int,
        entry: FrontierEntry,
    |
        arrives(start, earlier, waiting, count, 0) && #[trigger] served(
            earlier,
            waiting,
            count,
            entry,
            nodes,
            open,
            expanded,
        );
    let only = FrontierEntry { node: 0, g_cost: 0, h_cost: start.estimate() };
    assert(entry == only);
    assert(waiting.remove(entry) =~= Multiset::empty());
}

/// Every entry that is first in line after the first step is up to date and
/// names a goal.
pub open spec fn goal_next_in_line<S: SearchState>(start: S) -> bool {
    &&& exists|entry: FrontierEntry| #[trigger] first_in_line(first_queue(start), entry)
    &&& forall|entry: FrontierEntry| #[trigger]
        first_in_line(first_queue(start), entry) ==> {
            &&& entry.node < first_table(start).len()
            &&& !stale(first_table(start), entry)
            &&& first_table(start)[entry.node as int].state.goal()
        }
}

/// Where a goal is next in line after the first step, the search takes no
/// second step.
pub proof fn lemma_no_second_step<S: SearchState>(
    start: S,
    nodes: Seq<Node<S>>,
    open: Multiset<FrontierEntry>,
    expanded: int,
    steps: nat,
)
    requires
        goal_next_in_line(start),
        steps >= 2,
    ensures
        !arrives(start, nodes, open, expanded, steps),
    decreases steps,
{
    reveal_with_fuel(arrives, 2);
    if arrives(start, nodes, open, expanded, steps) {
        let (earlier, waiting, count, entry) = choose|
            earlier: Seq<Node<S>>,
            waiting: Multiset<FrontierEntry>,
            count: int,
            entry: FrontierEntry,
        |
            arrives(start, earlier, waiting, count, (steps - 1) as nat) && #[trigger] served(
                earlier,
                waiting,
                count,
                entry,
                nodes,
                open,
                expanded,
            );
        if steps == 2 {
            lemma_first_step(start, earlier, waiting, count);
            assert(first_in_line(first_queue(start), entry));
        } else {
            lemma_no_second_step(start, earlier, waiting, count, (steps - 1) as nat);
        }
    }
}

/// None of the states `nexts` is held by the table, and none of them occurs
/// twice.
pub open spec fn fresh<S>(nodes: Seq<Node<S>>, nexts: Seq<S>) -> bool {
    &&& forall|i: int| 0 <= i < nexts.len() ==> !holds_state(nodes, #[trigger] nexts[i])
    &&& forall|i: int, j: int| 0 <= i < j < nexts.len() ==> nexts[i] != nexts[j]
}

/// The entry under which the successor `nexts[k]` is queued when it is filed
/// behind the slots of `nodes`.
pub open spec fn filed_entry<S: SearchState>(
    nodes: Seq<Node<S>>,
    cost: usize,
    nexts: Seq<S>,
    k: int,
) -> FrontierEntry {
    FrontierEntry { node: (nodes.len() + k) as usize, g_cost: cost, h_cost: nexts[k].estimate() }
}

/// Successors none of which has been seen are filed one behind the other, and
/// each is queued once.
pub proof fn lemma_fresh_are_filed<S: SearchState>(
    nodes: Seq<Node<S>>,
    open: Multiset<FrontierEntry>,
    from: int,
    cost: usize,
    nexts: Seq<S>,
    upto: int,
)
    requires
        fresh(nodes, nexts),
        0 <= upto <= nexts.len(),
    ensures
        table_relaxed(nodes, from, cost, nexts, upto).len() == nodes.len() + upto,
        forall|i: int|
            0 <= i < nodes.len() ==> #[trigger] table_relaxed(nodes, from, cost, nexts, upto)[i]
                == nodes[i],
        forall|k: int|
            0 <= k < upto ==> #[trigger] table_relaxed(nodes, from, cost, nexts, upto)[nodes.len()
                + k] == (Node { state: nexts[k], parent: Some(from as usize), g_cost: cost }),
        forall|entry: FrontierEntry| #[trigger]
            queue_relaxed(nodes, open, from, cost, nexts, upto).contains(entry) <==> open.contains(
                entry,
            ) || exists|k: int| 0 <= k < upto && entry == #[trigger] filed_entry(nodes, cost, nexts, k),
    decreases upto,
{
    if upto > 0 {
        lemma_fresh_are_filed(nodes, open, from, cost, nexts, upto - 1);
        let table = table_relaxed(nodes, from, cost, nexts, upto - 1);
        let queue = queue_relaxed(nodes, open, from, cost, nexts, upto - 1);
        let next = nexts[upto - 1];
        let added = FrontierEntry {
            node: table.len() as usize,
            g_cost: cost,
            h_cost: next.estimate(),
        };
        assert(!holds_state(table, next)) by {
            if holds_state(table, next) {
                let i = choose|i: int| 0 <= i < table.len() && (#[trigger] table[i]).state == next;
                if i < nodes.len() {
                    assert(nodes[i].state == next);
                } else {
                    let k = i - nodes.len();
                    assert(table[nodes.len() + k].state == nexts[k]);
                }
            }
        }
        assert(table_relaxed(nodes, from, cost, nexts, upto) == table.push(
            Node { state: next, parent: Some(from as usize), g_cost: cost },
        ));
        assert(queue_relaxed(nodes, open, from, cost, nexts, upto) == queue.insert(added));
        assert(added == filed_entry(nodes, cost, nexts, upto - 1));
        assert forall|entry: FrontierEntry|
            queue.insert(added).contains(entry) <==> open.contains(entry) || exists|k: int|
                0 <= k < upto && entry == #[trigger] filed_entry(nodes, cost, nexts, k) by {
            if queue.insert(added).contains(entry) {
                if entry != added {
                    assert(queue.contains(entry));
                }
            }
            if open.contains(entry) {
                assert(queue.contains(entry));
            }
            if exists|k: int| 0 <= k < upto && entry == #[trigger] filed_entry(nodes, cost, nexts, k) {
                let k = choose|k: int|
                    0 <= k < upto && entry == #[trigger] filed_entry(nodes, cost, nexts, k);
                if k < upto - 1 {
                    assert(queue.contains(entry));
                }
            }
        }
    }
}

/// The start is no goal; its successors are new and pairwise distinct; one
/// of them is a goal; and the estimate is zero on the goals among them and
/// on no other.
pub open spec fn goal_one_move_away<S: SearchState>(start: S) -> bool {
    &&& !start.goal()
    &&& start.next_states().len() < usize::MAX
    &&& fresh(opening_table(start), start.next_states())
    &&& exists|i: int|
        0 <= i < start.next_states().len() && (#[trigger] start.next_states()[i]).goal()
    &&& forall|i: int|
        0 <= i < start.next_states().len() ==> ((#[trigger] start.next_states()[i]).goal()
            <==> start.next_states()[i].estimate() == 0)
}

/// Where a goal is one move away in that sense, a goal is next in line after
/// the first step, and the table then holds the start and its successors.
pub proof fn lemma_goal_one_move_away<S: SearchState>(start: S)
    requires
        goal_one_move_away(start),
    ensures
        goal_next_in_line(start),
        first_table(start).len() == 1 + start.next_states().len(),
        forall|entry: FrontierEntry| #[trigger]
            first_in_line(first_queue(start), entry) ==> first_table(
                start,
            )[entry.node as int].parent == Some(0usize) && first_table(
                start,
            )[entry.node as int].g_cost == 1,
{
    let nexts = start.next_states();
    let nodes = opening_table(start);
    lemma_fresh_are_filed(nodes, Multiset::empty(), 0, 1, nexts, nexts.len() as int);
    let table = first_table(start);
    let queue = first_queue(start);
    assert(queue == queue_relaxed(nodes, Multiset::empty(), 0, 1, nexts, nexts.len() as int));
    let i = choose|i: int| 0 <= i < nexts.len() && (#[trigger] nexts[i]).goal();
    let near = filed_entry(nodes, 1, nexts, i);
    assert(queue.contains(near));
    assert forall|other: FrontierEntry| #[trigger] queue.contains(other) implies near.precedes(
        &other,
    ) by {
        let k = choose|k: int|
            0 <= k < nexts.len() && other == #[trigger] filed_entry(nodes, 1, nexts, k);
    }
    assert(first_in_line(queue, near));
    assert forall|entry: FrontierEntry| #[trigger] first_in_line(queue, entry) implies {
        &&& entry.node < table.len()
        &&& !stale(table, entry)
        &&& table[entry.node as int].state.goal()
        &&& table[entry.node as int].parent == Some(0usize)
        &&& table[entry.node as int].g_cost == 1
    } by {
        let k = choose|k: int|
            0 <= k < nexts.len() && entry == #[trigger] filed_entry(nodes, 1, nexts, k);
        assert(entry.precedes(&near));
        assert(table[nodes.len() + k].state == nexts[k]);
        assert(nexts[k].estimate() == 0);
    }
}

} // verus!
