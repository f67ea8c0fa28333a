//! The capability contract of a searchable state, and the graph it induces.

use vstd::prelude::*;

verus! {

/// What a problem state must offer to be explored by the engine.
///
/// Each executable operation is tied to a mathematical model: the goal
/// predicate, the heuristic estimate, the successor list and a digest used to
/// file states away. The engine reasons only over these models and never looks
/// inside a state.
///
/// The models default to values nothing is known of. A verified
/// implementation gives each model its definition, against which its
/// operations are then checked; an implementation that is not verified can
/// leave the models alone.
pub trait SearchState: Sized {
    /// The descriptor of a transition; metadata only.
    type Move;

    /// Whether this state satisfies the goal.
    open spec fn goal(&self) -> bool {
        arbitrary()
    }

    /// The heuristic estimate of the remaining cost.
    open spec fn estimate(&self) -> u32 {
        arbitrary()
    }

    /// The states reachable in one transition, in generation order.
    open spec fn next_states(&self) -> Seq<Self> {
        arbitrary()
    }

    /// A stable digest: equal states have equal digests.
    open spec fn digest(&self) -> u64 {
        arbitrary()
    }

    fn is_goal(&self) -> (found: bool)
        ensures
            found == self.goal(),
    ;

    fn heuristic(&self) -> (h: u32)
        ensures
            h == self.estimate(),
    ;

    fn successors(&self) -> (out: Vec<(Self::Move, Self)>)
        ensures
            out@.len() == self.next_states().len(),
            forall|i: int| 0 <= i < out@.len() ==> (#[trigger] out@[i]).1 == self.next_states()[i],
    ;

    /// Value equality of two states.
    fn same(&self, other: &Self) -> (equal: bool)
        ensures
            equal == (*self == *other),
    ;

    /// The digest under which the state is filed.
    fn fingerprint(&self) -> (key: u64)
        ensures
            key == self.digest(),
    ;

    /// A copy of the state.
    fn duplicate(&self) -> (copy: Self)
        ensures
            copy == *self,
    ;
}

/// A singleton for a transition that exists, nothing for one that does not.
pub open spec fn kept<S>(moved: Option<S>) -> Seq<S> {
    match moved {
        Some(state) => seq![state],
        None => Seq::empty(),
    }
}

/// `path` follows transitions: each state is a successor of the one before it.
pub open spec fn is_walk<S: SearchState>(path: Seq<S>) -> bool {
    forall|i: int| 0 <= i < path.len() - 1 ==> (#[trigger] path[i]).next_states().contains(path[i + 1])
}

/// `path` is a walk that starts at `start` and ends in a goal state.
pub open spec fn is_solution<S: SearchState>(start: S, path: Seq<S>) -> bool {
    &&& path.len() >= 1
    &&& path[0] == start
    &&& path.last().goal()
    &&& is_walk(path)
}

/// Some walk leads from `start` to `state`.
pub open spec fn reachable<S: SearchState>(start: S, state: S) -> bool {
    exists|walk: Seq<S>| #[trigger]
        is_walk(walk) && walk.len() >= 1 && walk[0] == start && walk.last() == state
}

/// The states that can be reached from `start`.
pub open spec fn reachable_set<S: SearchState>(start: S) -> Set<S> {
    Set::new(|state: S| reachable(start, state))
}

/// On the states that can be reached from `start`, the heuristic never
/// exceeds the number of transitions of any walk to a goal.
pub open spec fn admissible_from<S: SearchState>(start: S) -> bool {
    forall|path: Seq<S>| #[trigger]
        is_solution(path[0], path) && reachable(start, path[0]) ==> path[0].estimate()
            <= path.len() - 1
}

/// On the states that can be reached from `start`, the heuristic exceeds the
/// number of transitions of any walk to a goal by at most `slack`.
pub open spec fn overshoots_within<S: SearchState>(start: S, slack: int) -> bool {
    forall|path: Seq<S>| #[trigger]
        is_solution(path[0], path) && reachable(start, path[0]) ==> path[0].estimate()
            <= path.len() - 1 + slack
}

/// On the states that can be reached from `start`, the heuristic drops by at
/// most one along any transition.
pub open spec fn consistent_from<S: SearchState>(start: S) -> bool {
    forall|s: S, k: int|
        reachable(start, s) && 0 <= k < s.next_states().len() ==> s.estimate() <= 1 + (
        #[trigger] s.next_states()[k]).estimate()
}

/// The heuristic never exceeds the number of transitions of any walk from a
/// state to a goal.
pub open spec fn admissible<S: SearchState>() -> bool {
    forall|path: Seq<S>| #[trigger] is_solution(path[0], path) ==> path[0].estimate() <= path.len() - 1
}

/// The heuristic drops by at most one along any transition.
pub open spec fn consistent<S: SearchState>() -> bool {
    forall|s: S, k: int|
        0 <= k < s.next_states().len() ==> s.estimate() <= 1 + (#[trigger] s.next_states()[k]).estimate()
}

/// A heuristic that is admissible everywhere is admissible on what can be
/// reached from any start, and likewise for consistency.
pub proof fn lemma_everywhere_covers_reachable<S: SearchState>(start: S)
    ensures
        admissible::<S>() ==> admissible_from(start),
        consistent::<S>() ==> consistent_from(start),
{
}

/// A walk from `start` shows each of its states to be reachable.
pub proof fn lemma_walk_reaches<S: SearchState>(start: S, walk: Seq<S>, at: int)
    requires
        is_walk(walk),
        walk.len() >= 1,
        walk[0] == start,
        0 <= at < walk.len(),
    ensures
        reachable(start, walk[at]),
{
    let head = walk.subrange(0, at + 1);
    assert(is_walk(head) && head.len() >= 1 && head[0] == start && head.last() == walk[at]);
}

/// A successor of a reachable state is reachable.
pub proof fn lemma_step_reaches<S: SearchState>(start: S, state: S, k: int)
    requires
        reachable(start, state),
        0 <= k < state.next_states().len(),
    ensures
        reachable(start, state.next_states()[k]),
{
    let walk = choose|walk: Seq<S>| #[trigger]
        is_walk(walk) && walk.len() >= 1 && walk[0] == start && walk.last() == state;
    let longer = walk.push(state.next_states()[k]);
    assert(is_walk(longer) && longer.len() >= 1 && longer[0] == start && longer.last()
        == state.next_states()[k]);
}

/// A heuristic that is consistent on what can be reached from `start`, and
/// zero on every goal, is admissible there.
pub proof fn lemma_consistent_is_admissible<S: SearchState>(start: S)
    requires
        consistent_from(start),
        forall|s: S| #[trigger] s.goal() ==> s.estimate() == 0,
    ensures
        admissible_from(start),
{
    assert forall|path: Seq<S>| #[trigger]
        is_solution(path[0], path) && reachable(start, path[0]) implies path[0].estimate()
        <= path.len() - 1 by {
        lemma_estimate_along_walk(start, path, 0);
    }
}

/// Along a walk from a reachable state into a goal, a consistent heuristic
/// that is zero on goals stays within the number of transitions still to
/// come.
proof fn lemma_estimate_along_walk<S: SearchState>(start: S, path: Seq<S>, at: int)
    requires
        consistent_from(start),
        forall|s: S| #[trigger] s.goal() ==> s.estimate() == 0,
        is_walk(path),
        0 <= at < path.len(),
        path.last().goal(),
        reachable(start, path[at]),
    ensures
        path[at].estimate() <= path.len() - 1 - at,
    decreases path.len() - at,
{
    if at < path.len() - 1 {
        let here = path[at];
        let k = choose|k: int|
            0 <= k < here.next_states().len() && here.next_states()[k] == path[at + 1];
        lemma_step_reaches(start, here, k);
        lemma_estimate_along_walk(start, path, at + 1);
    }
}

} // verus!
