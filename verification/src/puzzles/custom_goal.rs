//! The sliding-tile puzzle with a goal arrangement of the caller's choice.
//!
//! The goal travels with the state, so the one engine serves this variant
//! too: the goal test and the estimate read the goal off the state itself.

use crate::puzzles::eight_puzzle::cell_of;
use crate::puzzles::eight_puzzle::exchange_cells;
use crate::puzzles::eight_puzzle::exchanged;
use crate::puzzles::eight_puzzle::first_cell_of;
use crate::puzzles::eight_puzzle::grid_distance;
use crate::puzzles::eight_puzzle::lemma_blank_in_grid;
use crate::puzzles::eight_puzzle::lemma_move_back;
use crate::puzzles::eight_puzzle::lemma_successors_differ;
use crate::puzzles::eight_puzzle::one_blank;
use crate::puzzles::eight_puzzle::same_tiles;
use crate::puzzles::eight_puzzle::target_cell;
use crate::puzzles::eight_puzzle::EightPuzzleState;
use crate::puzzles::eight_puzzle::SlideMove;
use crate::puzzles::parity::all_distinct;
use crate::search::digest::fold_bytes;
use crate::search::digest::folded;
use crate::search::course::fresh;
use crate::search::course::goal_one_move_away;
use crate::search::course::opening_table;
use crate::search::solver::answers;
use crate::search::solver::astar;
use crate::search::solver::lemma_goal_one_move_away_is_found;
use crate::search::solver::SearchReport;
use crate::search::solver::TIME_LIMIT_SECS;
use crate::search::state::admissible_from;
use crate::search::state::is_solution;
use crate::search::state::is_walk;
use crate::search::state::kept;
use crate::search::state::reachable;
use crate::search::state::SearchState;
use crate::search::table::holds_state;
use vstd::prelude::*;

verus! {

/// A working arrangement together with the arrangement to reach.
#[derive(Debug, Clone, Copy, PartialEq, Eq, Hash)]
pub struct CustomGoalState {
    pub state: EightPuzzleState,
    pub goal: EightPuzzleState,
}

/// How far the tile in cell `at` is from the first cell that holds it in the
/// goal; the blank, and a tile the goal does not hold, count for nothing.
pub open spec fn distance_to_home(goal: Seq<u8>, at: int, tile: u8) -> int {
    if tile == 0 || first_cell_of(goal, tile, 0) >= 9 {
        0
    } else {
        grid_distance(at, first_cell_of(goal, tile, 0))
    }
}

/// The sum of the distances to the goal over the first `upto` cells.
pub open spec fn distance_to_goal(tiles: Seq<u8>, goal: Seq<u8>, upto: int) -> int
    decreases upto,
{
    if upto <= 0 {
        0
    } else {
        distance_to_goal(tiles, goal, upto - 1) + distance_to_home(
            goal,
            upto - 1,
            tiles[upto - 1],
        )
    }
}

/// The distance between two numbers.
fn apart(a: usize, b: usize) -> (d: usize)
    ensures
        d == if a >= b {
            a - b
        } else {
            b - a
        },
{
    if a >= b {
        a - b
    } else {
        b - a
    }
}

impl CustomGoalState {
    /// The state after the blank has moved, if the grid allows the move; the
    /// goal stays.
    pub open spec fn slid(&self, mv: SlideMove) -> Option<CustomGoalState> {
        match target_cell(self.state.blank(), mv) {
            Some(target) => Some(
                CustomGoalState {
                    state: EightPuzzleState {
                        tiles: exchanged(self.state.tiles, self.state.blank(), target),
                    },
                    goal: self.goal,
                },
            ),
            None => None,
        }
    }

    /// Moves the blank to `target`.
    fn slide_to(&self, blank: usize, target: usize) -> (next: Self)
        requires
            blank < 9,
            target < 9,
        ensures
            next == (CustomGoalState {
                state: EightPuzzleState {
                    tiles: exchanged(self.state.tiles, blank as int, target as int),
                },
                goal: self.goal,
            }),
    {
        CustomGoalState {
            state: EightPuzzleState { tiles: exchange_cells(&self.state.tiles, blank, target) },
            goal: self.goal,
        }
    }
}

impl SearchState for CustomGoalState {
    type Move = SlideMove;

    open spec fn goal(&self) -> bool {
        self.state.tiles == self.goal.tiles
    }

    open spec fn estimate(&self) -> u32 {
        distance_to_goal(self.state.tiles@, self.goal.tiles@, 9) as u32
    }

    open spec fn next_states(&self) -> Seq<Self> {
        kept(self.slid(SlideMove::Up)) + kept(self.slid(SlideMove::Down)) + kept(
            self.slid(SlideMove::Left),
        ) + kept(self.slid(SlideMove::Right))
    }

    open spec fn digest(&self) -> u64 {
        folded(self.state.tiles@, 9)
    }

    fn is_goal(&self) -> (found: bool) {
        same_tiles(&self.state.tiles, &self.goal.tiles)
    }

    fn heuristic(&self) -> (h: u32) {
        let mut total: u32 = 0;
        let mut idx: usize = 0;
        while idx < 9
            invariant
                idx <= 9,
                total == distance_to_goal(self.state.tiles@, self.goal.tiles@, idx as int),
                total <= 4 * idx,
            decreases 9 - idx,
        {
            let tile = self.state.tiles[idx];
            if tile != 0 {
                match cell_of(&self.goal.tiles, tile) {
                    Some(home) => {
                        let rows = apart(idx / 3, home / 3);
                        let cols = apart(idx % 3, home % 3);
                        total = total + (rows + cols) as u32;
                    },
                    None => {},
                }
            }
            idx += 1;
        }
        total
    }

    fn successors(&self) -> (out: Vec<(SlideMove, Self)>)
        ensures
            forall|i: int|
                0 <= i < out@.len() ==> self.slid((#[trigger] out@[i]).0) == Some(out@[i].1),
    {
        let blank = self.state.blank_index();
        let row = blank / 3;
        let col = blank % 3;
        let mut out: Vec<(SlideMove, Self)> = Vec::new();
        if row > 0 {
            let next = self.slide_to(blank, blank - 3);
            out.push((SlideMove::Up, next));
        }
        if row < 2 {
            let next = self.slide_to(blank, blank + 3);
            out.push((SlideMove::Down, next));
        }
        if col > 0 {
            let next = self.slide_to(blank, blank - 1);
            out.push((SlideMove::Left, next));
        }
        if col < 2 {
            let next = self.slide_to(blank, blank + 1);
            out.push((SlideMove::Right, next));
        }
        out
    }

    fn same(&self, other: &Self) -> (equal: bool) {
        let equal = same_tiles(&self.state.tiles, &other.state.tiles) && same_tiles(
            &self.goal.tiles,
            &other.goal.tiles,
        );
        equal
    }

    fn fingerprint(&self) -> (key: u64) {
        fold_bytes(self.state.tiles.as_slice())
    }

    fn duplicate(&self) -> (copy: Self) {
        *self
    }
}

/// Searches for the goal arrangement that `start` carries.
pub fn astar_custom_goal(start: CustomGoalState) -> (report: SearchReport<CustomGoalState>)
    ensures
        answers(start, report),
{
    astar(start)
}

/// The first cell that holds a tile, from `from` on, lies at or after `from`.
proof fn lemma_first_cell_in_range(tiles: Seq<u8>, tile: u8, from: int)
    requires
        0 <= from <= 9,
    ensures
        from <= first_cell_of(tiles, tile, from) <= 9,
    decreases 9 - from,
{
    if from < 9 && tiles[from] != tile {
        lemma_first_cell_in_range(tiles, tile, from + 1);
    }
}

/// In an arrangement of distinct values every cell is the first to hold its
/// value.
proof fn lemma_first_cell_is_own(tiles: Seq<u8>, cell: int, from: int)
    requires
        all_distinct(tiles),
        0 <= from <= cell < 9,
    ensures
        first_cell_of(tiles, tiles[cell], from) == cell,
    decreases cell - from,
{
    if from < cell {
        lemma_first_cell_is_own(tiles, cell, from + 1);
    }
}

/// An arrangement of distinct values is at distance zero from itself.
proof fn lemma_goal_is_home(goal: Seq<u8>, upto: int)
    requires
        all_distinct(goal),
        0 <= upto <= 9,
    ensures
        distance_to_goal(goal, goal, upto) == 0,
    decreases upto,
{
    if upto > 0 {
        lemma_goal_is_home(goal, upto - 1);
        lemma_first_cell_is_own(goal, upto - 1, 0);
    }
}

/// The distance to the goal fits the type of the estimate.
proof fn lemma_distance_bounded(tiles: Seq<u8>, goal: Seq<u8>, upto: int)
    requires
        0 <= upto <= 9,
    ensures
        0 <= distance_to_goal(tiles, goal, upto) <= 4 * upto,
    decreases upto,
{
    if upto > 0 {
        lemma_distance_bounded(tiles, goal, upto - 1);
        lemma_first_cell_in_range(goal, tiles[upto - 1], 0);
    }
}

/// A move into an arrangement with exactly one blank starts from an
/// arrangement with exactly one blank, whose distance to the goal is at most
/// one more.
proof fn lemma_custom_move_back(before: CustomGoalState, mv: SlideMove)
    requires
        before.slid(mv) is Some,
        one_blank(before.slid(mv)->0.state),
    ensures
        one_blank(before.state),
        before.slid(mv)->0.goal == before.goal,
        distance_to_goal(before.state.tiles@, before.goal.tiles@, 9) <= distance_to_goal(
            before.slid(mv)->0.state.tiles@,
            before.goal.tiles@,
            9,
        ) + 1,
{
    let after = before.slid(mv)->0;
    lemma_move_back(before.state, mv);
    let b = before.state.blank();
    let t = target_cell(b, mv)->0;
    lemma_blank_in_grid(before.state.tiles@, 0);
    lemma_cell_difference(
        before.goal.tiles@,
        before.state.tiles@,
        after.state.tiles@,
        b,
        t,
        9,
    );
}

/// The distances to a goal of two arrangements that differ in two cells
/// differ by what those two cells contribute.
proof fn lemma_cell_difference(
    goal: Seq<u8>,
    before: Seq<u8>,
    after: Seq<u8>,
    a: int,
    b: int,
    upto: int,
)
    requires
        0 <= upto <= 9,
        0 <= a < 9,
        0 <= b < 9,
        a != b,
        forall|j: int| 0 <= j < 9 && j != a && j != b ==> after[j] == before[j],
    ensures
        distance_to_goal(after, goal, upto) - distance_to_goal(before, goal, upto) == (if a
            < upto {
            distance_to_home(goal, a, after[a]) - distance_to_home(goal, a, before[a])
        } else {
            0
        }) + (if b < upto {
            distance_to_home(goal, b, after[b]) - distance_to_home(goal, b, before[b])
        } else {
            0
        }),
    decreases upto,
{
    if upto > 0 {
        lemma_cell_difference(goal, before, after, a, b, upto - 1);
    }
}

/// Which move leads from a state to a given successor.
proof fn lemma_successor_by_move(state: CustomGoalState, k: int) -> (mv: SlideMove)
    requires
        0 <= k < state.next_states().len(),
    ensures
        state.slid(mv) == Some(state.next_states()[k]),
{
    let next = state.next_states()[k];
    if state.slid(SlideMove::Up) == Some(next) {
        SlideMove::Up
    } else if state.slid(SlideMove::Down) == Some(next) {
        SlideMove::Down
    } else if state.slid(SlideMove::Left) == Some(next) {
        SlideMove::Left
    } else {
        SlideMove::Right
    }
}

/// Along a walk every state carries the goal of the first.
pub proof fn lemma_goal_travels(path: Seq<CustomGoalState>, at: int)
    requires
        is_walk(path),
        0 <= at < path.len(),
    ensures
        path[at].goal == path[0].goal,
    decreases at,
{
    if at > 0 {
        lemma_goal_travels(path, at - 1);
    }
}

/// Along a walk into a goal of distinct values with exactly one blank, every
/// arrangement holds exactly one blank, and its distance to the goal stays
/// within the number of moves still to come.
proof fn lemma_custom_estimate_along_solution(path: Seq<CustomGoalState>, at: int)
    requires
        is_walk(path),
        0 <= at < path.len(),
        path.last().goal(),
        all_distinct(path.last().goal.tiles@),
        one_blank(path.last().goal),
    ensures
        one_blank(path[at].state),
        path[at].goal == path.last().goal,
        distance_to_goal(path[at].state.tiles@, path[at].goal.tiles@, 9) <= path.len() - 1 - at,
    decreases path.len() - at,
{
    if at == path.len() - 1 {
        let last = path[at];
        lemma_goal_is_home(last.goal.tiles@, 9);
    } else {
        lemma_custom_estimate_along_solution(path, at + 1);
        let here = path[at];
        let k = choose|k: int|
            0 <= k < here.next_states().len() && here.next_states()[k] == path[at + 1];
        let mv = lemma_successor_by_move(here, k);
        lemma_custom_move_back(here, mv);
    }
}

/// Towards a goal of distinct values with exactly one blank, the distance to
/// the goal never exceeds the number of moves it takes to get there.
pub proof fn lemma_custom_goal_admissible(start: CustomGoalState)
    requires
        all_distinct(start.goal.tiles@),
        one_blank(start.goal),
    ensures
        admissible_from(start),
{
    assert forall|path: Seq<CustomGoalState>| #[trigger]
        is_solution(path[0], path) && reachable(start, path[0]) implies path[0].estimate()
        <= path.len() - 1 by {
        let walk = choose|walk: Seq<CustomGoalState>| #[trigger]
            is_walk(walk) && walk.len() >= 1 && walk[0] == start && walk.last() == path[0];
        lemma_goal_travels(walk, walk.len() - 1);
        lemma_goal_travels(path, path.len() - 1);
        lemma_custom_estimate_along_solution(path, 0);
        lemma_distance_bounded(path[0].state.tiles@, path[0].goal.tiles@, 9);
    }
}

/// A path the engine reports towards a goal of distinct values with exactly
/// one blank takes the fewest moves possible.
pub proof fn lemma_custom_goal_path_is_shortest(
    start: CustomGoalState,
    report: SearchReport<CustomGoalState>,
    other: Seq<CustomGoalState>,
)
    requires
        answers(start, report),
        report.goal_found,
        is_solution(start, other),
        all_distinct(start.goal.tiles@),
        one_blank(start.goal),
    ensures
        report.path@.len() <= other.len(),
{
    lemma_custom_goal_admissible(start);
}

/// Where the distances to the goal of the first `upto` cells sum to zero,
/// each of them is zero.
proof fn lemma_zero_distance_cells(tiles: Seq<u8>, goal: Seq<u8>, upto: int)
    requires
        0 <= upto <= 9,
        distance_to_goal(tiles, goal, upto) == 0,
    ensures
        forall|j: int| 0 <= j < upto ==> distance_to_home(goal, j, #[trigger] tiles[j]) == 0,
    decreases upto,
{
    if upto > 0 {
        lemma_distance_bounded(tiles, goal, upto - 1);
        lemma_first_cell_in_range(goal, tiles[upto - 1], 0);
        lemma_zero_distance_cells(tiles, goal, upto - 1);
    }
}

/// Every value of `tiles` is held by `goal`.
pub open spec fn drawn_from(tiles: Seq<u8>, goal: Seq<u8>) -> bool {
    forall|j: int| 0 <= j < 9 ==> exists|c: int| 0 <= c < 9 && goal[c] == #[trigger] tiles[j]
}

/// An arrangement of distinct values, all held by a goal of distinct values,
/// that is at distance zero from the goal is the goal.
proof fn lemma_zero_distance_is_goal(tiles: Seq<u8>, goal: Seq<u8>)
    requires
        all_distinct(tiles),
        all_distinct(goal),
        drawn_from(tiles, goal),
        distance_to_goal(tiles, goal, 9) == 0,
    ensures
        forall|j: int| 0 <= j < 9 ==> #[trigger] tiles[j] == goal[j],
{
    lemma_zero_distance_cells(tiles, goal, 9);
    assert forall|j: int| 0 <= j < 9 && tiles[j] != 0 implies #[trigger] tiles[j] == goal[j] by {
        let c = choose|c: int| 0 <= c < 9 && goal[c] == tiles[j];
        lemma_first_cell_is_own(goal, c, 0);
        assert(distance_to_home(goal, j, tiles[j]) == 0);
        assert(grid_distance(j, c) == 0);
    }
    assert forall|j: int| 0 <= j < 9 && tiles[j] == 0 implies #[trigger] tiles[j] == goal[j] by {
        let c = choose|c: int| 0 <= c < 9 && goal[c] == tiles[j];
        if c != j {
            assert(tiles[c] != tiles[j]);
            assert(tiles[c] == goal[c]);
        }
    }
}

/// An arrangement from which one move leads to a goal of distinct values
/// with exactly one blank holds distinct values, all of the goal, and exactly
/// one blank.
proof fn lemma_one_move_before_goal(start: CustomGoalState, mv: SlideMove)
    requires
        all_distinct(start.goal.tiles@),
        one_blank(start.goal),
        start.slid(mv) is Some,
        start.slid(mv)->0.goal(),
    ensures
        one_blank(start.state),
        all_distinct(start.state.tiles@),
        drawn_from(start.state.tiles@, start.goal.tiles@),
{
    let goal = start.goal.tiles@;
    let reached = start.slid(mv)->0;
    assert(one_blank(reached.state)) by {
        assert(reached.state.tiles =~= start.goal.tiles);
    }
    lemma_custom_move_back(start, mv);
    lemma_blank_in_grid(start.state.tiles@, 0);
    let b = start.state.blank();
    let t = target_cell(b, mv)->0;
    let home = |j: int|
        if j == b {
            t
        } else if j == t {
            b
        } else {
            j
        };
    assert forall|j: int| 0 <= j < 9 implies #[trigger] start.state.tiles@[j] == goal[home(j)]
        && 0 <= home(j) < 9 by {
        assert(reached.state.tiles@[j] == goal[j]);
        assert(reached.state.tiles@[b] == goal[b]);
        assert(reached.state.tiles@[t] == goal[t]);
    }
    assert forall|i: int, j: int| 0 <= i < 9 && 0 <= j < 9 && i != j implies start.state.tiles@[i]
        != start.state.tiles@[j] by {
        assert(home(i) != home(j));
        assert(goal[home(i)] != goal[home(j)]);
    }
}

/// Among the successors of an arrangement of distinct values of the goal,
/// with exactly one blank, the distance to the goal is zero on the goal and
/// on no other.
proof fn lemma_successor_at_goal(start: CustomGoalState, mv: SlideMove)
    requires
        all_distinct(start.goal.tiles@),
        one_blank(start.state),
        all_distinct(start.state.tiles@),
        drawn_from(start.state.tiles@, start.goal.tiles@),
        start.slid(mv) is Some,
    ensures
        start.slid(mv)->0.goal() <==> start.slid(mv)->0.estimate() == 0,
{
    let goal = start.goal.tiles@;
    let next = start.slid(mv)->0;
    let tiles = next.state.tiles@;
    lemma_blank_in_grid(start.state.tiles@, 0);
    let b = start.state.blank();
    let t = target_cell(b, mv)->0;
    lemma_distance_bounded(tiles, goal, 9);
    if next.goal() {
        assert(tiles =~= goal);
        lemma_goal_is_home(goal, 9);
    }
    if next.estimate() == 0 {
        let from = |j: int|
            if j == b {
                t
            } else if j == t {
                b
            } else {
                j
            };
        assert forall|j: int| 0 <= j < 9 implies #[trigger] tiles[j] == start.state.tiles@[from(j)]
            && 0 <= from(j) < 9 by {}
        assert forall|i: int, j: int| 0 <= i < 9 && 0 <= j < 9 && i != j implies tiles[i]
            != tiles[j] by {
            assert(from(i) != from(j));
            assert(start.state.tiles@[from(i)] != start.state.tiles@[from(j)]);
        }
        assert forall|j: int| 0 <= j < 9 implies exists|c: int|
            0 <= c < 9 && goal[c] == #[trigger] tiles[j] by {
            let c = choose|c: int| 0 <= c < 9 && goal[c] == start.state.tiles@[from(j)];
            assert(goal[c] == tiles[j]);
        }
        lemma_zero_distance_is_goal(tiles, goal);
        assert(next.state.tiles =~= next.goal.tiles);
    }
}

/// The successors of a state whose arrangement holds exactly one blank
/// differ from it and from one another.
proof fn lemma_custom_successors_differ(start: CustomGoalState)
    requires
        one_blank(start.state),
    ensures
        start.next_states().len() <= 4,
        fresh(opening_table(start), start.next_states()),
{
    let nexts = start.next_states();
    let plain = start.state.next_states();
    lemma_successors_differ(start.state);
    assert(nexts.len() == plain.len());
    assert forall|k: int| 0 <= k < nexts.len() implies (#[trigger] nexts[k]).state
        == plain[k] by {}
    assert forall|k: int| 0 <= k < nexts.len() implies !holds_state(
        opening_table(start),
        #[trigger] nexts[k],
    ) by {
        assert(plain[k] != start.state);
    }
    assert forall|k: int, l: int| 0 <= k < l < nexts.len() implies nexts[k] != nexts[l] by {
        assert(plain[k] != plain[l]);
    }
}

/// A state one move away from its goal, a goal of distinct values with
/// exactly one blank, is one whose successors the engine tells apart by the
/// estimate.
proof fn lemma_custom_goal_is_near(start: CustomGoalState)
    requires
        all_distinct(start.goal.tiles@),
        one_blank(start.goal),
        exists|i: int|
            0 <= i < start.next_states().len() && (#[trigger] start.next_states()[i]).goal(),
    ensures
        goal_one_move_away(start),
{
    let nexts = start.next_states();
    let i = choose|i: int| 0 <= i < nexts.len() && (#[trigger] nexts[i]).goal();
    let mv = lemma_successor_by_move(start, i);
    lemma_one_move_before_goal(start, mv);
    lemma_custom_successors_differ(start);
    assert forall|k: int| 0 <= k < nexts.len() implies ((#[trigger] nexts[k]).goal()
        <==> nexts[k].estimate() == 0) by {
        let by_move = lemma_successor_by_move(start, k);
        lemma_successor_at_goal(start, by_move);
    }
    assert(!start.goal()) by {
        if start.goal() {
            assert(nexts[i].goal == start.goal);
            assert(nexts[i].state.tiles =~= start.state.tiles);
            assert(nexts[i] == start);
            assert(holds_state(opening_table(start), nexts[i])) by {
                assert(opening_table(start)[0].state == nexts[i]);
            }
        }
    }
}

/// From a state one move away from its goal, a goal of distinct values with
/// exactly one blank, a search that does not end on the clock expands the
/// start alone, has then seen the start and its successors, and reports the
/// start and the goal.
pub proof fn lemma_custom_goal_one_move_away(
    start: CustomGoalState,
    report: SearchReport<CustomGoalState>,
)
    requires
        answers(start, report),
        all_distinct(start.goal.tiles@),
        one_blank(start.goal),
        exists|i: int|
            0 <= i < start.next_states().len() && (#[trigger] start.next_states()[i]).goal(),
        !report.elapsed.beyond(TIME_LIMIT_SECS),
    ensures
        report.goal_found,
        report.expanded_nodes == 1,
        report.visited_states == 1 + start.next_states().len(),
        report.path@.len() == 2,
{
    lemma_custom_goal_is_near(start);
    lemma_goal_one_move_away_is_found(start, report);
}

} // verus!
