//! The sliding-tile session: a working board and a goal board to edit, and a
//! solution to replay.

use crate::puzzles::custom_goal::astar_custom_goal;
use crate::puzzles::custom_goal::CustomGoalState;
use crate::puzzles::eight_puzzle::cell_of;
use crate::puzzles::eight_puzzle::exchange_cells;
use crate::puzzles::eight_puzzle::exchanged;
use crate::puzzles::eight_puzzle::first_cell_of;
use crate::puzzles::eight_puzzle::same_tiles;
use crate::puzzles::eight_puzzle::set_tile;
use crate::puzzles::eight_puzzle::solvable;
use crate::puzzles::eight_puzzle::with_tile;
use crate::puzzles::eight_puzzle::EightPuzzleState;
use crate::puzzles::eight_puzzle::GOAL;
use crate::search::solver::answers;
use crate::search::solver::SearchReport;
use crate::session::cursor::step_cell;
use crate::session::cursor::stepped_cell;
use crate::text::decimal;
use crate::text::framed;
use crate::text::framed_pair;
use rand::thread_rng;
use vstd::prelude::*;
use vstd::string::StringExecFns;

verus! {

/// A found path and how far the replay has come.
#[derive(Debug, Clone)]
pub struct EightPuzzleSolution {
    pub report: SearchReport<EightPuzzleState>,
    pub step: usize,
}

/// The number of transitions of a path of `states` states.
pub open spec fn steps_of(states: nat) -> nat {
    if states > 0 {
        (states - 1) as nat
    } else {
        0
    }
}

impl EightPuzzleSolution {
    /// The number of moves of the solution.
    pub fn total_steps(&self) -> (steps: usize)
        ensures
            steps == steps_of(self.report.path@.len()),
    {
        let states = self.report.path.len();
        if states > 0 {
            states - 1
        } else {
            0
        }
    }
}

/// The state of the sliding-tile screen.
#[derive(Debug)]
pub struct EightPuzzleSession {
    pub start: EightPuzzleState,
    pub current: EightPuzzleState,
    pub goal_state: EightPuzzleState,
    pub moves_made: usize,
    pub status: String,
    pub solution: Option<EightPuzzleSolution>,
    pub selected_cell: usize,
    pub goal_selected_cell: usize,
    pub editing_goal: bool,
}

/// The arrangement after `number` has been put into `cell`: where the
/// arrangement holds the number already, the two cells trade places.
pub open spec fn with_number(tiles: [u8; 9], cell: int, number: u8) -> [u8; 9] {
    if first_cell_of(tiles@, number, 0) < 9 {
        exchanged(tiles, cell, first_cell_of(tiles@, number, 0))
    } else {
        with_tile(tiles, cell, number)
    }
}

/// The message after `number` has been put into `cell` of an arrangement;
/// `label` starts the messages of the goal board.
pub open spec fn placing_message(label: Seq<char>, tiles: [u8; 9], cell: int, number: u8) -> Seq<
    char,
> {
    if first_cell_of(tiles@, number, 0) < 9 {
        label + "Swapped "@ + decimal(number as nat) + " with cell "@ + decimal(
            (first_cell_of(tiles@, number, 0) + 1) as nat,
        ) + "."@
    } else if tiles[cell] == 0 {
        label + "Placed "@ + decimal(number as nat) + " in cell "@ + decimal((cell + 1) as nat)
            + "."@
    } else {
        label + "Replaced "@ + decimal(tiles[cell] as nat) + " with "@ + decimal(number as nat)
            + " in cell "@ + decimal((cell + 1) as nat) + "."@
    }
}

/// The arrangements of a searched path, without the goal they carry.
pub open spec fn without_goal(path: Seq<CustomGoalState>) -> Seq<EightPuzzleState> {
    Seq::new(path.len(), |i: int| path[i].state)
}

/// Puts `number` into `cell` of an arrangement and words the message.
fn place_on(tiles: &[u8; 9], cell: usize, number: u8, label: &str) -> (done: ([u8; 9], String))
    requires
        cell < 9,
        tiles[cell as int] != number,
    ensures
        done.0 == with_number(*tiles, cell as int, number),
        done.1@ == placing_message(label@, *tiles, cell as int, number),
{
    let current_value = tiles[cell];
    match cell_of(tiles, number) {
        Some(existing_idx) => {
            let mut text = String::from_str(label);
            text.append("Swapped ");
            crate::text::push_decimal(&mut text, number as u64);
            text.append(" with cell ");
            crate::text::push_decimal(&mut text, existing_idx as u64 + 1);
            text.append(".");
            (exchange_cells(tiles, cell, existing_idx), text)
        },
        None => {
            if current_value == 0 {
                let mut text = String::from_str(label);
                text.append("Placed ");
                crate::text::push_decimal(&mut text, number as u64);
                text.append(" in cell ");
                crate::text::push_decimal(&mut text, cell as u64 + 1);
                text.append(".");
                (set_tile(tiles, cell, number), text)
            } else {
                let mut text = String::from_str(label);
                text.append("Replaced ");
                crate::text::push_decimal(&mut text, current_value as u64);
                text.append(" with ");
                crate::text::push_decimal(&mut text, number as u64);
                text.append(" in cell ");
                crate::text::push_decimal(&mut text, cell as u64 + 1);
                text.append(".");
                (set_tile(tiles, cell, number), text)
            }
        },
    }
}

impl EightPuzzleSession {
    /// Both selections are cells of the grid.
    pub open spec fn wf(&self) -> bool {
        self.selected_cell < 9 && self.goal_selected_cell < 9
    }

    /// The status line of a fresh session.
    pub fn base_message() -> (text: String)
        ensures
            text@
                == "Use arrows to select cell, 1-8 to place number. Tab switches boards. R resets, N shuffles, S solves, Space replays."@,
    {
        String::from_str(
            "Use arrows to select cell, 1-8 to place number. Tab switches boards. R resets, N shuffles, S solves, Space replays.",
        )
    }

    /// A fresh session on `state`, with the solved arrangement for its goal.
    pub fn starting_from(state: EightPuzzleState) -> (session: Self)
        ensures
            session.wf(),
            session.start == state,
            session.current == state,
            session.goal_state.tiles == GOAL,
            session.moves_made == 0,
            session.status@ == Self::base_message_text(),
            session.solution is None,
            session.selected_cell == 0,
            session.goal_selected_cell == 0,
            !session.editing_goal,
    {
        Self {
            start: state,
            current: state,
            goal_state: EightPuzzleState::default(),
            moves_made: 0,
            status: Self::base_message(),
            solution: None,
            selected_cell: 0,
            goal_selected_cell: 0,
            editing_goal: false,
        }
    }

    /// The status line of a fresh session.
    pub open spec fn base_message_text() -> Seq<char> {
        "Use arrows to select cell, 1-8 to place number. Tab switches boards. R resets, N shuffles, S solves, Space replays."@
    }

    /// A fresh session on a random board that can be solved.
    pub fn randomized() -> (session: Self)
        ensures
            session.wf(),
            solvable(session.start.tiles@),
            session.start.tiles@.to_multiset() == GOAL@.to_multiset(),
            session.current == session.start,
            session.goal_state.tiles == GOAL,
            session.moves_made == 0,
            session.status@ == Self::base_message_text(),
            session.solution is None,
            session.selected_cell == 0,
            session.goal_selected_cell == 0,
            !session.editing_goal,
    {
        let mut rng = thread_rng();
        let state = EightPuzzleState::random_solvable(&mut rng);
        Self::starting_from(state)
    }

    /// Goes back to the starting arrangement.
    pub fn reset(&mut self)
        ensures
            final(self).current == old(self).start,
            final(self).moves_made == 0,
            final(self).solution is None,
            final(self).selected_cell == 0,
            !final(self).editing_goal,
            final(self).status@ == "Reset to starting arrangement."@,
            final(self).start == old(self).start,
            final(self).goal_state == old(self).goal_state,
            final(self).goal_selected_cell == old(self).goal_selected_cell,
    {
        self.current = self.start;
        self.moves_made = 0;
        self.solution = None;
        self.selected_cell = 0;
        self.editing_goal = false;
        self.status = String::from_str("Reset to starting arrangement.");
    }

    /// Starts over on `state`.
    pub fn load_board(&mut self, state: EightPuzzleState)
        ensures
            final(self).start == state,
            final(self).current == state,
            final(self).moves_made == 0,
            final(self).solution is None,
            final(self).selected_cell == 0,
            final(self).status@ == "Generated a new solvable board."@,
            final(self).goal_state == old(self).goal_state,
            final(self).goal_selected_cell == old(self).goal_selected_cell,
            final(self).editing_goal == old(self).editing_goal,
    {
        self.start = state;
        self.current = state;
        self.moves_made = 0;
        self.solution = None;
        self.selected_cell = 0;
        self.status = String::from_str("Generated a new solvable board.");
    }

    /// Starts over on a random board that can be solved.
    pub fn new_board(&mut self)
        ensures
            solvable(final(self).start.tiles@),
            final(self).start.tiles@.to_multiset() == GOAL@.to_multiset(),
            final(self).current == final(self).start,
            final(self).moves_made == 0,
            final(self).solution is None,
            final(self).selected_cell == 0,
            final(self).status@ == "Generated a new solvable board."@,
            final(self).goal_state == old(self).goal_state,
            final(self).goal_selected_cell == old(self).goal_selected_cell,
            final(self).editing_goal == old(self).editing_goal,
    {
        let mut rng = thread_rng();
        let state = EightPuzzleState::random_solvable(&mut rng);
        self.load_board(state);
    }

    /// Replaces the board under edit by `state`: the goal board while the
    /// goal is edited, the working board otherwise.
    pub fn load_shuffle(&mut self, state: EightPuzzleState)
        ensures
            final(self).start == old(self).start,
            final(self).editing_goal == old(self).editing_goal,
            old(self).editing_goal ==> {
                &&& final(self).goal_state == state
                &&& final(self).goal_selected_cell == 0
                &&& final(self).status@ == "Goal board shuffled randomly."@
                &&& final(self).current == old(self).current
                &&& final(self).moves_made == old(self).moves_made
                &&& final(self).solution == old(self).solution
                &&& final(self).selected_cell == old(self).selected_cell
            },
            !old(self).editing_goal ==> {
                &&& final(self).current == state
                &&& final(self).moves_made == 0
                &&& final(self).solution is None
                &&& final(self).selected_cell == 0
                &&& final(self).status@ == "Board shuffled randomly."@
                &&& final(self).goal_state == old(self).goal_state
                &&& final(self).goal_selected_cell == old(self).goal_selected_cell
            },
    {
        if self.editing_goal {
            self.goal_state = state;
            self.goal_selected_cell = 0;
            self.status = String::from_str("Goal board shuffled randomly.");
        } else {
            self.current = state;
            self.moves_made = 0;
            self.solution = None;
            self.selected_cell = 0;
            self.status = String::from_str("Board shuffled randomly.");
        }
    }

    /// Replaces the board under edit by a random board that can be solved.
    pub fn shuffle(&mut self)
        ensures
            final(self).start == old(self).start,
            final(self).editing_goal == old(self).editing_goal,
            old(self).editing_goal ==> {
                &&& solvable(final(self).goal_state.tiles@)
                &&& final(self).goal_state.tiles@.to_multiset() == GOAL@.to_multiset()
                &&& final(self).goal_selected_cell == 0
                &&& final(self).status@ == "Goal board shuffled randomly."@
                &&& final(self).current == old(self).current
                &&& final(self).moves_made == old(self).moves_made
                &&& final(self).solution == old(self).solution
                &&& final(self).selected_cell == old(self).selected_cell
            },
            !old(self).editing_goal ==> {
                &&& solvable(final(self).current.tiles@)
                &&& final(self).current.tiles@.to_multiset() == GOAL@.to_multiset()
                &&& final(self).moves_made == 0
                &&& final(self).solution is None
                &&& final(self).selected_cell == 0
                &&& final(self).status@ == "Board shuffled randomly."@
                &&& final(self).goal_state == old(self).goal_state
                &&& final(self).goal_selected_cell == old(self).goal_selected_cell
            },
    {
        let mut rng = thread_rng();
        let state = EightPuzzleState::random_solvable(&mut rng);
        self.load_shuffle(state);
    }

    /// Switches between editing the working board and editing the goal.
    pub fn toggle_editing_goal(&mut self)
        ensures
            final(self).editing_goal == !old(self).editing_goal,
            final(self).status@ == if final(self).editing_goal {
                "Now editing goal board. Use Tab to switch back."@
            } else {
                "Now editing current board. Use Tab to edit goal."@
            },
            final(self).start == old(self).start,
            final(self).current == old(self).current,
            final(self).goal_state == old(self).goal_state,
            final(self).moves_made == old(self).moves_made,
            final(self).solution == old(self).solution,
            final(self).selected_cell == old(self).selected_cell,
            final(self).goal_selected_cell == old(self).goal_selected_cell,
    {
        self.editing_goal = !self.editing_goal;
        if self.editing_goal {
            self.status = String::from_str("Now editing goal board. Use Tab to switch back.");
        } else {
            self.status = String::from_str("Now editing current board. Use Tab to edit goal.");
        }
    }

    /// Moves the selection of the board under edit, holding it within the
    /// grid.
    pub fn move_cursor(&mut self, row_delta: isize, col_delta: isize)
        ensures
            old(self).editing_goal ==> {
                &&& final(self).goal_selected_cell == stepped_cell(
                    old(self).goal_selected_cell as int,
                    row_delta as int,
                    col_delta as int,
                )
                &&& final(self).selected_cell == old(self).selected_cell
            },
            !old(self).editing_goal ==> {
                &&& final(self).selected_cell == stepped_cell(
                    old(self).selected_cell as int,
                    row_delta as int,
                    col_delta as int,
                )
                &&& final(self).goal_selected_cell == old(self).goal_selected_cell
            },
            old(self).wf() ==> final(self).wf(),
            final(self).start == old(self).start,
            final(self).current == old(self).current,
            final(self).goal_state == old(self).goal_state,
            final(self).moves_made == old(self).moves_made,
            final(self).status == old(self).status,
            final(self).solution == old(self).solution,
            final(self).editing_goal == old(self).editing_goal,
    {
        if self.editing_goal {
            self.goal_selected_cell = step_cell(self.goal_selected_cell, row_delta, col_delta);
        } else {
            self.selected_cell = step_cell(self.selected_cell, row_delta, col_delta);
        }
    }

    /// Puts `number` into the selected cell of the board under edit. A number
    /// the board holds elsewhere trades places with the selected cell.
    /// Numbers other than one to eight, and the number the cell holds
    /// already, are turned down.
    pub fn place_number(&mut self, number: u8) -> (placed: bool)
        requires
            old(self).wf(),
            old(self).moves_made < usize::MAX,
        ensures
            final(self).wf(),
            final(self).start == old(self).start,
            final(self).selected_cell == old(self).selected_cell,
            final(self).goal_selected_cell == old(self).goal_selected_cell,
            final(self).editing_goal == old(self).editing_goal,
            number == 0 || number > 8 ==> {
                &&& !placed
                &&& final(self).status@ == "Invalid number: "@ + decimal(number as nat)
                    + ". Use 1-8."@
            },
            1 <= number <= 8 && old(self).editing_goal ==> {
                &&& placed == (old(self).goal_state.tiles[old(self).goal_selected_cell as int]
                    != number)
                &&& final(self).current == old(self).current
                &&& final(self).moves_made == old(self).moves_made
                &&& !placed ==> final(self).status@ == "Goal cell already contains "@ + decimal(
                    number as nat,
                ) + "."@
                &&& placed ==> {
                    &&& final(self).goal_state.tiles == with_number(
                        old(self).goal_state.tiles,
                        old(self).goal_selected_cell as int,
                        number,
                    )
                    &&& final(self).status@ == placing_message(
                        "Goal: "@,
                        old(self).goal_state.tiles,
                        old(self).goal_selected_cell as int,
                        number,
                    )
                }
            },
            1 <= number <= 8 && !old(self).editing_goal ==> {
                &&& placed == (old(self).current.tiles[old(self).selected_cell as int] != number)
                &&& final(self).goal_state == old(self).goal_state
                &&& !placed ==> final(self).status@ == "Cell already contains "@ + decimal(
                    number as nat,
                ) + "."@
                &&& placed ==> {
                    &&& final(self).current.tiles == with_number(
                        old(self).current.tiles,
                        old(self).selected_cell as int,
                        number,
                    )
                    &&& final(self).moves_made == old(self).moves_made + 1
                    &&& final(self).status@ == placing_message(
                        ""@,
                        old(self).current.tiles,
                        old(self).selected_cell as int,
                        number,
                    )
                }
            },
            placed ==> final(self).solution is None,
            !placed ==> {
                &&& final(self).solution == old(self).solution
                &&& final(self).current == old(self).current
                &&& final(self).goal_state == old(self).goal_state
                &&& final(self).moves_made == old(self).moves_made
            },
    {
        if number == 0 || number > 8 {
            self.status = framed("Invalid number: ", number as u64, ". Use 1-8.");
            return false;
        }
        if self.editing_goal {
            let current_value = self.goal_state.tiles[self.goal_selected_cell];
            if current_value == number {
                self.status = framed("Goal cell already contains ", number as u64, ".");
                return false;
            }
            let (tiles, text) = place_on(
                &self.goal_state.tiles,
                self.goal_selected_cell,
                number,
                "Goal: ",
            );
            self.goal_state = EightPuzzleState { tiles };
            self.solution = None;
            self.status = text;
            true
        } else {
            let current_value = self.current.tiles[self.selected_cell];
            if current_value == number {
                self.status = framed("Cell already contains ", number as u64, ".");
                return false;
            }
            let (tiles, text) = place_on(&self.current.tiles, self.selected_cell, number, "");
            self.current = EightPuzzleState { tiles };
            self.moves_made += 1;
            self.solution = None;
            self.status = text;
            true
        }
    }

    /// Whether the working board shows the goal arrangement.
    pub fn is_solved(&self) -> (solved: bool)
        ensures
            solved == (self.current.tiles == self.goal_state.tiles),
    {
        same_tiles(&self.current.tiles, &self.goal_state.tiles)
    }

    /// What taking the report of a search makes of a session: a found path
    /// is kept for replay from its first state, anything else leaves the
    /// session without a solution.
    pub open spec fn report_taken(
        before: Self,
        report: SearchReport<CustomGoalState>,
        after: Self,
    ) -> bool {
        &&& after.start == before.start
        &&& after.goal_state == before.goal_state
        &&& after.selected_cell == before.selected_cell
        &&& after.goal_selected_cell == before.goal_selected_cell
        &&& after.editing_goal == before.editing_goal
        &&& if report.goal_found && report.path@.len() > 0 {
            &&& after.solution is Some
            &&& after.solution->0.step == 0
            &&& after.solution->0.report.path@ == without_goal(report.path@)
            &&& after.solution->0.report.expanded_nodes == report.expanded_nodes
            &&& after.solution->0.report.visited_states == report.visited_states
            &&& after.solution->0.report.goal_found
            &&& after.solution->0.report.elapsed == report.elapsed
            &&& after.current == report.path@[0].state
            &&& after.moves_made == 0
            &&& after.status@ == "Solution ready ("@ + decimal(steps_of(report.path@.len()))
                + " moves). Press Space to step."@
        } else {
            &&& after.solution is None
            &&& after.current == before.current
            &&& after.moves_made == before.moves_made
            &&& after.status@ == "No solution found (should never happen)."@
        }
    }

    /// Takes the report of a search: a found path is kept for replay.
    pub fn take_report(&mut self, report: SearchReport<CustomGoalState>)
        ensures
            Self::report_taken(*old(self), report, *final(self)),
    {
        if report.goal_found && report.path.len() > 0 {
            let mut actual_path: Vec<EightPuzzleState> = Vec::new();
            let mut i: usize = 0;
            while i < report.path.len()
                invariant
                    i <= report.path@.len(),
                    actual_path@.len() == i,
                    forall|k: int| 0 <= k < i ==> (#[trigger] actual_path@[k]) == report.path@[k].state,
                decreases report.path@.len() - i,
            {
                actual_path.push(report.path[i].state);
                i += 1;
            }
            assert(actual_path@ =~= without_goal(report.path@));
            let actual_report = SearchReport {
                path: actual_path,
                expanded_nodes: report.expanded_nodes,
                visited_states: report.visited_states,
                goal_found: report.goal_found,
                elapsed: report.elapsed,
            };
            let solution = EightPuzzleSolution { report: actual_report, step: 0 };
            let first = solution.report.path[0];
            self.status = framed(
                "Solution ready (",
                solution.total_steps() as u64,
                " moves). Press Space to step.",
            );
            self.solution = Some(solution);
            self.moves_made = 0;
            self.current = first;
        } else {
            self.solution = None;
            self.status = String::from_str("No solution found (should never happen).");
        }
    }

    /// Searches for a way from the working board to the goal board and keeps
    /// what was found for replay.
    pub fn solve_current(&mut self)
        ensures
            final(self).current == old(self).current,
            exists|report: SearchReport<CustomGoalState>| #[trigger]
                answers(
                    CustomGoalState { state: old(self).current, goal: old(self).goal_state },
                    report,
                ) && Self::report_taken(*old(self), report, *final(self)),
    {
        let start_state = CustomGoalState { state: self.current, goal: self.goal_state };
        let report = astar_custom_goal(start_state);
        let ghost found = report;
        self.take_report(report);
        assert(answers(start_state, found) && Self::report_taken(*old(self), found, *self));
    }

    /// Shows the next state of the solution, if there is one.
    pub fn advance_solution(&mut self) -> (advanced: bool)
        ensures
            final(self).start == old(self).start,
            final(self).goal_state == old(self).goal_state,
            final(self).selected_cell == old(self).selected_cell,
            final(self).goal_selected_cell == old(self).goal_selected_cell,
            final(self).editing_goal == old(self).editing_goal,
            match old(self).solution {
                Some(solution) => {
                    &&& advanced == (solution.step + 1 < solution.report.path@.len())
                    &&& advanced ==> {
                        &&& final(self).solution == Some(
                            EightPuzzleSolution { report: solution.report, step: (solution.step + 1) as usize },
                        )
                        &&& final(self).current == solution.report.path@[solution.step + 1]
                        &&& final(self).moves_made == solution.step + 1
                        &&& final(self).status@ == if solution.step + 2
                            == solution.report.path@.len() {
                            "Solution complete! Board solved."@
                        } else {
                            "Replaying solution: step "@ + decimal((solution.step + 1) as nat)
                                + " / "@ + decimal(steps_of(solution.report.path@.len()))
                        }
                    }
                    &&& !advanced ==> {
                        &&& final(self).solution == old(self).solution
                        &&& final(self).current == old(self).current
                        &&& final(self).moves_made == old(self).moves_made
                        &&& final(self).status@ == "Already at final solution state."@
                    }
                },
                None => {
                    &&& !advanced
                    &&& final(self).solution is None
                    &&& final(self).current == old(self).current
                    &&& final(self).moves_made == old(self).moves_made
                    &&& final(self).status@ == "Run the solver with 'S' first."@
                },
            },
    {
        match &mut self.solution {
            Some(solution) => {
                let states = solution.report.path.len();
                if solution.step < states && solution.step + 1 < states {
                    solution.step += 1;
                    let state = solution.report.path[solution.step];
                    let step = solution.step;
                    let total = solution.total_steps();
                    self.current = state;
                    self.moves_made = step;
                    if step == states - 1 {
                        self.status = String::from_str("Solution complete! Board solved.");
                    } else {
                        self.status = framed_pair(
                            "Replaying solution: step ",
                            step as u64,
                            " / ",
                            total as u64,
                            "",
                        );
                        proof {
                            reveal_strlit("");
                        }
                    }
                    true
                } else {
                    self.status = String::from_str("Already at final solution state.");
                    false
                }
            },
            None => {
                self.status = String::from_str("Run the solver with 'S' first.");
                false
            },
        }
    }
}

} // verus!
