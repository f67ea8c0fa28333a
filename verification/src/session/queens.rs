//! The queens session: a board to place queens on by hand, to scatter a few
//! on, or to have completed by the engine.

use crate::puzzles::eight_queens::conflicts;
use crate::puzzles::eight_queens::lemma_free_square_keeps_peace;
use crate::puzzles::eight_queens::lemma_peaceful_has_no_conflicts;
use crate::puzzles::eight_queens::missing;
use crate::puzzles::eight_queens::no_queens;
use crate::puzzles::eight_queens::peaceful;
use crate::puzzles::eight_queens::square_free;
use crate::puzzles::eight_queens::with_row;
use crate::puzzles::eight_queens::EightQueensState;
use crate::puzzles::eight_queens::PlaceQueen;
use crate::random::draw_between;
use crate::search::clock::Elapsed;
use crate::search::solver::answers;
use crate::search::solver::astar;
use crate::search::solver::SearchReport;
use crate::search::solver::TIME_LIMIT_SECS;
use crate::search::state::SearchState;
use crate::session::cursor::step_within;
use crate::session::cursor::stepped;
use crate::session::eight_puzzle::steps_of;
use crate::text::decimal;
use crate::text::framed;
use crate::text::framed_pair;
use rand::rngs::ThreadRng;
use rand::thread_rng;
use vstd::prelude::*;
use vstd::string::StringExecFns;

verus! {

/// A found path and how far the replay has come.
#[derive(Debug, Clone)]
pub struct EightQueensSolution {
    pub report: SearchReport<EightQueensState>,
    pub step: usize,
}

impl EightQueensSolution {
    /// The number of placements of the solution.
    pub fn total_steps(&self) -> (steps: usize)
        ensures
            steps == steps_of(self.report.path@.len()),
    {
        let states = self.report.path.len();
        if states > 0 {
            states - 1
        } else {
            0
        }
    }
}

/// The state of the queens screen.
#[derive(Debug)]
pub struct EightQueensSession {
    pub state: EightQueensState,
    pub status: String,
    pub solution: Option<EightQueensSolution>,
    pub selected_row: usize,
    pub selected_col: usize,
}

/// The columns of `row`, among the first `upto`, that no queen attacks.
pub open spec fn free_columns(queens: Seq<Option<u8>>, row: int, upto: int) -> Seq<u8>
    decreases upto,
{
    if upto <= 0 {
        Seq::empty()
    } else if square_free(queens, row, upto - 1) {
        free_columns(queens, row, upto - 1).push((upto - 1) as u8)
    } else {
        free_columns(queens, row, upto - 1)
    }
}

/// The row a scattered queen goes to: among the first `upto` rows not yet
/// used, one with the most free columns and at least one, the last of them
/// where several have as many.
pub open spec fn widest_row(queens: Seq<Option<u8>>, used: Seq<bool>, upto: int) -> Option<int>
    decreases upto,
{
    if upto <= 0 {
        None
    } else {
        let earlier = widest_row(queens, used, upto - 1);
        let here = free_columns(queens, upto - 1, 8).len();
        if used[upto - 1] || here == 0 {
            earlier
        } else {
            match earlier {
                Some(best) => if here >= free_columns(queens, best, 8).len() {
                    Some(upto - 1)
                } else {
                    earlier
                },
                None => Some(upto - 1),
            }
        }
    }
}

/// The message after a scattered board has been taken.
pub open spec fn scattered_message(queens: Seq<Option<u8>>) -> Seq<char> {
    if conflicts(queens) == 0 {
        "Shuffled: "@ + decimal((8 - missing(queens, 8)) as nat)
            + " queens placed with no conflicts. State is solvable."@
    } else {
        "Shuffled: "@ + decimal((8 - missing(queens, 8)) as nat) + " queens placed. Conflicts: "@
            + decimal(conflicts(queens)) + ". State is solvable."@
    }
}

/// A span of seconds and whole milliseconds in tenths of a second, rounded to
/// the nearest tenth; fifty milliseconds round up.
pub open spec fn tenths(secs: int, millis: int) -> int {
    secs * 10 + (millis + 50) / 100
}

/// The message after a search that found nothing.
pub open spec fn failure_message(expanded: usize, elapsed: Elapsed) -> Seq<char> {
    if elapsed.secs >= TIME_LIMIT_SECS {
        "Search timed out after 1 hour ("@ + decimal(expanded as nat)
            + " nodes explored). The puzzle may be unsolvable from this state, or try shuffling (H)."@
    } else if expanded == 0 {
        "No valid moves available. Try shuffling (H) for a different starting state."@
    } else if expanded < 10 {
        "Search terminated early ("@ + decimal(expanded as nat)
            + " states). This may indicate the starting state has no valid successors. Try shuffling (H)."@
    } else {
        "No solution found after exploring "@ + decimal(expanded as nat) + " states in "@
            + decimal((tenths(elapsed.secs as int, (elapsed.nanos / 1_000_000) as int) / 10) as nat) + "."@
            + decimal((tenths(elapsed.secs as int, (elapsed.nanos / 1_000_000) as int) % 10) as nat)
            + "s. Still searching... Try shuffling (H) for a different starting state, or wait longer."@
    }
}

/// The message after the selected square has taken a queen.
pub open spec fn queen_placed_message(queens: Seq<Option<u8>>, row: int, col: int) -> Seq<char> {
    if conflicts(queens) == 0 && missing(queens, 8) == 0 {
        "Perfect! All 8 queens placed with no conflicts."@
    } else if conflicts(queens) == 0 {
        "Placed queen at row "@ + decimal((row + 1) as nat) + ", col "@ + decimal(
            (col + 1) as nat,
        ) + ". No conflicts yet."@
    } else {
        "Placed queen at row "@ + decimal((row + 1) as nat) + ", col "@ + decimal(
            (col + 1) as nat,
        ) + ". Conflicts: "@ + decimal(conflicts(queens)) + "."@
    }
}

/// The columns of `row` that no queen attacks, in order.
pub fn open_columns(state: &EightQueensState, row: u8) -> (cols: Vec<u8>)
    ensures
        cols@ == free_columns(state.queens@, row as int, 8),
        cols@.len() <= 8,
        forall|k: int|
            0 <= k < cols@.len() ==> (#[trigger] cols@[k]) < 8 && square_free(
                state.queens@,
                row as int,
                cols@[k] as int,
            ),
{
    let mut cols: Vec<u8> = Vec::new();
    let mut col: u8 = 0;
    while col < 8
        invariant
            col <= 8,
            cols@ == free_columns(state.queens@, row as int, col as int),
            cols@.len() <= col,
            forall|k: int|
                0 <= k < cols@.len() ==> (#[trigger] cols@[k]) < 8 && square_free(
                    state.queens@,
                    row as int,
                    cols@[k] as int,
                ),
        decreases 8 - col,
    {
        if state.is_valid_placement(row, col) {
            cols.push(col);
        }
        col += 1;
    }
    cols
}

/// The row a scattered queen goes to, with its free columns.
pub fn most_open_row(state: &EightQueensState, rows_used: &[bool; 8]) -> (best: Option<
    (usize, Vec<u8>),
>)
    ensures
        match best {
            Some((row, cols)) => {
                &&& row < 8
                &&& !rows_used[row as int]
                &&& widest_row(state.queens@, rows_used@, 8) == Some(row as int)
                &&& cols@ == free_columns(state.queens@, row as int, 8)
                &&& cols@.len() > 0
                &&& forall|k: int|
                    0 <= k < cols@.len() ==> (#[trigger] cols@[k]) < 8 && square_free(
                        state.queens@,
                        row as int,
                        cols@[k] as int,
                    )
            },
            None => widest_row(state.queens@, rows_used@, 8) is None,
        },
{
    let mut best: Option<(usize, Vec<u8>)> = None;
    let mut row: u8 = 0;
    while row < 8
        invariant
            row <= 8,
            match best {
                Some((found, cols)) => {
                    &&& found < row
                    &&& !rows_used[found as int]
                    &&& widest_row(state.queens@, rows_used@, row as int) == Some(found as int)
                    &&& cols@ == free_columns(state.queens@, found as int, 8)
                    &&& cols@.len() > 0
                    &&& forall|k: int|
                        0 <= k < cols@.len() ==> (#[trigger] cols@[k]) < 8 && square_free(
                            state.queens@,
                            found as int,
                            cols@[k] as int,
                        )
                },
                None => widest_row(state.queens@, rows_used@, row as int) is None,
            },
        decreases 8 - row,
    {
        if !rows_used[row as usize] {
            let valid_cols = open_columns(state, row);
            if valid_cols.len() > 0 {
                let wider = match &best {
                    Some((_, cols)) => valid_cols.len() >= cols.len(),
                    None => true,
                };
                if wider {
                    best = Some((row as usize, valid_cols));
                }
            }
        }
        row += 1;
    }
    best
}

/// A board with one to four queens scattered at random, no two of which
/// attack each other: each goes to the row [`widest_row`] names, into one
/// of its free columns.
pub fn scatter_queens(rng: &mut ThreadRng) -> (board: EightQueensState)
    ensures
        4 <= missing(board.queens@, 8) <= 7,
        peaceful(board.queens@),
        conflicts(board.queens@) == 0,
        forall|row: int|
            0 <= row < 8 ==> match #[trigger] board.queens[row] {
                Some(col) => col < 8,
                None => true,
            },
{
    let num_queens = draw_between(rng, 1, 4);
    let mut board = EightQueensState::default();
    let mut rows_used: [bool; 8] = [false;8];
    let mut placed: usize = 0;
    proof {
        lemma_missing_of_empty(board.queens@, 8);
    }
    while placed < num_queens
        invariant
            placed <= num_queens <= 4,
            1 <= num_queens,
            missing(board.queens@, 8) == 8 - placed,
            placed == 0 ==> board.queens == no_queens(),
            peaceful(board.queens@),
            forall|row: int| 0 <= row < 8 ==> rows_used[row] == (#[trigger] board.queens[row] is Some),
            forall|row: int|
                0 <= row < 8 ==> match #[trigger] board.queens[row] {
                    Some(col) => col < 8,
                    None => true,
                },
        ensures
            1 <= placed <= 4,
        decreases num_queens - placed,
    {
        match most_open_row(&board, &rows_used) {
            Some((row, options)) => {
                let col = options[draw_between(rng, 0, options.len() - 1)];
                match board.apply_placement(PlaceQueen { row: row as u8, col }) {
                    Some(updated) => {
                        proof {
                            lemma_missing_after_fill(board.queens@, updated.queens@, row as int, 8);
                            lemma_free_square_keeps_peace(
                                board.queens@,
                                updated.queens@,
                                row as int,
                                col as int,
                            );
                        }
                        board = updated;
                        rows_used[row] = true;
                        placed += 1;
                    },
                    None => {
                        break ;
                    },
                }
            },
            None => {
                break ;
            },
        }
    }
    proof {
        lemma_peaceful_has_no_conflicts(board.queens@);
    }
    board
}

impl Default for EightQueensSession {
    fn default() -> (session: Self)
        ensures
            session.wf(),
            session.state.queens == no_queens(),
            session.status@ == EightQueensSession::base_status_text(),
            session.solution is None,
            session.selected_row == 0,
            session.selected_col == 0,
    {
        Self {
            state: EightQueensState::default(),
            status: Self::base_status(),
            solution: None,
            selected_row: 0,
            selected_col: 0,
        }
    }
}

impl EightQueensSession {
    /// The selected square is on the board.
    pub open spec fn wf(&self) -> bool {
        self.selected_row < 8 && self.selected_col < 8
    }

    /// The status line of a fresh session.
    pub open spec fn base_status_text() -> Seq<char> {
        "Use arrows to select cell, Space to place/remove queen. S solves, R resets, H shuffles."@
    }

    /// The status line of a fresh session.
    pub fn base_status() -> (text: String)
        ensures
            text@ == Self::base_status_text(),
    {
        String::from_str(
            "Use arrows to select cell, Space to place/remove queen. S solves, R resets, H shuffles.",
        )
    }

    /// Clears the board.
    pub fn reset(&mut self)
        ensures
            final(self).wf(),
            final(self).state.queens == no_queens(),
            final(self).status@ == Self::base_status_text(),
            final(self).solution is None,
            final(self).selected_row == 0,
            final(self).selected_col == 0,
    {
        self.state = EightQueensState::default();
        self.status = Self::base_status();
        self.solution = None;
        self.selected_row = 0;
        self.selected_col = 0;
    }

    /// Takes `board` for the session's board and drops the solution. The
    /// status is worded only where the board's first empty row still has a
    /// free square.
    pub fn adopt_board(&mut self, board: EightQueensState) -> (kept: bool)
        ensures
            final(self).state == board,
            final(self).solution is None,
            final(self).selected_row == old(self).selected_row,
            final(self).selected_col == old(self).selected_col,
            kept == (board.next_states().len() > 0),
            kept ==> final(self).status@ == scattered_message(board.queens@),
            !kept ==> final(self).status == old(self).status,
    {
        self.state = board;
        self.solution = None;
        let clashing = self.state.count_conflicts();
        let queens_placed = 8 - self.state.count_missing();
        let has_successors = self.state.successors().len() > 0;
        if clashing == 0 && has_successors {
            self.status = framed(
                "Shuffled: ",
                queens_placed as u64,
                " queens placed with no conflicts. State is solvable.",
            );
            true
        } else if has_successors {
            self.status = framed_pair(
                "Shuffled: ",
                queens_placed as u64,
                " queens placed. Conflicts: ",
                clashing as u64,
                ". State is solvable.",
            );
            true
        } else {
            false
        }
    }

    /// Takes the board with a single queen on the square `(row, col)`; a
    /// square off the board leaves the board empty.
    pub fn adopt_single(&mut self, row: u8, col: u8)
        ensures
            final(self).solution == old(self).solution,
            final(self).selected_row == old(self).selected_row,
            final(self).selected_col == old(self).selected_col,
            row < 8 && col < 8 ==> {
                &&& final(self).state.queens == with_row(no_queens(), row as int, Some(col))
                &&& final(self).status@ == "Shuffled: 1 queen placed. State is solvable."@
            },
            !(row < 8 && col < 8) ==> {
                &&& final(self).state.queens == no_queens()
                &&& final(self).status@ == "Shuffled: Empty board (always solvable)."@
            },
    {
        self.state = EightQueensState::default();
        match self.state.apply_placement(PlaceQueen { row, col }) {
            Some(updated_state) => {
                self.state = updated_state;
                self.status = String::from_str("Shuffled: 1 queen placed. State is solvable.");
            },
            None => {
                self.state = EightQueensState::default();
                self.status = String::from_str("Shuffled: Empty board (always solvable).");
            },
        }
    }

    /// The session shows a scattered board whose first empty row still has a
    /// free square.
    pub open spec fn took_scatter(after: Self) -> bool {
        &&& after.state.next_states().len() > 0
        &&& 4 <= missing(after.state.queens@, 8) <= 7
        &&& conflicts(after.state.queens@) == 0
        &&& after.status@ == scattered_message(after.state.queens@)
    }

    /// The session shows a board with a single queen.
    pub open spec fn took_single(after: Self) -> bool {
        &&& missing(after.state.queens@, 8) == 7
        &&& conflicts(after.state.queens@) == 0
        &&& after.status@ == "Shuffled: 1 queen placed. State is solvable."@
    }

    /// Replaces the board by one with a few queens scattered at random. A
    /// scattered board whose first empty row has no free square is dropped
    /// for a board with a single queen on a random square.
    pub fn shuffle(&mut self)
        ensures
            final(self).solution is None,
            final(self).selected_row == old(self).selected_row,
            final(self).selected_col == old(self).selected_col,
            Self::took_scatter(*final(self)) || Self::took_single(*final(self)),
    {
        let mut rng = thread_rng();
        let board = scatter_queens(&mut rng);
        if !self.adopt_board(board) {
            let row = draw_between(&mut rng, 0, 7) as u8;
            let col = draw_between(&mut rng, 0, 7) as u8;
            self.adopt_single(row, col);
            proof {
                lemma_missing_of_empty(no_queens()@, 8);
                lemma_missing_after_fill(no_queens()@, self.state.queens@, row as int, 8);
                lemma_peaceful_has_no_conflicts(self.state.queens@);
            }
        }
    }

    /// What taking the report of a search makes of a session: a found path
    /// is kept for replay from its first state, anything else leaves the
    /// session without a solution and words why.
    pub open spec fn report_taken(
        before: Self,
        report: SearchReport<EightQueensState>,
        after: Self,
    ) -> bool {
        &&& after.selected_row == before.selected_row
        &&& after.selected_col == before.selected_col
        &&& if report.goal_found && report.path@.len() > 0 {
            &&& after.solution == Some(EightQueensSolution { report, step: 0 })
            &&& after.state == report.path@[0]
            &&& after.status@ == "Solution ready ("@ + decimal(steps_of(report.path@.len()))
                + " steps). Press Space to step."@
        } else {
            &&& after.solution is None
            &&& after.state == before.state
            &&& after.status@ == failure_message(report.expanded_nodes, report.elapsed)
        }
    }

    /// Takes the report of a search: a found path is kept for replay.
    pub fn take_report(&mut self, report: SearchReport<EightQueensState>)
        ensures
            Self::report_taken(*old(self), report, *final(self)),
    {
        if report.goal_found && report.path.len() > 0 {
            let solution = EightQueensSolution { report, step: 0 };
            let first = solution.report.path[0];
            self.status = framed(
                "Solution ready (",
                solution.total_steps() as u64,
                " steps). Press Space to step.",
            );
            self.solution = Some(solution);
            self.state = first;
        } else {
            self.solution = None;
            self.status = Self::failure_text(report.expanded_nodes, report.elapsed);
        }
    }

    /// Searches for a completion of the present board and keeps what was
    /// found for replay.
    pub fn solve(&mut self)
        ensures
            final(self).state == old(self).state,
            exists|report: SearchReport<EightQueensState>| #[trigger]
                answers(old(self).state, report) && Self::report_taken(
                    *old(self),
                    report,
                    *final(self),
                ),
    {
        let report = astar(self.state);
        let ghost found = report;
        self.take_report(report);
    }

    /// Words the message after a search that found nothing. The time is
    /// worded to one decimal, taken from the whole milliseconds of the span
    /// and rounded half up.
    pub fn failure_text(expanded: usize, elapsed: Elapsed) -> (text: String)
        ensures
            text@ == failure_message(expanded, elapsed),
    {
        let elapsed_secs = elapsed.as_secs();
        if elapsed_secs >= TIME_LIMIT_SECS {
            framed(
                "Search timed out after 1 hour (",
                expanded as u64,
                " nodes explored). The puzzle may be unsolvable from this state, or try shuffling (H).",
            )
        } else if expanded == 0 {
            String::from_str(
                "No valid moves available. Try shuffling (H) for a different starting state.",
            )
        } else if expanded < 10 {
            framed(
                "Search terminated early (",
                expanded as u64,
                " states). This may indicate the starting state has no valid successors. Try shuffling (H).",
            )
        } else {
            let rounded = elapsed_secs * 10 + (elapsed.subsec_millis() as u64 + 50) / 100;
            let mut text = framed_pair(
                "No solution found after exploring ",
                expanded as u64,
                " states in ",
                rounded / 10,
                ".",
            );
            crate::text::push_decimal(&mut text, rounded % 10);
            text.append(
                "s. Still searching... Try shuffling (H) for a different starting state, or wait longer.",
            );
            text
        }
    }

    /// What a replay step makes of a session: the next state of the solution
    /// is shown, if there is a solution with a state left to show.
    pub open spec fn advanced_to(before: Self, after: Self, advanced: bool) -> bool {
        &&& after.selected_row == before.selected_row
        &&& after.selected_col == before.selected_col
        &&& match before.solution {
                Some(solution) => {
                    &&& advanced == (solution.step + 1 < solution.report.path@.len())
                    &&& advanced ==> {
                        &&& after.solution == Some(
                            EightQueensSolution {
                                report: solution.report,
                                step: (solution.step + 1) as usize,
                            },
                        )
                        &&& after.state == solution.report.path@[solution.step + 1]
                        &&& after.status@ == if solution.step + 2
                            == solution.report.path@.len() {
                            "Solution complete! All 8 queens placed safely."@
                        } else {
                            "Step "@ + decimal((solution.step + 1) as nat) + " / "@ + decimal(
                                steps_of(solution.report.path@.len()),
                            )
                        }
                    }
                    &&& !advanced ==> {
                        &&& after.solution == before.solution
                        &&& after.state == before.state
                        &&& after.status@ == "Already at final solution state."@
                    }
                },
                None => {
                    &&& !advanced
                    &&& after.solution is None
                    &&& after.state == before.state
                    &&& after.status@ == "Run the solver with 'S' first."@
                },
            }
    }

    /// Shows the next state of the solution, if there is one.
    pub fn advance_solution(&mut self) -> (advanced: bool)
        ensures
            Self::advanced_to(*old(self), *final(self), advanced),
    {
        match &mut self.solution {
            Some(solution) => {
                let states = solution.report.path.len();
                if solution.step < states && solution.step + 1 < states {
                    solution.step += 1;
                    let state = solution.report.path[solution.step];
                    let step = solution.step;
                    let total = solution.total_steps();
                    self.state = state;
                    if step == states - 1 {
                        self.status = String::from_str(
                            "Solution complete! All 8 queens placed safely.",
                        );
                    } else {
                        self.status = framed_pair("Step ", step as u64, " / ", total as u64, "");
                        proof {
                            reveal_strlit("");
                        }
                    }
                    true
                } else {
                    self.status = String::from_str("Already at final solution state.");
                    false
                }
            },
            None => {
                self.status = String::from_str("Run the solver with 'S' first.");
                false
            },
        }
    }

    /// Replays a step where there is a solution; otherwise toggles the queen
    /// of the selected square.
    pub fn activate(&mut self) -> (changed: bool)
        requires
            old(self).wf(),
        ensures
            old(self).solution is Some ==> Self::advanced_to(*old(self), *final(self), changed),
            old(self).solution is None ==> Self::toggled(*old(self), *final(self), changed),
    {
        if self.solution.is_some() {
            self.advance_solution()
        } else {
            self.toggle_queen()
        }
    }

    /// Whether all eight queens stand without a conflict.
    pub fn is_solved(&self) -> (solved: bool)
        ensures
            solved == self.state.goal(),
    {
        self.state.is_goal()
    }

    /// Moves the selection, holding it within the board.
    pub fn move_cursor(&mut self, row_delta: isize, col_delta: isize)
        ensures
            final(self).wf(),
            final(self).selected_row == stepped(old(self).selected_row as int, row_delta as int, 7),
            final(self).selected_col == stepped(old(self).selected_col as int, col_delta as int, 7),
            final(self).state == old(self).state,
            final(self).status == old(self).status,
            final(self).solution == old(self).solution,
    {
        let new_row = step_within(self.selected_row, row_delta, 7);
        let new_col = step_within(self.selected_col, col_delta, 7);
        self.selected_row = new_row;
        self.selected_col = new_col;
    }

    /// What toggling the selected square makes of a session: the queen of
    /// the selected row is lifted if it has one; otherwise a queen goes onto
    /// the selected square, unless a queen attacks it.
    pub open spec fn toggled(before: Self, after: Self, changed: bool) -> bool {
        &&& after.wf()
        &&& after.selected_row == before.selected_row
        &&& after.selected_col == before.selected_col
        &&& before.state.queens[before.selected_row as int] is Some ==> {
                &&& changed
                &&& after.state.queens == with_row(
                    before.state.queens,
                    before.selected_row as int,
                    None,
                )
                &&& after.solution is None
                &&& after.status@ == "Removed queen from row "@ + decimal(
                    (before.selected_row + 1) as nat,
                ) + ", col "@ + decimal((before.selected_col + 1) as nat) + "."@
            }
        &&& before.state.queens[before.selected_row as int] is None ==> {
                &&& changed == square_free(
                    before.state.queens@,
                    before.selected_row as int,
                    before.selected_col as int,
                )
                &&& changed ==> {
                    &&& after.state.queens == with_row(
                        before.state.queens,
                        before.selected_row as int,
                        Some(before.selected_col as u8),
                    )
                    &&& after.solution is None
                    &&& after.status@ == queen_placed_message(
                        after.state.queens@,
                        before.selected_row as int,
                        before.selected_col as int,
                    )
                }
                &&& !changed ==> {
                    &&& after.state == before.state
                    &&& after.solution == before.solution
                    &&& after.status@ == "Cannot place queen at row "@ + decimal(
                        (before.selected_row + 1) as nat,
                    ) + ", col "@ + decimal((before.selected_col + 1) as nat)
                        + " (conflicts with existing queens)."@
                }
            }
    }

    /// Takes the queen off the selected row if it has one; otherwise places
    /// a queen on the selected square, unless a queen attacks it.
    pub fn toggle_queen(&mut self) -> (changed: bool)
        requires
            old(self).wf(),
        ensures
            Self::toggled(*old(self), *final(self), changed),
    {
        let row = self.selected_row as u8;
        let col = self.selected_col as u8;
        if self.state.queens[self.selected_row].is_some() {
            self.state = self.state.remove_queen(row);
            self.solution = None;
            self.status = framed_pair(
                "Removed queen from row ",
                row as u64 + 1,
                ", col ",
                col as u64 + 1,
                ".",
            );
            true
        } else {
            match self.state.apply_placement(PlaceQueen { row, col }) {
                Some(new_state) => {
                    self.state = new_state;
                    self.solution = None;
                    let clashing = self.state.count_conflicts();
                    if clashing == 0 && self.is_solved() {
                        self.status = String::from_str(
                            "Perfect! All 8 queens placed with no conflicts.",
                        );
                    } else if clashing == 0 {
                        self.status = framed_pair(
                            "Placed queen at row ",
                            row as u64 + 1,
                            ", col ",
                            col as u64 + 1,
                            ". No conflicts yet.",
                        );
                    } else {
                        let mut text = framed_pair(
                            "Placed queen at row ",
                            row as u64 + 1,
                            ", col ",
                            col as u64 + 1,
                            ". Conflicts: ",
                        );
                        crate::text::push_decimal(&mut text, clashing as u64);
                        text.append(".");
                        self.status = text;
                    }
                    true
                },
                None => {
                    self.status = framed_pair(
                        "Cannot place queen at row ",
                        row as u64 + 1,
                        ", col ",
                        col as u64 + 1,
                        " (conflicts with existing queens).",
                    );
                    false
                },
            }
        }
    }
}

/// A board without queens misses one in every row.
proof fn lemma_missing_of_empty(queens: Seq<Option<u8>>, upto: int)
    requires
        0 <= upto <= 8,
        forall|row: int| 0 <= row < 8 ==> queens[row] is None,
    ensures
        missing(queens, upto) == upto,
    decreases upto,
{
    if upto > 0 {
        lemma_missing_of_empty(queens, upto - 1);
    }
}

/// Giving an empty row its queen lowers the number of missing queens by one.
proof fn lemma_missing_after_fill(
    before: Seq<Option<u8>>,
    after: Seq<Option<u8>>,
    row: int,
    upto: int,
)
    requires
        0 <= upto <= 8,
        0 <= row < 8,
        before[row] is None,
        after[row] is Some,
        forall|r: int| 0 <= r < 8 && r != row ==> after[r] == before[r],
    ensures
        missing(after, upto) == missing(before, upto) - if row < upto {
            1int
        } else {
            0int
        },
    decreases upto,
{
    if upto > 0 {
        lemma_missing_after_fill(before, after, row, upto - 1);
    }
}

} // verus!
