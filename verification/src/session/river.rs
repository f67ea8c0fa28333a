//! The river-crossing session: a shore to move people from, by hand or along
//! a found solution.

use crate::puzzles::missionaries_cannibals::all_cargoes;
use crate::puzzles::missionaries_cannibals::cargoes;
use crate::puzzles::missionaries_cannibals::lemma_river_path_is_shortest;
use crate::puzzles::missionaries_cannibals::lemma_walk_stays_valid;
use crate::puzzles::missionaries_cannibals::open_cargoes;
use crate::puzzles::missionaries_cannibals::BoatMove;
use crate::puzzles::missionaries_cannibals::MissionariesCannibalsState;
use crate::random::draw_between;
use crate::random::draw_chance;
use crate::search::solver::answers;
use crate::search::solver::astar;
use crate::search::solver::SearchReport;
use crate::search::state::is_solution;
use crate::search::state::SearchState;
use crate::session::eight_puzzle::steps_of;
use crate::text::decimal;
use crate::text::framed;
use crate::text::framed_pair;
use rand::thread_rng;
use vstd::prelude::*;
use vstd::string::StringExecFns;

verus! {

/// How often a random shore is drawn before the session settles for the
/// canonical start.
pub const SHUFFLE_ATTEMPTS: u32 = 100;

/// A found path and how far the replay has come.
#[derive(Debug, Clone)]
pub struct MissionariesCannibalsSolution {
    pub report: SearchReport<MissionariesCannibalsState>,
    pub step: usize,
}

impl MissionariesCannibalsSolution {
    /// The number of crossings of the solution.
    pub fn total_steps(&self) -> (steps: usize)
        ensures
            steps == steps_of(self.report.path@.len()),
    {
        let states = self.report.path.len();
        if states > 0 {
            states - 1
        } else {
            0
        }
    }
}

/// The state of the river-crossing screen.
#[derive(Debug)]
pub struct MissionariesCannibalsSession {
    pub state: MissionariesCannibalsState,
    pub status: String,
    pub solution: Option<MissionariesCannibalsSolution>,
    pub selected_move: usize,
}

/// The canonical start: everybody and the boat on the starting shore.
pub open spec fn canonical_start() -> MissionariesCannibalsState {
    MissionariesCannibalsState { left_m: 3, left_c: 3, boat_left: true }
}

/// The message that a random shore was taken.
pub open spec fn shuffled_message(state: MissionariesCannibalsState) -> Seq<char> {
    "Shuffled: Left M="@ + decimal(state.left_m as nat) + " C="@ + decimal(state.left_c as nat)
        + ", Boat on "@ + if state.boat_left {
        "left"@
    } else {
        "right"@
    }
}

/// The message that the boat has crossed with cargo `mv` and landed as
/// `landed` says.
pub open spec fn crossed_message(mv: BoatMove, landed: MissionariesCannibalsState) -> Seq<char> {
    if landed.goal() {
        "Solved! Everyone crossed safely."@
    } else {
        "Moved "@ + decimal(mv.missionaries as nat) + "M "@ + decimal(mv.cannibals as nat) + "C "@
            + if landed.boat_left {
            "to left"@
        } else {
            "to right"@
        }
    }
}

impl Default for MissionariesCannibalsSession {
    fn default() -> (session: Self)
        ensures
            session.state == canonical_start(),
            session.status@ == MissionariesCannibalsSession::base_status_text(),
            session.solution is None,
            session.selected_move == 0,
    {
        Self {
            state: MissionariesCannibalsState::default(),
            status: Self::base_status(),
            solution: None,
            selected_move: 0,
        }
    }
}

impl MissionariesCannibalsSession {
    /// The status line of a fresh session.
    pub open spec fn base_status_text() -> Seq<char> {
        "Use S to solve, Space to step through solution. H shuffles, R resets."@
    }

    /// The status line of a fresh session.
    pub fn base_status() -> (text: String)
        ensures
            text@ == Self::base_status_text(),
    {
        String::from_str("Use S to solve, Space to step through solution. H shuffles, R resets.")
    }

    /// Goes back to the canonical start.
    pub fn reset(&mut self)
        ensures
            final(self).state == canonical_start(),
            final(self).status@ == Self::base_status_text(),
            final(self).solution is None,
            final(self).selected_move == 0,
    {
        self.state = MissionariesCannibalsState::default();
        self.status = Self::base_status();
        self.solution = None;
        self.selected_move = 0;
    }

    /// Takes the drawn shore if it is valid and not the goal; otherwise the
    /// session stays as it is.
    pub fn try_shuffle(&mut self, left_m: u8, left_c: u8, boat_left: bool) -> (taken: bool)
        ensures
            taken == ((MissionariesCannibalsState { left_m, left_c, boat_left }).valid() && !(
            MissionariesCannibalsState { left_m, left_c, boat_left }).goal()),
            taken ==> {
                &&& final(self).state == (MissionariesCannibalsState { left_m, left_c, boat_left })
                &&& final(self).solution is None
                &&& final(self).selected_move == 0
                &&& final(self).status@ == shuffled_message(final(self).state)
            },
            !taken ==> *final(self) == *old(self),
    {
        let new_state = MissionariesCannibalsState { left_m, left_c, boat_left };
        if new_state.is_valid() {
            if !new_state.is_goal() {
                self.state = new_state;
                self.solution = None;
                self.selected_move = 0;
                let mut text = framed_pair(
                    "Shuffled: Left M=",
                    left_m as u64,
                    " C=",
                    left_c as u64,
                    ", Boat on ",
                );
                text.append(
                    if boat_left {
                        "left"
                    } else {
                        "right"
                    },
                );
                self.status = text;
                return true;
            }
        }
        false
    }

    /// Settles for the canonical start.
    pub fn shuffle_to_default(&mut self)
        ensures
            final(self).state == canonical_start(),
            final(self).status@ == "Shuffled to default state."@,
            final(self).solution == old(self).solution,
            final(self).selected_move == old(self).selected_move,
    {
        self.state = MissionariesCannibalsState::default();
        self.status = String::from_str("Shuffled to default state.");
    }

    /// The session shows a drawn shore.
    pub open spec fn took_draw(after: Self) -> bool {
        &&& after.solution is None
        &&& after.selected_move == 0
        &&& after.status@ == shuffled_message(after.state)
    }

    /// The session has settled for the canonical start.
    pub open spec fn fell_back(before: Self, after: Self) -> bool {
        &&& after.state == canonical_start()
        &&& after.status@ == "Shuffled to default state."@
        &&& after.solution == before.solution
        &&& after.selected_move == before.selected_move
    }

    /// Replaces the shore by a random one that is valid and not the goal.
    /// Draws that are invalid or the goal are rejected; after
    /// [`SHUFFLE_ATTEMPTS`] rejections in a row the canonical start is taken.
    pub fn shuffle(&mut self)
        ensures
            final(self).state.valid(),
            !final(self).state.goal(),
            Self::took_draw(*final(self)) || Self::fell_back(*old(self), *final(self)),
    {
        let mut rng = thread_rng();
        let mut attempts: u32 = 0;
        while attempts < SHUFFLE_ATTEMPTS
            invariant
                *self == *old(self),
            decreases SHUFFLE_ATTEMPTS - attempts,
        {
            attempts += 1;
            let left_m = draw_between(&mut rng, 0, 3) as u8;
            let left_c = draw_between(&mut rng, 0, 3) as u8;
            let boat_left = draw_chance(&mut rng, 1, 2);
            if self.try_shuffle(left_m, left_c, boat_left) {
                return ;
            }
        }
        self.shuffle_to_default();
    }

    /// What taking the report of a search makes of a session: a found path
    /// is kept for replay from its first state, anything else leaves the
    /// session without a solution.
    pub open spec fn report_taken(
        before: Self,
        report: SearchReport<MissionariesCannibalsState>,
        after: Self,
    ) -> bool {
        &&& after.selected_move == before.selected_move
        &&& if report.goal_found && report.path@.len() > 0 {
            &&& after.solution == Some(MissionariesCannibalsSolution { report, step: 0 })
            &&& after.state == report.path@[0]
            &&& after.status@ == "Solution ready ("@ + decimal(steps_of(report.path@.len()))
                + " moves). Press Space to step."@
        } else {
            &&& after.solution is None
            &&& after.state == before.state
            &&& after.status@ == "No solution found."@
        }
    }

    /// Takes the report of a search: a found path is kept for replay.
    pub fn take_report(&mut self, report: SearchReport<MissionariesCannibalsState>)
        ensures
            Self::report_taken(*old(self), report, *final(self)),
    {
        if report.goal_found && report.path.len() > 0 {
            let solution = MissionariesCannibalsSolution { report, step: 0 };
            let first = solution.report.path[0];
            self.status = framed(
                "Solution ready (",
                solution.total_steps() as u64,
                " moves). Press Space to step.",
            );
            self.solution = Some(solution);
            self.state = first;
        } else {
            self.solution = None;
            self.status = String::from_str("No solution found.");
        }
    }

    /// Searches for a way across from the present shore and keeps what was
    /// found for replay.
    pub fn solve(&mut self)
        ensures
            final(self).state == old(self).state,
            exists|report: SearchReport<MissionariesCannibalsState>| #[trigger]
                answers(old(self).state, report) && Self::report_taken(
                    *old(self),
                    report,
                    *final(self),
                ),
            final(self).solution is Some ==> {
                &&& is_solution(old(self).state, final(self).solution->0.report.path@)
                &&& forall|other: Seq<MissionariesCannibalsState>| #[trigger]
                    is_solution(old(self).state, other)
                        ==> final(self).solution->0.report.path@.len() <= other.len()
                &&& old(self).state.valid() ==> forall|i: int|
                    0 <= i < final(self).solution->0.report.path@.len() ==> (
                    #[trigger] final(self).solution->0.report.path@[i]).valid()
            },
    {
        let report = astar(self.state);
        let ghost found = report;
        self.take_report(report);
        assert(answers(old(self).state, found) && Self::report_taken(*old(self), found, *self));
        proof {
            if found.goal_found && found.path@.len() > 0 {
                lemma_solution_is_shortest_and_valid(old(self).state, found);
            }
        }
    }

    /// Shows the next state of the solution, if there is one.
    pub fn advance_solution(&mut self) -> (advanced: bool)
        ensures
            final(self).selected_move == old(self).selected_move,
            match old(self).solution {
                Some(solution) => {
                    &&& advanced == (solution.step + 1 < solution.report.path@.len())
                    &&& advanced ==> {
                        &&& final(self).solution == Some(
                            MissionariesCannibalsSolution {
                                report: solution.report,
                                step: (solution.step + 1) as usize,
                            },
                        )
                        &&& final(self).state == solution.report.path@[solution.step + 1]
                        &&& final(self).status@ == if solution.step + 2
                            == solution.report.path@.len() {
                            "Solution complete! Everyone crossed safely."@
                        } else {
                            "Step "@ + decimal((solution.step + 1) as nat) + " / "@ + decimal(
                                steps_of(solution.report.path@.len()),
                            )
                        }
                    }
                    &&& !advanced ==> {
                        &&& final(self).solution == old(self).solution
                        &&& final(self).state == old(self).state
                        &&& final(self).status@ == "Already at final solution state."@
                    }
                },
                None => {
                    &&& !advanced
                    &&& final(self).solution is None
                    &&& final(self).state == old(self).state
                    &&& final(self).status@ == "Run the solver with 'S' first."@
                },
            },
    {
        match &mut self.solution {
            Some(solution) => {
                let states = solution.report.path.len();
                if solution.step < states && solution.step + 1 < states {
                    solution.step += 1;
                    let state = solution.report.path[solution.step];
                    let step = solution.step;
                    let total = solution.total_steps();
                    self.state = state;
                    if step == states - 1 {
                        self.status = String::from_str(
                            "Solution complete! Everyone crossed safely.",
                        );
                    } else {
                        self.status = framed_pair("Step ", step as u64, " / ", total as u64, "");
                        proof {
                            reveal_strlit("");
                        }
                    }
                    true
                } else {
                    self.status = String::from_str("Already at final solution state.");
                    false
                }
            },
            None => {
                self.status = String::from_str("Run the solver with 'S' first.");
                false
            },
        }
    }

    /// Whether everybody has crossed.
    pub fn is_solved(&self) -> (solved: bool)
        ensures
            solved == self.state.goal(),
    {
        self.state.is_goal()
    }

    /// The cargoes that give a legal crossing from the present shore, in the
    /// order they are tried.
    pub fn get_valid_moves(&self) -> (moves: Vec<BoatMove>)
        ensures
            moves@ == open_cargoes(self.state, 5),
    {
        let mut moves: Vec<BoatMove> = Vec::new();
        let possible_moves = all_cargoes();
        let mut i: usize = 0;
        while i < possible_moves.len()
            invariant
                i <= 5,
                possible_moves@ == cargoes(),
                moves@ == open_cargoes(self.state, i as int),
            decreases 5 - i,
        {
            let mv = possible_moves[i];
            if self.state.apply_move(mv).is_some() {
                moves.push(mv);
            }
            i += 1;
        }
        moves
    }

    /// The selected place in a list of `listed` crossings after moving one
    /// place up; an empty list leaves the selection alone.
    pub open spec fn selection_before(selected: usize, listed: nat) -> usize {
        if listed == 0 {
            selected
        } else if selected == 0 {
            0
        } else if selected - 1 >= listed {
            (listed - 1) as usize
        } else {
            (selected - 1) as usize
        }
    }

    /// The selected place in a list of `listed` crossings after moving one
    /// place down; an empty list leaves the selection alone.
    pub open spec fn selection_after(selected: usize, listed: nat) -> usize {
        if listed == 0 {
            selected
        } else if selected + 1 < listed {
            (selected + 1) as usize
        } else {
            (listed - 1) as usize
        }
    }

    /// Moves the selection one place up the list of legal crossings, and
    /// into the list if it was beyond it.
    pub fn select_previous(&mut self)
        ensures
            final(self).selected_move == Self::selection_before(
                old(self).selected_move,
                open_cargoes(old(self).state, 5).len(),
            ),
            final(self).state == old(self).state,
            final(self).status == old(self).status,
            final(self).solution == old(self).solution,
    {
        let moves = self.get_valid_moves();
        if moves.len() > 0 {
            if self.selected_move > 0 {
                self.selected_move -= 1;
            }
            if self.selected_move >= moves.len() {
                self.selected_move = moves.len() - 1;
            }
        }
    }

    /// Moves the selection one place down the list of legal crossings,
    /// stopping at its end.
    pub fn select_next(&mut self)
        ensures
            final(self).selected_move == Self::selection_after(
                old(self).selected_move,
                open_cargoes(old(self).state, 5).len(),
            ),
            final(self).state == old(self).state,
            final(self).status == old(self).status,
            final(self).solution == old(self).solution,
    {
        let moves = self.get_valid_moves();
        if moves.len() > 0 {
            let last = moves.len() - 1;
            if self.selected_move < last {
                self.selected_move += 1;
            } else {
                self.selected_move = last;
            }
        }
    }

    /// Makes the crossing at place `index` of the list of legal crossings;
    /// a place beyond the list does nothing.
    pub fn apply_listed(&mut self, index: usize) -> (moved: bool)
        ensures
            final(self).selected_move == old(self).selected_move,
            index >= open_cargoes(old(self).state, 5).len() ==> !moved && *final(self) == *old(
                self,
            ),
            index < open_cargoes(old(self).state, 5).len() ==> {
                let mv = open_cargoes(old(self).state, 5)[index as int];
                &&& moved
                &&& old(self).state.crossed(mv) is Some
                &&& final(self).state == old(self).state.crossed(mv)->0
                &&& final(self).solution is None
                &&& final(self).status@ == crossed_message(mv, final(self).state)
            },
    {
        let moves = self.get_valid_moves();
        if index < moves.len() {
            proof {
                lemma_listed_cargo_crosses(self.state, 5, index as int);
            }
            self.apply_move(moves[index])
        } else {
            false
        }
    }

    /// Sends the boat across with cargo `mv`, if that is a legal crossing.
    pub fn apply_move(&mut self, mv: BoatMove) -> (moved: bool)
        ensures
            final(self).selected_move == old(self).selected_move,
            match old(self).state.crossed(mv) {
                Some(landed) => {
                    &&& moved
                    &&& final(self).state == landed
                    &&& final(self).solution is None
                    &&& final(self).status@ == crossed_message(mv, landed)
                },
                None => {
                    &&& !moved
                    &&& final(self).state == old(self).state
                    &&& final(self).solution == old(self).solution
                    &&& final(self).status@ == "Invalid move!"@
                },
            },
    {
        match self.state.apply_move(mv) {
            Some(new_state) => {
                self.state = new_state;
                self.solution = None;
                if self.is_solved() {
                    self.status = String::from_str("Solved! Everyone crossed safely.");
                } else {
                    let mut text = framed_pair(
                        "Moved ",
                        mv.missionaries as u64,
                        "M ",
                        mv.cannibals as u64,
                        "C ",
                    );
                    text.append(
                        if self.state.boat_left {
                            "to left"
                        } else {
                            "to right"
                        },
                    );
                    self.status = text;
                }
                true
            },
            None => {
                self.status = String::from_str("Invalid move!");
                false
            },
        }
    }
}

/// Every cargo in the list of legal crossings gives a crossing.
proof fn lemma_listed_cargo_crosses(state: MissionariesCannibalsState, upto: int, index: int)
    requires
        0 <= upto <= 5,
        0 <= index < open_cargoes(state, upto).len(),
    ensures
        state.crossed(open_cargoes(state, upto)[index]) is Some,
    decreases upto,
{
    if upto > 0 {
        if index < open_cargoes(state, upto - 1).len() {
            lemma_listed_cargo_crosses(state, upto - 1, index);
        }
    }
}

/// A found way across is a shortest one, and leads through valid states
/// where it starts from one.
proof fn lemma_solution_is_shortest_and_valid(
    start: MissionariesCannibalsState,
    report: SearchReport<MissionariesCannibalsState>,
)
    requires
        answers(start, report),
        report.goal_found,
    ensures
        is_solution(start, report.path@),
        forall|other: Seq<MissionariesCannibalsState>| #[trigger]
            is_solution(start, other) ==> report.path@.len() <= other.len(),
        start.valid() ==> forall|i: int|
            0 <= i < report.path@.len() ==> (#[trigger] report.path@[i]).valid(),
{
    assert(is_solution(start, report.path@));
    assert forall|other: Seq<MissionariesCannibalsState>| #[trigger]
        is_solution(start, other) implies report.path@.len() <= other.len() by {
        lemma_river_path_is_shortest(start, report, other);
    }
    if start.valid() {
        assert forall|i: int| 0 <= i < report.path@.len() implies (
        #[trigger] report.path@[i]).valid() by {
            lemma_walk_stays_valid(report.path@, i);
        }
    }
}

} // verus!
