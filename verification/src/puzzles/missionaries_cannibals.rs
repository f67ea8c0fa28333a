//! The river crossing: three missionaries and three cannibals, one boat that
//! carries one or two, and no shore on which cannibals may outnumber the
//! missionaries present.

use crate::search::digest::blend;
use crate::search::digest::blended;
use crate::search::solver::answers;
use crate::search::solver::lemma_reported_path_is_nearly_shortest;
use crate::search::solver::SearchReport;
use crate::search::state::is_solution;
use crate::search::state::is_walk;
use crate::search::state::kept;
use crate::search::state::overshoots_within;
use crate::search::state::reachable;
use crate::search::state::SearchState;
use crate::text::decimal;
use crate::text::framed_pair;
use vstd::prelude::*;
use vstd::string::StringExecFns;

verus! {

/// Who is on the starting shore, and where the boat is.
#[derive(Debug, Clone, Copy, PartialEq, Eq, Hash, Structural)]
pub struct MissionariesCannibalsState {
    pub left_m: u8,
    pub left_c: u8,
    /// `true` while the boat is at the starting shore.
    pub boat_left: bool,
}

impl Default for MissionariesCannibalsState {
    fn default() -> (state: Self)
        ensures
            state == (MissionariesCannibalsState { left_m: 3, left_c: 3, boat_left: true }),
    {
        Self { left_m: 3, left_c: 3, boat_left: true }
    }
}

/// The cargo of one crossing.
#[derive(Debug, Clone, Copy)]
pub struct BoatMove {
    pub missionaries: u8,
    pub cannibals: u8,
}

/// On a shore with `m` missionaries and `c` cannibals nobody is outnumbered.
pub open spec fn shore_safe(m: int, c: int) -> bool {
    m == 0 || c <= m
}

/// The cargo is one or two people.
pub open spec fn fits_boat(mv: BoatMove) -> bool {
    1 <= mv.missionaries + mv.cannibals <= 2
}

/// The five cargoes a crossing can carry, in the order they are tried.
pub open spec fn cargoes() -> Seq<BoatMove> {
    seq![
        BoatMove { missionaries: 1, cannibals: 0 },
        BoatMove { missionaries: 2, cannibals: 0 },
        BoatMove { missionaries: 0, cannibals: 1 },
        BoatMove { missionaries: 0, cannibals: 2 },
        BoatMove { missionaries: 1, cannibals: 1 },
    ]
}

/// The states reached from `state` by the first `upto` cargoes that give a
/// crossing.
pub open spec fn crossings(state: MissionariesCannibalsState, upto: int) -> Seq<
    MissionariesCannibalsState,
>
    decreases upto,
{
    if upto <= 0 {
        Seq::empty()
    } else {
        crossings(state, upto - 1) + kept(state.crossed(cargoes()[upto - 1]))
    }
}

/// The cargoes among the first `upto` that give a crossing from `state`.
pub open spec fn open_cargoes(state: MissionariesCannibalsState, upto: int) -> Seq<BoatMove>
    decreases upto,
{
    if upto <= 0 {
        Seq::empty()
    } else if state.crossed(cargoes()[upto - 1]) is Some {
        open_cargoes(state, upto - 1).push(cargoes()[upto - 1])
    } else {
        open_cargoes(state, upto - 1)
    }
}

/// The five cargoes, in the order they are tried.
pub fn all_cargoes() -> (list: Vec<BoatMove>)
    ensures
        list@ == cargoes(),
{
    let mut list: Vec<BoatMove> = Vec::new();
    list.push(BoatMove { missionaries: 1, cannibals: 0 });
    list.push(BoatMove { missionaries: 2, cannibals: 0 });
    list.push(BoatMove { missionaries: 0, cannibals: 1 });
    list.push(BoatMove { missionaries: 0, cannibals: 2 });
    list.push(BoatMove { missionaries: 1, cannibals: 1 });
    list
}

impl MissionariesCannibalsState {
    /// Both counters are within three, and nobody is outnumbered on either
    /// shore.
    pub open spec fn valid(&self) -> bool {
        &&& self.left_m <= 3
        &&& self.left_c <= 3
        &&& shore_safe(self.left_m as int, self.left_c as int)
        &&& shore_safe(3 - self.left_m, 3 - self.left_c)
    }

    /// The state after the boat has crossed with cargo `mv`, if the cargo fits
    /// the boat, is present on the boat's shore, and leaves a valid state.
    pub open spec fn crossed(&self, mv: BoatMove) -> Option<MissionariesCannibalsState> {
        if !fits_boat(mv) {
            None
        } else if self.boat_left {
            let next = MissionariesCannibalsState {
                left_m: (self.left_m - mv.missionaries) as u8,
                left_c: (self.left_c - mv.cannibals) as u8,
                boat_left: false,
            };
            if mv.missionaries <= self.left_m && mv.cannibals <= self.left_c && next.valid() {
                Some(next)
            } else {
                None
            }
        } else {
            let next = MissionariesCannibalsState {
                left_m: (self.left_m + mv.missionaries) as u8,
                left_c: (self.left_c + mv.cannibals) as u8,
                boat_left: true,
            };
            if self.left_m <= 3 && self.left_c <= 3 && mv.missionaries <= 3 - self.left_m
                && mv.cannibals <= 3 - self.left_c && next.valid() {
                Some(next)
            } else {
                None
            }
        }
    }

    /// The number of people still on the starting shore.
    pub open spec fn waiting(&self) -> int {
        self.left_m + self.left_c
    }

    /// The two shores and the boat as three lines of text.
    pub open spec fn rendered(&self) -> Seq<char> {
        "Left:  M="@ + decimal(self.left_m as nat) + " C="@ + decimal(self.left_c as nat)
            + "\n"@ + "Right: M="@ + decimal((3 - self.left_m) as nat) + " C="@ + decimal(
            (3 - self.left_c) as nat,
        ) + "\n"@ + "Boat:  "@ + if self.boat_left {
            "Left"@
        } else {
            "Right"@
        } + "\n"@
    }

    /// The two shores and the boat as three lines of text.
    pub fn to_string(&self) -> (text: String)
        requires
            self.left_m <= 3,
            self.left_c <= 3,
        ensures
            text@ == self.rendered(),
    {
        let right_m = 3 - self.left_m;
        let right_c = 3 - self.left_c;
        let mut text = framed_pair(
            "Left:  M=",
            self.left_m as u64,
            " C=",
            self.left_c as u64,
            "\n",
        );
        let second = framed_pair("Right: M=", right_m as u64, " C=", right_c as u64, "\n");
        text.append(second.as_str());
        text.append("Boat:  ");
        text.append(
            if self.boat_left {
                "Left"
            } else {
                "Right"
            },
        );
        text.append("\n");
        text
    }

    /// Whether the state is one the puzzle allows.
    pub fn is_valid(&self) -> (ok: bool)
        ensures
            ok == self.valid(),
    {
        if self.left_m > 3 || self.left_c > 3 {
            return false;
        }
        if self.left_m > 0 && self.left_c > self.left_m {
            return false;
        }
        let right_m = 3 - self.left_m;
        let right_c = 3 - self.left_c;
        if right_m > 0 && right_c > right_m {
            return false;
        }
        true
    }

    /// Sends the boat across with cargo `mv`, or gives `None` where that is
    /// not a legal crossing.
    pub fn apply_move(&self, mv: BoatMove) -> (moved: Option<Self>)
        ensures
            moved == self.crossed(mv),
    {
        let cargo = mv.missionaries as u16 + mv.cannibals as u16;
        if cargo == 0 || cargo > 2 {
            return None;
        }
        let mut new_state = *self;
        if self.boat_left {
            if mv.missionaries > self.left_m || mv.cannibals > self.left_c {
                return None;
            }
            new_state.left_m = self.left_m - mv.missionaries;
            new_state.left_c = self.left_c - mv.cannibals;
            new_state.boat_left = false;
        } else {
            if self.left_m > 3 || self.left_c > 3 {
                return None;
            }
            let right_m = 3 - self.left_m;
            let right_c = 3 - self.left_c;
            if mv.missionaries > right_m || mv.cannibals > right_c {
                return None;
            }
            new_state.left_m = self.left_m + mv.missionaries;
            new_state.left_c = self.left_c + mv.cannibals;
            new_state.boat_left = true;
        }
        if new_state.is_valid() {
            Some(new_state)
        } else {
            None
        }
    }

    /// The number of people still on the starting shore.
    pub fn heuristic(&self) -> (h: u32)
        ensures
            h == self.waiting(),
    {
        self.left_m as u32 + self.left_c as u32
    }
}

impl SearchState for MissionariesCannibalsState {
    type Move = BoatMove;

    open spec fn goal(&self) -> bool {
        self.left_m == 0 && self.left_c == 0 && !self.boat_left
    }

    open spec fn estimate(&self) -> u32 {
        self.waiting() as u32
    }

    open spec fn next_states(&self) -> Seq<Self> {
        crossings(*self, 5)
    }

    open spec fn digest(&self) -> u64 {
        blended(
            blended(blended(0, self.left_m), self.left_c),
            if self.boat_left {
                1
            } else {
                0
            },
        )
    }

    fn is_goal(&self) -> (found: bool) {
        self.left_m == 0 && self.left_c == 0 && !self.boat_left
    }

    fn heuristic(&self) -> (h: u32) {
        MissionariesCannibalsState::heuristic(self)
    }

    fn successors(&self) -> (out: Vec<(BoatMove, Self)>)
        ensures
            forall|i: int|
                0 <= i < out@.len() ==> self.crossed((#[trigger] out@[i]).0) == Some(out@[i].1),
    {
        let mut out: Vec<(BoatMove, Self)> = Vec::new();
        let possible_moves = all_cargoes();
        let mut i: usize = 0;
        while i < possible_moves.len()
            invariant
                i <= 5,
                possible_moves@ == cargoes(),
                out@.len() == crossings(*self, i as int).len(),
                forall|k: int|
                    0 <= k < out@.len() ==> (#[trigger] out@[k]).1 == crossings(*self, i as int)[k],
                forall|k: int|
                    0 <= k < out@.len() ==> self.crossed((#[trigger] out@[k]).0) == Some(out@[k].1),
            decreases 5 - i,
        {
            let mv = possible_moves[i];
            match self.apply_move(mv) {
                Some(new_state) => {
                    out.push((mv, new_state));
                },
                None => {},
            }
            i += 1;
        }
        out
    }

    fn same(&self, other: &Self) -> (equal: bool) {
        *self == *other
    }

    fn fingerprint(&self) -> (key: u64) {
        blend(
            blend(blend(0, self.left_m), self.left_c),
            if self.boat_left {
                1
            } else {
                0
            },
        )
    }

    fn duplicate(&self) -> (copy: Self) {
        *self
    }
}

/// Every state a crossing leads to is valid, whatever state it starts from.
pub proof fn lemma_crossing_keeps_valid(state: MissionariesCannibalsState, k: int)
    requires
        0 <= k < state.next_states().len(),
    ensures
        state.next_states()[k].valid(),
{
    lemma_crossings_valid(state, 5, k);
}

proof fn lemma_crossings_valid(state: MissionariesCannibalsState, upto: int, k: int)
    requires
        0 <= upto <= 5,
        0 <= k < crossings(state, upto).len(),
    ensures
        crossings(state, upto)[k].valid(),
    decreases upto,
{
    if upto > 0 {
        if k < crossings(state, upto - 1).len() {
            lemma_crossings_valid(state, upto - 1, k);
        }
    }
}

/// Along a walk that starts in a valid state every state is valid.
pub proof fn lemma_walk_stays_valid(path: Seq<MissionariesCannibalsState>, at: int)
    requires
        is_walk(path),
        0 <= at < path.len(),
        path[0].valid(),
    ensures
        path[at].valid(),
    decreases at,
{
    if at > 0 {
        let before = path[at - 1];
        let k = choose|k: int|
            0 <= k < before.next_states().len() && before.next_states()[k] == path[at];
        lemma_crossing_keeps_valid(before, k);
    }
}

/// Every crossing takes the boat to the other shore.
proof fn lemma_crossing_flips_boat(state: MissionariesCannibalsState, upto: int, k: int)
    requires
        0 <= upto <= 5,
        0 <= k < crossings(state, upto).len(),
    ensures
        crossings(state, upto)[k].boat_left != state.boat_left,
    decreases upto,
{
    if upto > 0 {
        if k < crossings(state, upto - 1).len() {
            lemma_crossing_flips_boat(state, upto - 1, k);
        }
    }
}

/// Along a walk the boat changes shores with every state.
pub proof fn lemma_boat_alternates(path: Seq<MissionariesCannibalsState>, at: int)
    requires
        is_walk(path),
        0 <= at < path.len(),
    ensures
        path[at].boat_left == (path[0].boat_left == (at % 2 == 0)),
    decreases at,
{
    if at > 0 {
        lemma_boat_alternates(path, at - 1);
        let before = path[at - 1];
        let k = choose|k: int|
            0 <= k < before.next_states().len() && before.next_states()[k] == path[at];
        lemma_crossing_flips_boat(before, 5, k);
    }
}

/// A walk that takes everybody across from a state with the boat on the
/// starting shore has an odd number of crossings, that is, an even number
/// of states.
pub proof fn lemma_solution_has_odd_crossings(
    start: MissionariesCannibalsState,
    path: Seq<MissionariesCannibalsState>,
)
    requires
        is_solution(start, path),
        start.boat_left,
    ensures
        path.len() % 2 == 0,
{
    lemma_boat_alternates(path, path.len() - 1);
}

/// A crossing from the starting shore takes at most two people off it; a
/// crossing back brings at least one.
proof fn lemma_crossing_moves_people(state: MissionariesCannibalsState, upto: int, k: int)
    requires
        0 <= upto <= 5,
        0 <= k < crossings(state, upto).len(),
    ensures
        state.boat_left ==> crossings(state, upto)[k].waiting() >= state.waiting() - 2,
        !state.boat_left ==> crossings(state, upto)[k].waiting() >= state.waiting() + 1,
    decreases upto,
{
    if upto > 0 {
        if k < crossings(state, upto - 1).len() {
            lemma_crossing_moves_people(state, upto - 1, k);
        }
    }
}

/// Along a walk that takes everybody across, the people still waiting are
/// bounded by the crossings still to come: with the boat at the far shore,
/// twice their number is at most the crossings left; with the boat at the
/// starting shore, at most three more.
proof fn lemma_waiting_along_solution(path: Seq<MissionariesCannibalsState>, at: int)
    requires
        is_walk(path),
        0 <= at < path.len(),
        path.last().goal(),
    ensures
        path[at].boat_left ==> 2 * path[at].waiting() <= (path.len() - 1 - at) + 3 && path.len()
            - 1 - at >= 1,
        !path[at].boat_left ==> 2 * path[at].waiting() <= path.len() - 1 - at,
    decreases path.len() - at,
{
    if at < path.len() - 1 {
        lemma_waiting_along_solution(path, at + 1);
        let here = path[at];
        assert(here.next_states().contains(path[at + 1]));
        let k = choose|k: int|
            0 <= k < here.next_states().len() && here.next_states()[k] == path[at + 1];
        lemma_crossing_moves_people(here, 5, k);
        lemma_crossing_flips_boat(here, 5, k);
    }
}

/// The number of people waiting exceeds the crossings it takes to bring
/// everybody across by at most one.
pub proof fn lemma_river_overshoots_by_one(start: MissionariesCannibalsState)
    ensures
        overshoots_within(start, 1),
{
    assert forall|path: Seq<MissionariesCannibalsState>| #[trigger]
        is_solution(path[0], path) && reachable(start, path[0]) implies path[0].estimate()
        <= path.len() - 1 + 1 by {
        lemma_waiting_along_solution(path, 0);
    }
}

/// A path the engine reports for the river crossing takes the fewest
/// crossings possible: the estimate overshoots by at most one, and all ways
/// across from one state take an odd, or all an even, number of crossings.
pub proof fn lemma_river_path_is_shortest(
    start: MissionariesCannibalsState,
    report: SearchReport<MissionariesCannibalsState>,
    other: Seq<MissionariesCannibalsState>,
)
    requires
        answers(start, report),
        report.goal_found,
        is_solution(start, other),
    ensures
        report.path@.len() <= other.len(),
{
    lemma_river_overshoots_by_one(start);
    lemma_reported_path_is_nearly_shortest(start, report, other, 1);
    lemma_ways_across_agree_in_parity(start, report.path@, other);
}

/// All ways across from one state take an odd, or all an even, number of
/// crossings.
pub proof fn lemma_ways_across_agree_in_parity(
    start: MissionariesCannibalsState,
    one: Seq<MissionariesCannibalsState>,
    other: Seq<MissionariesCannibalsState>,
)
    requires
        is_solution(start, one),
        is_solution(start, other),
    ensures
        one.len() % 2 == other.len() % 2,
{
    lemma_boat_alternates(one, one.len() - 1);
    lemma_boat_alternates(other, other.len() - 1);
}

} // verus!
