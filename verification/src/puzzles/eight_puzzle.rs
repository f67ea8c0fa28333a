//! The sliding-tile puzzle: eight numbered tiles and one blank on a three by
//! three grid.

use crate::random::shuffle_tiles;
use crate::search::digest::fold_bytes;
use crate::search::digest::folded;
use crate::search::course::fresh;
use crate::search::course::opening_table;
use crate::search::solver::answers;
use crate::search::solver::lemma_goal_one_move_away_is_found;
use crate::search::solver::TIME_LIMIT_SECS;
use crate::search::solver::SearchReport;
use crate::search::state::admissible;
use crate::search::state::consistent_from;
use crate::search::state::reachable;
use crate::search::state::is_solution;
use crate::search::state::is_walk;
use crate::search::state::kept;
use crate::search::state::SearchState;
use crate::text::decimal;
use crate::text::push_decimal;
use rand::rngs::ThreadRng;
use vstd::prelude::*;
use vstd::string::StringExecFns;

verus! {

/// The solved arrangement: tiles ascending, blank last.
pub const GOAL: [u8; 9] = [1, 2, 3, 4, 5, 6, 7, 8, 0];

/// How often a shuffle is retried before the generator settles for the
/// solved arrangement.
pub const SHUFFLE_ATTEMPTS: u32 = 1000;

/// The nine cells of the grid, row by row; `0` is the blank.
#[derive(Debug, Clone, Copy, PartialEq, Eq, Hash)]
pub struct EightPuzzleState {
    pub tiles: [u8; 9],
}

impl Default for EightPuzzleState {
    fn default() -> (state: Self)
        ensures
            state.tiles == GOAL,
    {
        Self { tiles: GOAL }
    }
}

/// The direction in which the blank moves.
#[derive(Debug, Clone, Copy)]
pub enum SlideMove {
    Up,
    Down,
    Left,
    Right,
}

impl SlideMove {
    /// The name of the direction.
    pub fn label(&self) -> (text: &'static str)
        ensures
            text@ == match *self {
                SlideMove::Up => "Up"@,
                SlideMove::Down => "Down"@,
                SlideMove::Left => "Left"@,
                SlideMove::Right => "Right"@,
            },
    {
        match self {
            SlideMove::Up => "Up",
            SlideMove::Down => "Down",
            SlideMove::Left => "Left",
            SlideMove::Right => "Right",
        }
    }
}

/// The first cell from `from` on, among the first eight, that holds the
/// blank; the last cell if there is none.
pub open spec fn first_blank(tiles: Seq<u8>, from: int) -> int
    decreases 8 - from,
{
    if from >= 8 {
        8
    } else if tiles[from] == 0 {
        from
    } else {
        first_blank(tiles, from + 1)
    }
}

/// The distance between two numbers.
pub open spec fn span(a: int, b: int) -> int {
    if a >= b {
        a - b
    } else {
        b - a
    }
}

/// The number of horizontal and vertical steps between two cells.
pub open spec fn grid_distance(from: int, to: int) -> int {
    span(from / 3, to / 3) + span(from % 3, to % 3)
}

/// How far the tile in cell `at` is from its home cell in the solved
/// arrangement; the blank counts for nothing.
pub open spec fn tile_distance(at: int, tile: u8) -> int {
    if tile == 0 {
        0
    } else {
        grid_distance(at, tile - 1)
    }
}

/// The sum of the tile distances over the first `upto` cells.
pub open spec fn distance_sum(tiles: Seq<u8>, upto: int) -> int
    decreases upto,
{
    if upto <= 0 {
        0
    } else {
        distance_sum(tiles, upto - 1) + tile_distance(upto - 1, tiles[upto - 1])
    }
}

/// The cell the blank in cell `blank` moves to, if the grid allows the move.
pub open spec fn target_cell(blank: int, mv: SlideMove) -> Option<int> {
    match mv {
        SlideMove::Up => if blank / 3 > 0 {
            Some(blank - 3)
        } else {
            None
        },
        SlideMove::Down => if blank / 3 < 2 {
            Some(blank + 3)
        } else {
            None
        },
        SlideMove::Left => if blank % 3 > 0 {
            Some(blank - 1)
        } else {
            None
        },
        SlideMove::Right => if blank % 3 < 2 {
            Some(blank + 1)
        } else {
            None
        },
    }
}

/// The content of cell `i` once cells `a` and `b` have traded places.
pub open spec fn traded(tiles: [u8; 9], a: int, b: int, i: int) -> u8 {
    if i == a {
        tiles[b]
    } else if i == b {
        tiles[a]
    } else {
        tiles[i]
    }
}

/// The arrangement in which cells `a` and `b` have traded places.
pub open spec fn exchanged(tiles: [u8; 9], a: int, b: int) -> [u8; 9] {
    [
        traded(tiles, a, b, 0),
        traded(tiles, a, b, 1),
        traded(tiles, a, b, 2),
        traded(tiles, a, b, 3),
        traded(tiles, a, b, 4),
        traded(tiles, a, b, 5),
        traded(tiles, a, b, 6),
        traded(tiles, a, b, 7),
        traded(tiles, a, b, 8),
    ]
}

/// The pair of cells `i < j` is out of order: both hold tiles, and the
/// larger tile comes first.
pub open spec fn inverted(tiles: Seq<u8>, i: int, j: int) -> bool {
    tiles[i] != 0 && tiles[j] != 0 && tiles[i] > tiles[j]
}

/// The number of cells after `i` and before `upto` that are out of order
/// with cell `i`.
pub open spec fn inversions_with(tiles: Seq<u8>, i: int, upto: int) -> nat
    decreases upto - i,
{
    if upto <= i + 1 {
        0
    } else {
        inversions_with(tiles, i, upto - 1) + if inverted(tiles, i, upto - 1) {
            1nat
        } else {
            0nat
        }
    }
}

/// The number of out-of-order pairs whose first cell is among the first
/// `rows` cells.
pub open spec fn inversions(tiles: Seq<u8>, rows: int) -> nat
    decreases rows,
{
    if rows <= 0 {
        0
    } else {
        inversions(tiles, rows - 1) + inversions_with(tiles, rows - 1, tiles.len() as int)
    }
}

/// The arrangement can be brought to the solved one: its number of
/// out-of-order pairs is even.
pub open spec fn solvable(tiles: Seq<u8>) -> bool {
    inversions(tiles, tiles.len() as int) % 2 == 0
}

/// The first cell from `from` on that holds `tile`; nine if none does.
pub open spec fn first_cell_of(tiles: Seq<u8>, tile: u8, from: int) -> int
    decreases 9 - from,
{
    if from >= 9 {
        9
    } else if tiles[from] == tile {
        from
    } else {
        first_cell_of(tiles, tile, from + 1)
    }
}

/// The first cell that holds `tile`, if any does.
pub fn cell_of(tiles: &[u8; 9], tile: u8) -> (found: Option<usize>)
    ensures
        match found {
            Some(cell) => cell < 9 && cell == first_cell_of(tiles@, tile, 0),
            None => first_cell_of(tiles@, tile, 0) == 9,
        },
{
    let mut cell: usize = 0;
    while cell < 9
        invariant
            cell <= 9,
            first_cell_of(tiles@, tile, 0) == first_cell_of(tiles@, tile, cell as int),
        decreases 9 - cell,
    {
        if tiles[cell] == tile {
            return Some(cell);
        }
        cell += 1;
    }
    None
}

/// The content of cell `i` once cell `at` holds `tile`.
pub open spec fn put(tiles: [u8; 9], at: int, tile: u8, i: int) -> u8 {
    if i == at {
        tile
    } else {
        tiles[i]
    }
}

/// The arrangement in which cell `at` holds `tile`.
pub open spec fn with_tile(tiles: [u8; 9], at: int, tile: u8) -> [u8; 9] {
    [
        put(tiles, at, tile, 0),
        put(tiles, at, tile, 1),
        put(tiles, at, tile, 2),
        put(tiles, at, tile, 3),
        put(tiles, at, tile, 4),
        put(tiles, at, tile, 5),
        put(tiles, at, tile, 6),
        put(tiles, at, tile, 7),
        put(tiles, at, tile, 8),
    ]
}

/// Puts a tile into a cell of an arrangement.
pub fn set_tile(tiles: &[u8; 9], at: usize, tile: u8) -> (out: [u8; 9])
    requires
        at < 9,
    ensures
        out == with_tile(*tiles, at as int, tile),
{
    let mut out = *tiles;
    out[at] = tile;
    out
}

/// How a cell is written: three characters, the tile flush right in the
/// first two, nothing but spaces for the blank.
pub open spec fn cell_text(tile: u8) -> Seq<char> {
    if tile == 0 {
        "   "@
    } else if tile < 10 {
        " "@ + decimal(tile as nat) + " "@
    } else {
        decimal(tile as nat) + " "@
    }
}

/// The first `upto` cells as written: three cells to a line.
pub open spec fn cells_text(tiles: Seq<u8>, upto: int) -> Seq<char>
    decreases upto,
{
    if upto <= 0 {
        Seq::empty()
    } else if upto % 3 == 1 && upto > 1 {
        cells_text(tiles, upto - 1) + "\n"@ + cell_text(tiles[upto - 1])
    } else {
        cells_text(tiles, upto - 1) + cell_text(tiles[upto - 1])
    }
}

/// Exchanges two cells of an arrangement.
pub fn exchange_cells(tiles: &[u8; 9], a: usize, b: usize) -> (out: [u8; 9])
    requires
        a < 9,
        b < 9,
    ensures
        out == exchanged(*tiles, a as int, b as int),
{
    let mut out = *tiles;
    let first = tiles[a];
    let second = tiles[b];
    out[a] = second;
    out[b] = first;
    out
}

/// Whether two arrangements agree cell by cell.
pub fn same_tiles(left: &[u8; 9], right: &[u8; 9]) -> (equal: bool)
    ensures
        equal == (*left == *right),
{
    let mut i: usize = 0;
    while i < 9
        invariant
            i <= 9,
            forall|j: int| 0 <= j < i ==> left@[j] == right@[j],
        decreases 9 - i,
    {
        if left[i] != right[i] {
            return false;
        }
        i += 1;
    }
    assert(*left =~= *right);
    true
}

/// The distance between two numbers below nine.
fn span_of(a: usize, b: usize) -> (d: usize)
    ensures
        d == span(a as int, b as int),
{
    if a >= b {
        a - b
    } else {
        b - a
    }
}

impl EightPuzzleState {
    /// The cell the blank is taken to be in.
    pub open spec fn blank(&self) -> int {
        first_blank(self.tiles@, 0)
    }

    /// The state after the blank has moved, if the grid allows the move.
    pub open spec fn slid(&self, mv: SlideMove) -> Option<EightPuzzleState> {
        match target_cell(self.blank(), mv) {
            Some(target) => Some(
                EightPuzzleState { tiles: exchanged(self.tiles, self.blank(), target) },
            ),
            None => None,
        }
    }

    /// The grid as text, one line per row.
    pub fn to_string(&self) -> (text: String)
        ensures
            text@ == cells_text(self.tiles@, 9),
    {
        let mut text = String::new();
        let mut idx: usize = 0;
        while idx < 9
            invariant
                idx <= 9,
                text@ == cells_text(self.tiles@, idx as int),
            decreases 9 - idx,
        {
            if idx % 3 == 0 && idx > 0 {
                text.append("\n");
            }
            let tile = self.tiles[idx];
            if tile == 0 {
                text.append("   ");
            } else {
                if tile < 10 {
                    text.append(" ");
                }
                push_decimal(&mut text, tile as u64);
                text.append(" ");
            }
            idx += 1;
        }
        text
    }

    /// A shuffled arrangement of the solved tiles that can be solved.
    ///
    /// Shuffles that cannot be solved are rejected and drawn again; should
    /// [`SHUFFLE_ATTEMPTS`] shuffles in a row be rejected, the solved
    /// arrangement is handed out.
    pub fn random_solvable(rng: &mut ThreadRng) -> (state: Self)
        ensures
            solvable(state.tiles@),
            state.tiles@.to_multiset() == GOAL@.to_multiset(),
    {
        let mut tiles = GOAL;
        let mut attempts: u32 = 0;
        while attempts < SHUFFLE_ATTEMPTS
            invariant
                tiles@.to_multiset() == GOAL@.to_multiset(),
            decreases SHUFFLE_ATTEMPTS - attempts,
        {
            shuffle_tiles(&mut tiles, rng);
            if is_solvable(&tiles) {
                return Self { tiles };
            }
            attempts += 1;
        }
        proof {
            lemma_goal_solvable();
        }
        Self { tiles: GOAL }
    }

    /// The first cell, among the first eight, that holds the blank; the last
    /// cell if none of them does.
    pub fn blank_index(&self) -> (index: usize)
        ensures
            index == self.blank(),
            index < 9,
            forall|j: int| 0 <= j < index ==> self.tiles[j] != 0,
            index < 8 ==> self.tiles[index as int] == 0,
    {
        let mut index: usize = 0;
        while index < 8
            invariant
                index <= 8,
                self.blank() == first_blank(self.tiles@, index as int),
                forall|j: int| 0 <= j < index ==> self.tiles[j] != 0,
            decreases 8 - index,
        {
            if self.tiles[index] == 0 {
                return index;
            }
            index += 1;
        }
        index
    }

    /// The sum, over all tiles, of the steps between a tile and its home in
    /// the solved arrangement.
    pub fn manhattan_distance(&self) -> (total: u32)
        ensures
            total == distance_sum(self.tiles@, 9),
    {
        let mut total: u32 = 0;
        let mut idx: usize = 0;
        while idx < 9
            invariant
                idx <= 9,
                total == distance_sum(self.tiles@, idx as int),
                total <= 90 * idx,
            decreases 9 - idx,
        {
            let tile = self.tiles[idx];
            if tile != 0 {
                let home = (tile - 1) as usize;
                let rows = span_of(idx / 3, home / 3);
                let cols = span_of(idx % 3, home % 3);
                total = total + (rows + cols) as u32;
            }
            idx += 1;
        }
        total
    }

    /// Moves the blank, or gives `None` where the grid does not allow it.
    pub fn apply_move(&self, mv: SlideMove) -> (moved: Option<Self>)
        ensures
            moved == self.slid(mv),
    {
        let blank = self.blank_index();
        let row = blank / 3;
        let col = blank % 3;
        let target = match mv {
            SlideMove::Up => if row > 0 {
                Some(blank - 3)
            } else {
                None
            },
            SlideMove::Down => if row < 2 {
                Some(blank + 3)
            } else {
                None
            },
            SlideMove::Left => if col > 0 {
                Some(blank - 1)
            } else {
                None
            },
            SlideMove::Right => if col < 2 {
                Some(blank + 1)
            } else {
                None
            },
        };
        match target {
            Some(cell) => Some(Self { tiles: exchange_cells(&self.tiles, blank, cell) }),
            None => None,
        }
    }
}

impl SearchState for EightPuzzleState {
    type Move = SlideMove;

    open spec fn goal(&self) -> bool {
        self.tiles == GOAL
    }

    open spec fn estimate(&self) -> u32 {
        distance_sum(self.tiles@, 9) as u32
    }

    open spec fn next_states(&self) -> Seq<Self> {
        kept(self.slid(SlideMove::Up)) + kept(self.slid(SlideMove::Down)) + kept(
            self.slid(SlideMove::Left),
        ) + kept(self.slid(SlideMove::Right))
    }

    open spec fn digest(&self) -> u64 {
        folded(self.tiles@, 9)
    }

    fn is_goal(&self) -> (found: bool) {
        same_tiles(&self.tiles, &GOAL)
    }

    fn heuristic(&self) -> (h: u32) {
        self.manhattan_distance()
    }

    fn successors(&self) -> (out: Vec<(SlideMove, Self)>)
        ensures
            forall|i: int|
                0 <= i < out@.len() ==> self.slid((#[trigger] out@[i]).0) == Some(out@[i].1),
    {
        let mut out: Vec<(SlideMove, Self)> = Vec::new();
        match self.apply_move(SlideMove::Up) {
            Some(next) => {
                out.push((SlideMove::Up, next));
            },
            None => {},
        }
        match self.apply_move(SlideMove::Down) {
            Some(next) => {
                out.push((SlideMove::Down, next));
            },
            None => {},
        }
        match self.apply_move(SlideMove::Left) {
            Some(next) => {
                out.push((SlideMove::Left, next));
            },
            None => {},
        }
        match self.apply_move(SlideMove::Right) {
            Some(next) => {
                out.push((SlideMove::Right, next));
            },
            None => {},
        }
        out
    }

    fn same(&self, other: &Self) -> (equal: bool) {
        same_tiles(&self.tiles, &other.tiles)
    }

    fn fingerprint(&self) -> (key: u64) {
        fold_bytes(self.tiles.as_slice())
    }

    fn duplicate(&self) -> (copy: Self) {
        *self
    }
}

/// Whether an arrangement can be brought to the solved one: whether its
/// tiles, read row by row without the blank, hold an even number of
/// out-of-order pairs.
pub fn is_solvable(tiles: &[u8; 9]) -> (even: bool)
    ensures
        even == solvable(tiles@),
{
    let mut count: u32 = 0;
    let mut i: usize = 0;
    while i < 9
        invariant
            i <= 9,
            count == inversions(tiles@, i as int),
            count <= 9 * i,
        decreases 9 - i,
    {
        let mut row: u32 = 0;
        let mut j: usize = i + 1;
        while j < 9
            invariant
                i < 9,
                i + 1 <= j <= 9,
                row == inversions_with(tiles@, i as int, j as int),
                row <= j - i - 1,
            decreases 9 - j,
        {
            if tiles[i] != 0 && tiles[j] != 0 && tiles[i] > tiles[j] {
                row += 1;
            }
            j += 1;
        }
        count += row;
        i += 1;
    }
    count % 2 == 0
}

/// The solved arrangement holds no out-of-order pair.
pub proof fn lemma_goal_solvable()
    ensures
        solvable(GOAL@),
{
    let t = GOAL@;
    assert forall|i: int, upto: int| 0 <= i < 9 && 0 <= upto <= 9 implies #[trigger] inversions_with(
        t,
        i,
        upto,
    ) == 0 by {
        lemma_row_in_order(i, upto);
    }
    reveal_with_fuel(inversions, 10);
}

/// No cell of the solved arrangement is out of order with a later one.
proof fn lemma_row_in_order(i: int, upto: int)
    requires
        0 <= i < 9,
        0 <= upto <= 9,
    ensures
        inversions_with(GOAL@, i, upto) == 0,
    decreases upto,
{
    if upto > i + 1 {
        lemma_row_in_order(i, upto - 1);
    }
}

/// The arrangement holds exactly one blank, in the cell the blank is taken
/// to be in.
pub open spec fn one_blank(state: EightPuzzleState) -> bool {
    &&& state.tiles[state.blank()] == 0
    &&& forall|j: int| 0 <= j < 9 && j != state.blank() ==> #[trigger] state.tiles[j] != 0
}

/// The blank is taken to be in one of the nine cells.
pub proof fn lemma_blank_in_grid(tiles: Seq<u8>, from: int)
    requires
        0 <= from <= 8,
    ensures
        from <= first_blank(tiles, from) <= 8,
        first_blank(tiles, from) < 8 ==> tiles[first_blank(tiles, from)] == 0,
        forall|j: int| from <= j < first_blank(tiles, from) ==> tiles[j] != 0,
    decreases 8 - from,
{
    if from < 8 && tiles[from] != 0 {
        lemma_blank_in_grid(tiles, from + 1);
    }
}

/// Moving a tile to a neighbouring cell changes its distance from home by at
/// most one.
proof fn lemma_neighbour_distance(from: int, to: int, home: int)
    requires
        0 <= from < 9,
        0 <= to < 9,
        0 <= home,
        (to == from + 3 || to == from - 3) || (to == from + 1 && from % 3 < 2) || (to == from - 1
            && from % 3 > 0),
    ensures
        grid_distance(to, home) <= grid_distance(from, home) + 1,
{
}

/// A move into an arrangement with exactly one blank starts from an
/// arrangement with exactly one blank, whose estimate is at most one more.
pub proof fn lemma_move_back(before: EightPuzzleState, mv: SlideMove)
    requires
        before.slid(mv) is Some,
        one_blank(before.slid(mv)->0),
    ensures
        one_blank(before),
        distance_sum(before.tiles@, 9) <= distance_sum(before.slid(mv)->0.tiles@, 9) + 1,
{
    let after = before.slid(mv)->0;
    let b = before.blank();
    let t = target_cell(b, mv)->0;
    lemma_blank_in_grid(before.tiles@, 0);
    lemma_blank_in_grid(after.tiles@, 0);
    let moved = before.tiles[t];
    lemma_neighbour_distance(b, t, moved - 1);
    reveal_with_fuel(distance_sum, 10);
}

/// Along a walk into the solved arrangement every arrangement holds exactly
/// one blank, and its estimate stays within the number of moves still to
/// come.
proof fn lemma_estimate_along_solution(path: Seq<EightPuzzleState>, at: int)
    requires
        is_walk(path),
        0 <= at < path.len(),
        path.last().goal(),
    ensures
        one_blank(path[at]),
        distance_sum(path[at].tiles@, 9) <= path.len() - 1 - at,
    decreases path.len() - at,
{
    if at == path.len() - 1 {
        reveal_with_fuel(first_blank, 10);
        reveal_with_fuel(distance_sum, 10);
    } else {
        lemma_estimate_along_solution(path, at + 1);
        let here = path[at];
        let next = path[at + 1];
        if here.slid(SlideMove::Up) == Some(next) {
            lemma_move_back(here, SlideMove::Up);
        } else if here.slid(SlideMove::Down) == Some(next) {
            lemma_move_back(here, SlideMove::Down);
        } else if here.slid(SlideMove::Left) == Some(next) {
            lemma_move_back(here, SlideMove::Left);
        } else if here.slid(SlideMove::Right) == Some(next) {
            lemma_move_back(here, SlideMove::Right);
        }
    }
}

/// The sum of tile distances never exceeds the number of moves to the solved
/// arrangement.
pub proof fn lemma_manhattan_admissible()
    ensures
        admissible::<EightPuzzleState>(),
{
    assert forall|path: Seq<EightPuzzleState>| #[trigger]
        is_solution(path[0], path) implies path[0].estimate() <= path.len() - 1 by {
        lemma_estimate_along_solution(path, 0);
        lemma_sum_bounded(path[0].tiles@, 9);
    }
}

/// The sum of tile distances fits the type of the estimate.
proof fn lemma_sum_bounded(tiles: Seq<u8>, upto: int)
    requires
        0 <= upto <= 9,
    ensures
        0 <= distance_sum(tiles, upto) <= 90 * upto,
    decreases upto,
{
    if upto > 0 {
        lemma_sum_bounded(tiles, upto - 1);
    }
}

/// A move out of an arrangement with exactly one blank leads to an
/// arrangement with exactly one blank.
pub proof fn lemma_move_keeps_blank(before: EightPuzzleState, mv: SlideMove)
    requires
        before.slid(mv) is Some,
        one_blank(before),
    ensures
        one_blank(before.slid(mv)->0),
{
    let after = before.slid(mv)->0;
    lemma_blank_in_grid(before.tiles@, 0);
    lemma_blank_in_grid(after.tiles@, 0);
}

/// Which move leads from an arrangement to a given successor.
proof fn lemma_successor_by_move(state: EightPuzzleState, k: int) -> (mv: SlideMove)
    requires
        0 <= k < state.next_states().len(),
    ensures
        state.slid(mv) == Some(state.next_states()[k]),
{
    let next = state.next_states()[k];
    if state.slid(SlideMove::Up) == Some(next) {
        SlideMove::Up
    } else if state.slid(SlideMove::Down) == Some(next) {
        SlideMove::Down
    } else if state.slid(SlideMove::Left) == Some(next) {
        SlideMove::Left
    } else {
        SlideMove::Right
    }
}

/// Along a walk that starts with exactly one blank every arrangement holds
/// exactly one blank.
proof fn lemma_walk_keeps_blank(path: Seq<EightPuzzleState>, at: int)
    requires
        is_walk(path),
        0 <= at < path.len(),
        one_blank(path[0]),
    ensures
        one_blank(path[at]),
    decreases at,
{
    if at > 0 {
        lemma_walk_keeps_blank(path, at - 1);
        let before = path[at - 1];
        let k = choose|k: int|
            0 <= k < before.next_states().len() && before.next_states()[k] == path[at];
        let mv = lemma_successor_by_move(before, k);
        lemma_move_keeps_blank(before, mv);
    }
}

/// From an arrangement with exactly one blank on, the sum of tile distances
/// drops by at most one with every move.
pub proof fn lemma_manhattan_consistent(start: EightPuzzleState)
    requires
        one_blank(start),
    ensures
        consistent_from(start),
{
    assert forall|s: EightPuzzleState, k: int|
        reachable(start, s) && 0 <= k < s.next_states().len() implies s.estimate() <= 1 + (
    #[trigger] s.next_states()[k]).estimate() by {
        let walk = choose|walk: Seq<EightPuzzleState>| #[trigger]
            is_walk(walk) && walk.len() >= 1 && walk[0] == start && walk.last() == s;
        lemma_walk_keeps_blank(walk, walk.len() - 1);
        let mv = lemma_successor_by_move(s, k);
        lemma_move_keeps_blank(s, mv);
        lemma_move_back(s, mv);
        lemma_sum_bounded(s.tiles@, 9);
        lemma_sum_bounded(s.next_states()[k].tiles@, 9);
    }
}

/// A search from an arrangement with exactly one blank expands no more
/// arrangements than it has seen.
pub proof fn lemma_sliding_tile_expansions_within_visited(
    start: EightPuzzleState,
    report: SearchReport<EightPuzzleState>,
)
    requires
        answers(start, report),
        one_blank(start),
    ensures
        report.visited_states >= report.expanded_nodes,
{
    lemma_manhattan_consistent(start);
}

/// A path the engine reports for the sliding-tile puzzle takes the fewest
/// moves possible.
pub proof fn lemma_sliding_tile_path_is_shortest(
    start: EightPuzzleState,
    report: SearchReport<EightPuzzleState>,
    other: Seq<EightPuzzleState>,
)
    requires
        answers(start, report),
        report.goal_found,
        is_solution(start, other),
    ensures
        report.path@.len() <= other.len(),
{
    lemma_manhattan_admissible();
}

/// From an arrangement with exactly one blank from which the solved one can
/// be reached, a search that does not end on the clock finds it, over the
/// fewest moves possible.
pub proof fn lemma_sliding_tile_is_solved(
    start: EightPuzzleState,
    report: SearchReport<EightPuzzleState>,
    other: Seq<EightPuzzleState>,
)
    requires
        answers(start, report),
        one_blank(start),
        is_solution(start, other),
        !report.elapsed.beyond(TIME_LIMIT_SECS),
    ensures
        report.goal_found,
        is_solution(start, report.path@),
        report.path@.len() <= other.len(),
{
    lemma_manhattan_admissible();
    lemma_manhattan_consistent(start);
}

/// The successors of an arrangement with exactly one blank differ from it
/// and from one another.
pub proof fn lemma_successors_differ(state: EightPuzzleState)
    requires
        one_blank(state),
    ensures
        state.next_states().len() <= 4,
        forall|i: int|
            0 <= i < state.next_states().len() ==> #[trigger] state.next_states()[i] != state,
        forall|i: int, j: int|
            0 <= i < j < state.next_states().len() ==> state.next_states()[i]
                != state.next_states()[j],
{
    lemma_blank_in_grid(state.tiles@, 0);
    let b = state.blank();
    let up = state.slid(SlideMove::Up);
    let down = state.slid(SlideMove::Down);
    let left = state.slid(SlideMove::Left);
    let right = state.slid(SlideMove::Right);
    if up is Some {
        assert(up->0.tiles[b - 3] == 0 && up->0.tiles[b] != 0);
        assert(state.tiles[b - 3] != 0);
        if down is Some {
            assert(down->0.tiles[b - 3] != 0);
        }
        if left is Some {
            assert(left->0.tiles[b - 3] != 0);
        }
        if right is Some {
            assert(right->0.tiles[b - 3] != 0);
        }
    }
    if down is Some {
        assert(down->0.tiles[b + 3] == 0 && down->0.tiles[b] != 0);
        assert(state.tiles[b + 3] != 0);
        if left is Some {
            assert(left->0.tiles[b + 3] != 0);
        }
        if right is Some {
            assert(right->0.tiles[b + 3] != 0);
        }
    }
    if left is Some {
        assert(left->0.tiles[b - 1] == 0 && left->0.tiles[b] != 0);
        assert(state.tiles[b - 1] != 0);
        if right is Some {
            assert(right->0.tiles[b - 1] != 0);
        }
    }
    if right is Some {
        assert(right->0.tiles[b + 1] == 0 && right->0.tiles[b] != 0);
    }
}

/// Where the tile distances of the first `upto` cells sum to zero, each of
/// them is zero.
proof fn lemma_zero_sum_cells(tiles: Seq<u8>, upto: int)
    requires
        0 <= upto <= 9,
        distance_sum(tiles, upto) == 0,
    ensures
        forall|j: int| 0 <= j < upto ==> tile_distance(j, #[trigger] tiles[j]) == 0,
    decreases upto,
{
    if upto > 0 {
        lemma_sum_bounded(tiles, upto - 1);
        lemma_zero_sum_cells(tiles, upto - 1);
    }
}

/// A tile at no distance from its home cell is in it.
proof fn lemma_home_cell(at: int, tile: u8)
    requires
        0 <= at < 9,
        1 <= tile <= 9,
        tile_distance(at, tile) == 0,
    ensures
        tile == at + 1,
{
}

/// An arrangement of the tiles up to eight with exactly one blank whose
/// estimate is zero is the solved one.
pub proof fn lemma_zero_estimate_is_solved(state: EightPuzzleState)
    requires
        one_blank(state),
        forall|j: int| 0 <= j < 9 ==> #[trigger] state.tiles[j] <= 8,
        state.estimate() == 0,
    ensures
        state.goal(),
{
    lemma_sum_bounded(state.tiles@, 9);
    lemma_blank_in_grid(state.tiles@, 0);
    lemma_zero_sum_cells(state.tiles@, 9);
    assert forall|j: int| 0 <= j < 9 implies #[trigger] state.tiles[j] == GOAL[j] by {
        assert(state.tiles[8] <= 8);
        assert(tile_distance(8, state.tiles@[8]) == 0);
        if state.tiles[8] != 0 {
            lemma_home_cell(8, state.tiles[8]);
        }
        if j < 8 {
            assert(tile_distance(j, state.tiles@[j]) == 0);
            lemma_home_cell(j, state.tiles[j]);
        }
    }
    assert(state.tiles =~= GOAL);
}

/// From an arrangement one move away from the solved one, a search that does
/// not end on the clock expands the start alone, has then seen the start and
/// its successors, and reports the start and the solved arrangement.
pub proof fn lemma_sliding_tile_one_move_from_solved(
    start: EightPuzzleState,
    report: SearchReport<EightPuzzleState>,
)
    requires
        answers(start, report),
        exists|i: int|
            0 <= i < start.next_states().len() && (#[trigger] start.next_states()[i]).goal(),
        !report.elapsed.beyond(TIME_LIMIT_SECS),
    ensures
        report.goal_found,
        report.expanded_nodes == 1,
        report.visited_states == 1 + start.next_states().len(),
        report.path@.len() == 2,
{
    let nexts = start.next_states();
    let i = choose|i: int| 0 <= i < nexts.len() && (#[trigger] nexts[i]).goal();
    let solved = nexts[i];
    let mv = lemma_successor_by_move(start, i);
    assert(one_blank(solved)) by {
        reveal_with_fuel(first_blank, 10);
    }
    lemma_move_back(start, mv);
    lemma_blank_in_grid(start.tiles@, 0);
    assert forall|j: int| 0 <= j < 9 implies #[trigger] start.tiles[j] <= 8 by {
        let target = target_cell(start.blank(), mv)->0;
        assert(solved.tiles[j] <= 8);
        assert(solved.tiles[start.blank()] <= 8);
        assert(solved.tiles[target] <= 8);
    }
    lemma_successors_differ(start);
    assert forall|k: int| 0 <= k < nexts.len() implies ((#[trigger] nexts[k]).goal()
        <==> nexts[k].estimate() == 0) by {
        let by_move = lemma_successor_by_move(start, k);
        lemma_move_keeps_blank(start, by_move);
        if nexts[k].goal() {
            reveal_with_fuel(distance_sum, 10);
        }
        if nexts[k].estimate() == 0 {
            let target = target_cell(start.blank(), by_move)->0;
            assert forall|j: int| 0 <= j < 9 implies #[trigger] nexts[k].tiles[j] <= 8 by {
                assert(start.tiles[j] <= 8);
                assert(start.tiles[start.blank()] <= 8);
                assert(start.tiles[target] <= 8);
            }
            lemma_zero_estimate_is_solved(nexts[k]);
        }
    }
    assert(!start.goal()) by {
        if start.goal() {
            assert(start.tiles =~= solved.tiles);
        }
    }
    assert(fresh(opening_table(start), nexts));
    lemma_goal_one_move_away_is_found(start, report);
}

} // verus!
