//! The three-in-a-row board, searched for a win of the first player.

use crate::search::digest::blend;
use crate::search::digest::blended;
use crate::search::state::kept;
use crate::search::state::SearchState;
use vstd::prelude::*;

verus! {

/// The eight lines of three cells: rows, columns, diagonals.
pub const WINNING_LINES: [[usize; 3]; 8] = [
    [0, 1, 2],
    [3, 4, 5],
    [6, 7, 8],
    [0, 3, 6],
    [1, 4, 7],
    [2, 5, 8],
    [0, 4, 8],
    [2, 4, 6],
];

/// The two marks.
#[derive(Debug, Clone, Copy, PartialEq, Eq, Hash, Structural)]
pub enum Player {
    X,
    O,
}

impl Player {
    /// The other player.
    pub open spec fn other(self) -> Player {
        match self {
            Player::X => Player::O,
            Player::O => Player::X,
        }
    }

    /// The other player.
    pub fn opponent(self) -> (other: Self)
        ensures
            other == self.other(),
    {
        match self {
            Player::X => Player::O,
            Player::O => Player::X,
        }
    }
}

/// The nine cells, row by row, and whose turn it is.
#[derive(Debug, Clone, Copy, PartialEq, Eq, Hash)]
pub struct XorTicTacToeState {
    pub cells: [Option<Player>; 9],
    pub to_move: Player,
}

impl Default for XorTicTacToeState {
    fn default() -> (state: Self)
        ensures
            forall|i: int| 0 <= i < 9 ==> state.cells[i] is None,
            state.to_move == Player::X,
    {
        Self { cells: [None;9], to_move: Player::X }
    }
}

/// The cell a mark goes to.
#[derive(Debug, Clone, Copy)]
pub struct PlaceMove {
    pub index: usize,
}

/// The cells of line `line`.
pub open spec fn line_cells(line: int) -> (int, int, int) {
    (
        WINNING_LINES[line][0] as int,
        WINNING_LINES[line][1] as int,
        WINNING_LINES[line][2] as int,
    )
}

/// The player whose marks fill line `line`, if one player's do.
pub open spec fn line_owner(cells: Seq<Option<Player>>, line: int) -> Option<Player> {
    let (a, b, c) = line_cells(line);
    match (cells[a], cells[b], cells[c]) {
        (Some(x), Some(y), Some(z)) => if x == y && y == z {
            Some(x)
        } else {
            None
        },
        _ => None,
    }
}

/// The owner of the first owned line from `from` on.
pub open spec fn first_owner(cells: Seq<Option<Player>>, from: int) -> Option<Player>
    decreases 8 - from,
{
    if from >= 8 {
        None
    } else if line_owner(cells, from) is Some {
        line_owner(cells, from)
    } else {
        first_owner(cells, from + 1)
    }
}

/// Every one of the first `upto` cells holds a mark.
pub open spec fn filled(cells: Seq<Option<Player>>, upto: int) -> bool {
    forall|i: int| 0 <= i < upto ==> (#[trigger] cells[i]) is Some
}

/// The content of cell `i` once cell `at` holds `mark`.
pub open spec fn marked(cells: [Option<Player>; 9], at: int, mark: Option<Player>, i: int) -> Option<
    Player,
> {
    if i == at {
        mark
    } else {
        cells[i]
    }
}

/// The cells once cell `at` holds `mark`.
pub open spec fn with_cell(cells: [Option<Player>; 9], at: int, mark: Option<Player>) -> [Option<
    Player,
>; 9] {
    [
        marked(cells, at, mark, 0),
        marked(cells, at, mark, 1),
        marked(cells, at, mark, 2),
        marked(cells, at, mark, 3),
        marked(cells, at, mark, 4),
        marked(cells, at, mark, 5),
        marked(cells, at, mark, 6),
        marked(cells, at, mark, 7),
        marked(cells, at, mark, 8),
    ]
}

/// The states reached from `state` by the mover marking one of the first
/// `upto` cells.
pub open spec fn markings(state: XorTicTacToeState, upto: int) -> Seq<XorTicTacToeState>
    decreases upto,
{
    if upto <= 0 {
        Seq::empty()
    } else {
        markings(state, upto - 1) + kept(state.played(upto - 1))
    }
}

/// A number for what a cell holds.
pub open spec fn cell_code(cell: Option<Player>) -> u8 {
    match cell {
        None => 0,
        Some(Player::X) => 1,
        Some(Player::O) => 2,
    }
}

/// The key that results from folding the first `upto` cells into `seed`.
pub open spec fn cells_digest(cells: Seq<Option<Player>>, seed: u64, upto: int) -> u64
    decreases upto,
{
    if upto <= 0 {
        seed
    } else {
        blended(cells_digest(cells, seed, upto - 1), cell_code(cells[upto - 1]))
    }
}

/// A number for what a cell holds.
fn code_of(cell: Option<Player>) -> (code: u8)
    ensures
        code == cell_code(cell),
{
    match cell {
        None => 0,
        Some(Player::X) => 1,
        Some(Player::O) => 2,
    }
}

/// Marks a cell.
pub fn mark_cell(cells: &[Option<Player>; 9], at: usize, mark: Option<Player>) -> (out: [Option<
    Player,
>; 9])
    requires
        at < 9,
    ensures
        out == with_cell(*cells, at as int, mark),
{
    let mut out = *cells;
    out[at] = mark;
    out
}

impl XorTicTacToeState {
    /// The owner of the first owned line, in the order of
    /// [`WINNING_LINES`].
    pub open spec fn won_by(&self) -> Option<Player> {
        first_owner(self.cells@, 0)
    }

    /// The state after the mover has marked cell `at`, if the cell is empty.
    pub open spec fn played(&self, at: int) -> Option<XorTicTacToeState> {
        if 0 <= at < 9 && self.cells[at] is None {
            Some(
                XorTicTacToeState {
                    cells: with_cell(self.cells, at, Some(self.to_move)),
                    to_move: self.to_move.other(),
                },
            )
        } else {
            None
        }
    }

    /// The player who owns a line, if any.
    pub fn winner(&self) -> (owner: Option<Player>)
        ensures
            owner == self.won_by(),
    {
        let mut line: usize = 0;
        while line < 8
            invariant
                line <= 8,
                self.won_by() == first_owner(self.cells@, line as int),
            decreases 8 - line,
        {
            let cells = WINNING_LINES[line];
            match (self.cells[cells[0]], self.cells[cells[1]], self.cells[cells[2]]) {
                (Some(a), Some(b), Some(c)) => {
                    if a == b && b == c {
                        return Some(a);
                    }
                },
                _ => {},
            }
            line += 1;
        }
        None
    }

    /// Whether every cell holds a mark.
    pub fn is_full(&self) -> (full: bool)
        ensures
            full == filled(self.cells@, 9),
    {
        let mut i: usize = 0;
        while i < 9
            invariant
                i <= 9,
                filled(self.cells@, i as int),
            decreases 9 - i,
        {
            if self.cells[i].is_none() {
                return false;
            }
            i += 1;
        }
        true
    }
}

impl SearchState for XorTicTacToeState {
    type Move = PlaceMove;

    open spec fn goal(&self) -> bool {
        self.won_by() == Some(Player::X)
    }

    open spec fn estimate(&self) -> u32 {
        match self.won_by() {
            Some(Player::X) => 0,
            Some(Player::O) => 100,
            None => match self.cells[4] {
                Some(Player::X) => 0,
                Some(Player::O) => 4,
                None => 2,
            },
        }
    }

    open spec fn next_states(&self) -> Seq<Self> {
        if self.won_by() is Some || filled(self.cells@, 9) {
            Seq::empty()
        } else {
            markings(*self, 9)
        }
    }

    open spec fn digest(&self) -> u64 {
        cells_digest(self.cells@, cell_code(Some(self.to_move)) as u64, 9)
    }

    fn is_goal(&self) -> (found: bool) {
        match self.winner() {
            Some(Player::X) => true,
            _ => false,
        }
    }

    fn heuristic(&self) -> (h: u32) {
        match self.winner() {
            Some(Player::X) => 0,
            Some(Player::O) => 100,
            None => match self.cells[4] {
                Some(Player::X) => 0,
                Some(Player::O) => 4,
                None => 2,
            },
        }
    }

    fn successors(&self) -> (out: Vec<(PlaceMove, Self)>)
        ensures
            forall|i: int|
                0 <= i < out@.len() ==> self.played((#[trigger] out@[i]).0.index as int) == Some(
                    out@[i].1,
                ),
    {
        let mut out: Vec<(PlaceMove, Self)> = Vec::new();
        if self.winner().is_some() || self.is_full() {
            return out;
        }
        let mut idx: usize = 0;
        while idx < 9
            invariant
                idx <= 9,
                out@.len() == markings(*self, idx as int).len(),
                forall|k: int|
                    0 <= k < out@.len() ==> self.played((#[trigger] out@[k]).0.index as int)
                        == Some(out@[k].1),
                forall|k: int|
                    0 <= k < out@.len() ==> (#[trigger] out@[k]).1 == markings(*self, idx as int)[k],
            decreases 9 - idx,
        {
            if self.cells[idx].is_none() {
                let next = XorTicTacToeState {
                    cells: mark_cell(&self.cells, idx, Some(self.to_move)),
                    to_move: self.to_move.opponent(),
                };
                out.push((PlaceMove { index: idx }, next));
            }
            idx += 1;
        }
        out
    }

    fn same(&self, other: &Self) -> (equal: bool) {
        if self.to_move != other.to_move {
            return false;
        }
        let mut i: usize = 0;
        while i < 9
            invariant
                i <= 9,
                forall|k: int| 0 <= k < i ==> self.cells@[k] == other.cells@[k],
            decreases 9 - i,
        {
            let equal = match (self.cells[i], other.cells[i]) {
                (Some(a), Some(b)) => a == b,
                (None, None) => true,
                _ => false,
            };
            if !equal {
                return false;
            }
            i += 1;
        }
        assert(self.cells =~= other.cells);
        true
    }

    fn fingerprint(&self) -> (key: u64) {
        let mut key: u64 = code_of(Some(self.to_move)) as u64;
        let mut i: usize = 0;
        while i < 9
            invariant
                i <= 9,
                key == cells_digest(
                    self.cells@,
                    cell_code(Some(self.to_move)) as u64,
                    i as int,
                ),
            decreases 9 - i,
        {
            key = blend(key, code_of(self.cells[i]));
            i += 1;
        }
        key
    }

    fn duplicate(&self) -> (copy: Self) {
        *self
    }
}

} // verus!
