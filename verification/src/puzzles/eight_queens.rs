//! Eight queens, placed row by row so that no two attack each other.

use crate::search::digest::blend;
use crate::search::digest::blended;
use crate::search::state::kept;
use crate::search::state::SearchState;
use vstd::prelude::*;
use vstd::string::StringExecFns;

verus! {

/// For each of the eight rows the column of its queen, if it has one.
#[derive(Debug, Clone, Copy, PartialEq, Eq, Hash)]
pub struct EightQueensState {
    pub queens: [Option<u8>; 8],
}

/// The board without queens.
pub open spec fn no_queens() -> [Option<u8>; 8] {
    [None, None, None, None, None, None, None, None]
}

impl Default for EightQueensState {
    fn default() -> (state: Self)
        ensures
            state.queens == no_queens(),
    {
        let state = Self { queens: [None;8] };
        state
    }
}

/// Where a queen is to go.
#[derive(Debug, Clone, Copy)]
pub struct PlaceQueen {
    pub row: u8,
    pub col: u8,
}

/// The distance between two numbers.
pub open spec fn gap(a: int, b: int) -> int {
    if a >= b {
        a - b
    } else {
        b - a
    }
}

/// Two squares lie on a common diagonal.
pub open spec fn on_diagonal(row1: int, col1: int, row2: int, col2: int) -> bool {
    gap(row1, row2) == gap(col1, col2)
}

/// The queen of `row`, if there is one, neither shares the column of the
/// square `(to_row, to_col)` nor a diagonal with it.
pub open spec fn row_allows(queens: Seq<Option<u8>>, row: int, to_row: int, to_col: int) -> bool {
    match queens[row] {
        Some(c) => c != to_col && !on_diagonal(row, c as int, to_row, to_col),
        None => true,
    }
}

/// No queen on the board attacks the square `(to_row, to_col)` along a column
/// or a diagonal.
pub open spec fn square_free(queens: Seq<Option<u8>>, to_row: int, to_col: int) -> bool {
    forall|row: int| 0 <= row < 8 ==> #[trigger] row_allows(queens, row, to_row, to_col)
}

/// The number of queens in column `col` among the first `rows` rows.
pub open spec fn column_load(queens: Seq<Option<u8>>, col: int, rows: int) -> nat
    decreases rows,
{
    if rows <= 0 {
        0
    } else {
        column_load(queens, col, rows - 1) + if queens[rows - 1] == Some(col as u8) {
            1nat
        } else {
            0nat
        }
    }
}

/// The queens a column holds beyond its first.
pub open spec fn surplus(load: nat) -> nat {
    if load > 1 {
        (load - 1) as nat
    } else {
        0
    }
}

/// The surplus queens of the first `cols` columns.
pub open spec fn column_conflicts(queens: Seq<Option<u8>>, cols: int) -> nat
    decreases cols,
{
    if cols <= 0 {
        0
    } else {
        column_conflicts(queens, cols - 1) + surplus(column_load(queens, cols - 1, 8))
    }
}

/// The rows `row1` and `row2` both hold a queen, and the two share a
/// diagonal.
pub open spec fn clash(queens: Seq<Option<u8>>, row1: int, row2: int) -> bool {
    match (queens[row1], queens[row2]) {
        (Some(c1), Some(c2)) => on_diagonal(row1, c1 as int, row2, c2 as int),
        _ => false,
    }
}

/// The number of rows after `row1` and before `upto` whose queen shares a
/// diagonal with that of `row1`.
pub open spec fn clashes_with(queens: Seq<Option<u8>>, row1: int, upto: int) -> nat
    decreases upto - row1,
{
    if upto <= row1 + 1 {
        0
    } else {
        clashes_with(queens, row1, upto - 1) + if clash(queens, row1, upto - 1) {
            1nat
        } else {
            0nat
        }
    }
}

/// The number of pairs of queens on a common diagonal whose upper queen is in
/// one of the first `rows` rows.
pub open spec fn diagonal_conflicts(queens: Seq<Option<u8>>, rows: int) -> nat
    decreases rows,
{
    if rows <= 0 {
        0
    } else {
        diagonal_conflicts(queens, rows - 1) + clashes_with(queens, rows - 1, 8)
    }
}

/// Surplus queens per column plus pairs of queens on a common diagonal.
pub open spec fn conflicts(queens: Seq<Option<u8>>) -> nat {
    column_conflicts(queens, 8) + diagonal_conflicts(queens, 8)
}

/// The number of rows without a queen among the first `rows` rows.
pub open spec fn missing(queens: Seq<Option<u8>>, rows: int) -> nat
    decreases rows,
{
    if rows <= 0 {
        0
    } else {
        missing(queens, rows - 1) + if queens[rows - 1] is None {
            1nat
        } else {
            0nat
        }
    }
}

/// The number of squares of `row`, among its first `cols`, that no queen
/// attacks.
pub open spec fn free_squares(queens: Seq<Option<u8>>, row: int, cols: int) -> nat
    decreases cols,
{
    if cols <= 0 {
        0
    } else {
        free_squares(queens, row, cols - 1) + if square_free(queens, row, cols - 1) {
            1nat
        } else {
            0nat
        }
    }
}

/// What a row adds to the estimate for being hard to fill: ten for an empty
/// row with no free square, two for one with a single free square.
pub open spec fn row_penalty(queens: Seq<Option<u8>>, row: int) -> nat {
    if queens[row] is Some {
        0
    } else if free_squares(queens, row, 8) == 0 {
        10
    } else if free_squares(queens, row, 8) == 1 {
        2
    } else {
        0
    }
}

/// The penalties of the first `rows` rows.
pub open spec fn penalty(queens: Seq<Option<u8>>, rows: int) -> nat
    decreases rows,
{
    if rows <= 0 {
        0
    } else {
        penalty(queens, rows - 1) + row_penalty(queens, rows - 1)
    }
}

/// The first row from `from` on that has no queen; eight if all have one.
pub open spec fn first_empty(queens: Seq<Option<u8>>, from: int) -> int
    decreases 8 - from,
{
    if from >= 8 {
        8
    } else if queens[from] is None {
        from
    } else {
        first_empty(queens, from + 1)
    }
}

/// The content of row `i` once row `row` has been set to `value`.
pub open spec fn replaced(queens: [Option<u8>; 8], row: int, value: Option<u8>, i: int) -> Option<
    u8,
> {
    if i == row {
        value
    } else {
        queens[i]
    }
}

/// The board on which row `row` has been set to `value`.
pub open spec fn with_row(queens: [Option<u8>; 8], row: int, value: Option<u8>) -> [Option<u8>; 8] {
    [
        replaced(queens, row, value, 0),
        replaced(queens, row, value, 1),
        replaced(queens, row, value, 2),
        replaced(queens, row, value, 3),
        replaced(queens, row, value, 4),
        replaced(queens, row, value, 5),
        replaced(queens, row, value, 6),
        replaced(queens, row, value, 7),
    ]
}

/// The states reached from `state` by placing a queen in `row`, in one of its
/// first `cols` columns.
pub open spec fn placements(state: EightQueensState, row: int, cols: int) -> Seq<EightQueensState>
    decreases cols,
{
    if cols <= 0 {
        Seq::empty()
    } else {
        placements(state, row, cols - 1) + kept(
            state.placed(PlaceQueen { row: row as u8, col: (cols - 1) as u8 }),
        )
    }
}

/// How a square is written: `Q` for the queen of its row, a dot otherwise.
pub open spec fn square_text(queen: Option<u8>, col: int) -> Seq<char> {
    if queen == Some(col as u8) {
        "Q "@
    } else {
        ". "@
    }
}

/// The first `upto` squares as written, row by row: eight squares to a line.
pub open spec fn squares_text(queens: Seq<Option<u8>>, upto: int) -> Seq<char>
    decreases upto,
{
    if upto <= 0 {
        Seq::empty()
    } else if upto % 8 == 1 && upto > 1 {
        squares_text(queens, upto - 1) + "\n"@ + square_text(
            queens[(upto - 1) / 8],
            (upto - 1) % 8,
        )
    } else {
        squares_text(queens, upto - 1) + square_text(queens[(upto - 1) / 8], (upto - 1) % 8)
    }
}

/// The distance between two numbers.
fn gap_of(a: u8, b: u8) -> (d: u8)
    ensures
        d == gap(a as int, b as int),
{
    if a >= b {
        a - b
    } else {
        b - a
    }
}

impl EightQueensState {
    /// The state with a queen on the square `placement` names, if the square
    /// is on the board and no queen attacks it along a column or a diagonal.
    pub open spec fn placed(&self, placement: PlaceQueen) -> Option<EightQueensState> {
        if placement.row < 8 && placement.col < 8 && square_free(
            self.queens@,
            placement.row as int,
            placement.col as int,
        ) {
            Some(
                EightQueensState {
                    queens: with_row(self.queens, placement.row as int, Some(placement.col)),
                },
            )
        } else {
            None
        }
    }

    /// The board as text, one line per row.
    pub fn to_string(&self) -> (text: String)
        ensures
            text@ == squares_text(self.queens@, 64),
    {
        let mut text = String::new();
        let mut idx: usize = 0;
        while idx < 64
            invariant
                idx <= 64,
                text@ == squares_text(self.queens@, idx as int),
            decreases 64 - idx,
        {
            if idx % 8 == 0 && idx > 0 {
                text.append("\n");
            }
            let col = (idx % 8) as u8;
            let here = match self.queens[idx / 8] {
                Some(q_col) => q_col == col,
                None => false,
            };
            if here {
                text.append("Q ");
            } else {
                text.append(". ");
            }
            idx += 1;
        }
        text
    }

    /// Whether no queen on the board shares the column of the square
    /// `(row, col)` or a diagonal with it.
    pub fn is_valid_placement(&self, row: u8, col: u8) -> (free: bool)
        ensures
            free == square_free(self.queens@, row as int, col as int),
    {
        let mut r: u8 = 0;
        while r < 8
            invariant
                r <= 8,
                forall|k: int|
                    0 <= k < r ==> #[trigger] row_allows(self.queens@, k, row as int, col as int),
            decreases 8 - r,
        {
            match self.queens[r as usize] {
                Some(c) => {
                    if c == col || gap_of(r, row) == gap_of(c, col) {
                        assert(!row_allows(self.queens@, r as int, row as int, col as int));
                        return false;
                    }
                },
                None => {},
            }
            r += 1;
        }
        true
    }

    /// The number of conflicts on the board: queens beyond the first in a
    /// column, and pairs of queens on a common diagonal.
    pub fn count_conflicts(&self) -> (count: u32)
        ensures
            count == conflicts(self.queens@),
    {
        let mut total: u32 = 0;
        let mut col: u8 = 0;
        while col < 8
            invariant
                col <= 8,
                total == column_conflicts(self.queens@, col as int),
                total <= 8 * col,
            decreases 8 - col,
        {
            let mut load: u32 = 0;
            let mut row: usize = 0;
            while row < 8
                invariant
                    row <= 8,
                    col < 8,
                    load == column_load(self.queens@, col as int, row as int),
                    load <= row,
                decreases 8 - row,
            {
                match self.queens[row] {
                    Some(c) => {
                        if c == col {
                            load += 1;
                        }
                    },
                    None => {},
                }
                row += 1;
            }
            if load > 1 {
                total += load - 1;
            }
            col += 1;
        }
        let mut row1: u8 = 0;
        while row1 < 8
            invariant
                row1 <= 8,
                total == column_conflicts(self.queens@, 8) + diagonal_conflicts(
                    self.queens@,
                    row1 as int,
                ),
                total <= 64 + 8 * row1,
            decreases 8 - row1,
        {
            let mut found: u32 = 0;
            let mut row2: u8 = row1 + 1;
            while row2 < 8
                invariant
                    row1 < 8,
                    row1 + 1 <= row2 <= 8,
                    found == clashes_with(self.queens@, row1 as int, row2 as int),
                    found <= row2 - row1 - 1,
                decreases 8 - row2,
            {
                match (self.queens[row1 as usize], self.queens[row2 as usize]) {
                    (Some(col1), Some(col2)) => {
                        if gap_of(row1, row2) == gap_of(col1, col2) {
                            found += 1;
                        }
                    },
                    _ => {},
                }
                row2 += 1;
            }
            total += found;
            row1 += 1;
        }
        total
    }

    /// Places a queen, or gives `None` where the square is off the board or
    /// under attack.
    pub fn apply_placement(&self, placement: PlaceQueen) -> (moved: Option<Self>)
        ensures
            moved == self.placed(placement),
    {
        if placement.row >= 8 || placement.col >= 8 {
            return None;
        }
        if !self.is_valid_placement(placement.row, placement.col) {
            return None;
        }
        let mut new_state = *self;
        new_state.queens[placement.row as usize] = Some(placement.col);
        assert(new_state.queens =~= with_row(
            self.queens,
            placement.row as int,
            Some(placement.col),
        ));
        Some(new_state)
    }

    /// Takes the queen off `row`; a row off the board leaves the state as it
    /// is.
    pub fn remove_queen(&self, row: u8) -> (cleared: Self)
        ensures
            row < 8 ==> cleared.queens == with_row(self.queens, row as int, None),
            row >= 8 ==> cleared == *self,
    {
        let mut new_state = *self;
        if row < 8 {
            new_state.queens[row as usize] = None;
        }
        new_state
    }

    /// The number of rows without a queen.
    pub fn count_missing(&self) -> (count: u32)
        ensures
            count == missing(self.queens@, 8),
            count <= 8,
    {
        let mut count: u32 = 0;
        let mut row: usize = 0;
        while row < 8
            invariant
                row <= 8,
                count == missing(self.queens@, row as int),
                count <= row,
            decreases 8 - row,
        {
            if self.queens[row].is_none() {
                count += 1;
            }
            row += 1;
        }
        count
    }

    /// The first row without a queen.
    pub fn first_empty_row(&self) -> (found: Option<usize>)
        ensures
            match found {
                Some(row) => row < 8 && row == first_empty(self.queens@, 0),
                None => first_empty(self.queens@, 0) == 8,
            },
    {
        let mut row: usize = 0;
        while row < 8
            invariant
                row <= 8,
                first_empty(self.queens@, 0) == first_empty(self.queens@, row as int),
            decreases 8 - row,
        {
            if self.queens[row].is_none() {
                return Some(row);
            }
            row += 1;
        }
        None
    }
}

impl SearchState for EightQueensState {
    type Move = PlaceQueen;

    open spec fn goal(&self) -> bool {
        missing(self.queens@, 8) == 0 && conflicts(self.queens@) == 0
    }

    open spec fn estimate(&self) -> u32 {
        (conflicts(self.queens@) + missing(self.queens@, 8) + penalty(self.queens@, 8)) as u32
    }

    open spec fn next_states(&self) -> Seq<Self> {
        if first_empty(self.queens@, 0) < 8 {
            placements(*self, first_empty(self.queens@, 0), 8)
        } else {
            Seq::empty()
        }
    }

    open spec fn digest(&self) -> u64 {
        queens_digest(self.queens@, 8)
    }

    fn is_goal(&self) -> (found: bool) {
        self.count_missing() == 0 && self.count_conflicts() == 0
    }

    fn heuristic(&self) -> (h: u32) {
        let clashing = self.count_conflicts();
        let absent = self.count_missing();
        let mut fine: u32 = 0;
        let mut row: u8 = 0;
        while row < 8
            invariant
                row <= 8,
                fine == penalty(self.queens@, row as int),
                fine <= 10 * row,
            decreases 8 - row,
        {
            if self.queens[row as usize].is_none() {
                let mut valid_placements: u32 = 0;
                let mut col: u8 = 0;
                while col < 8
                    invariant
                        col <= 8,
                        row < 8,
                        valid_placements == free_squares(self.queens@, row as int, col as int),
                        valid_placements <= col,
                    decreases 8 - col,
                {
                    if self.is_valid_placement(row, col) {
                        valid_placements += 1;
                    }
                    col += 1;
                }
                if valid_placements == 0 {
                    fine += 10;
                } else if valid_placements == 1 {
                    fine += 2;
                }
            }
            row += 1;
        }
        proof {
            lemma_conflicts_bounded(self.queens@);
        }
        clashing + absent + fine
    }

    fn successors(&self) -> (out: Vec<(PlaceQueen, Self)>)
        ensures
            forall|i: int|
                0 <= i < out@.len() ==> self.placed((#[trigger] out@[i]).0) == Some(out@[i].1),
    {
        let mut out: Vec<(PlaceQueen, Self)> = Vec::new();
        match self.first_empty_row() {
            Some(row) => {
                let mut col: u8 = 0;
                while col < 8
                    invariant
                        col <= 8,
                        row < 8,
                        out@.len() == placements(*self, row as int, col as int).len(),
                        forall|k: int|
                            0 <= k < out@.len() ==> self.placed((#[trigger] out@[k]).0) == Some(
                                out@[k].1,
                            ),
                        forall|k: int|
                            0 <= k < out@.len() ==> (#[trigger] out@[k]).1 == placements(
                                *self,
                                row as int,
                                col as int,
                            )[k],
                    decreases 8 - col,
                {
                    let placement = PlaceQueen { row: row as u8, col };
                    match self.apply_placement(placement) {
                        Some(new_state) => {
                            out.push((placement, new_state));
                        },
                        None => {},
                    }
                    col += 1;
                }
            },
            None => {},
        }
        out
    }

    fn same(&self, other: &Self) -> (equal: bool) {
        let mut row: usize = 0;
        while row < 8
            invariant
                row <= 8,
                forall|k: int| 0 <= k < row ==> self.queens@[k] == other.queens@[k],
            decreases 8 - row,
        {
            let equal = match (self.queens[row], other.queens[row]) {
                (Some(a), Some(b)) => a == b,
                (None, None) => true,
                _ => false,
            };
            if !equal {
                return false;
            }
            row += 1;
        }
        assert(self.queens =~= other.queens);
        true
    }

    fn fingerprint(&self) -> (key: u64) {
        let mut key: u64 = 0;
        let mut row: usize = 0;
        while row < 8
            invariant
                row <= 8,
                key == queens_digest(self.queens@, row as int),
            decreases 8 - row,
        {
            key = match self.queens[row] {
                Some(c) => blend(blend(key, 1), c),
                None => blend(key, 0),
            };
            row += 1;
        }
        key
    }

    fn duplicate(&self) -> (copy: Self) {
        *self
    }
}

/// The key that results from folding the first `rows` rows into zero.
pub open spec fn queens_digest(queens: Seq<Option<u8>>, rows: int) -> u64
    decreases rows,
{
    if rows <= 0 {
        0
    } else {
        match queens[rows - 1] {
            Some(c) => blended(blended(queens_digest(queens, rows - 1), 1), c),
            None => blended(queens_digest(queens, rows - 1), 0),
        }
    }
}

/// The conflict count of a board stays within what eight rows can hold.
proof fn lemma_conflicts_bounded(queens: Seq<Option<u8>>)
    ensures
        conflicts(queens) <= 128,
        missing(queens, 8) <= 8,
        penalty(queens, 8) <= 80,
{
    lemma_column_conflicts_bounded(queens, 8);
    lemma_diagonal_conflicts_bounded(queens, 8);
    lemma_missing_bounded(queens, 8);
    lemma_penalty_bounded(queens, 8);
}

proof fn lemma_column_load_bounded(queens: Seq<Option<u8>>, col: int, rows: int)
    requires
        0 <= rows,
    ensures
        column_load(queens, col, rows) <= rows,
    decreases rows,
{
    if rows > 0 {
        lemma_column_load_bounded(queens, col, rows - 1);
    }
}

proof fn lemma_column_conflicts_bounded(queens: Seq<Option<u8>>, cols: int)
    requires
        0 <= cols,
    ensures
        column_conflicts(queens, cols) <= 8 * cols,
    decreases cols,
{
    if cols > 0 {
        lemma_column_conflicts_bounded(queens, cols - 1);
        lemma_column_load_bounded(queens, cols - 1, 8);
    }
}

proof fn lemma_clashes_count(queens: Seq<Option<u8>>, row1: int, upto: int)
    requires
        0 <= row1,
    ensures
        clashes_with(queens, row1, upto) <= if upto > row1 + 1 {
            upto - row1 - 1
        } else {
            0
        },
    decreases upto - row1,
{
    if upto > row1 + 1 {
        lemma_clashes_count(queens, row1, upto - 1);
    }
}

proof fn lemma_diagonal_conflicts_bounded(queens: Seq<Option<u8>>, rows: int)
    requires
        0 <= rows <= 8,
    ensures
        diagonal_conflicts(queens, rows) <= 8 * rows,
    decreases rows,
{
    if rows > 0 {
        lemma_diagonal_conflicts_bounded(queens, rows - 1);
        lemma_clashes_count(queens, rows - 1, 8);
    }
}

proof fn lemma_missing_bounded(queens: Seq<Option<u8>>, rows: int)
    requires
        0 <= rows,
    ensures
        missing(queens, rows) <= rows,
    decreases rows,
{
    if rows > 0 {
        lemma_missing_bounded(queens, rows - 1);
    }
}

proof fn lemma_penalty_bounded(queens: Seq<Option<u8>>, rows: int)
    requires
        0 <= rows,
    ensures
        penalty(queens, rows) <= 10 * rows,
    decreases rows,
{
    if rows > 0 {
        lemma_penalty_bounded(queens, rows - 1);
    }
}

/// With a queen in every row no row is penalised.
proof fn lemma_full_board_unpenalised(queens: Seq<Option<u8>>, rows: int)
    requires
        0 <= rows <= 8,
        missing(queens, 8) == 0,
    ensures
        penalty(queens, rows) == 0,
    decreases rows,
{
    if rows > 0 {
        lemma_full_board_unpenalised(queens, rows - 1);
        lemma_no_row_missing(queens, 8, rows - 1);
    }
}

/// If none of the first `rows` rows is missing its queen, each of them has
/// one.
proof fn lemma_no_row_missing(queens: Seq<Option<u8>>, rows: int, row: int)
    requires
        0 <= row < rows,
        missing(queens, rows) == 0,
    ensures
        queens[row] is Some,
    decreases rows,
{
    if row < rows - 1 {
        lemma_no_row_missing(queens, rows - 1, row);
    }
}

/// The estimate of a goal state is zero.
pub proof fn lemma_goal_estimate_zero(state: EightQueensState)
    requires
        state.goal(),
    ensures
        state.estimate() == 0,
{
    lemma_full_board_unpenalised(state.queens@, 8);
}

/// No two queens share a column or a diagonal.
pub open spec fn peaceful(queens: Seq<Option<u8>>) -> bool {
    forall|r1: int, r2: int|
        0 <= r1 < 8 && 0 <= r2 < 8 && r1 != r2 ==> match (#[trigger] queens[r1], #[trigger] queens[r2]) {
            (Some(c1), Some(c2)) => c1 != c2 && !on_diagonal(r1, c1 as int, r2, c2 as int),
            _ => true,
        }
}

/// A queen set onto a free square of an empty row attacks none of the queens
/// already there.
pub proof fn lemma_free_square_keeps_peace(
    before: Seq<Option<u8>>,
    after: Seq<Option<u8>>,
    row: int,
    col: int,
)
    requires
        0 <= row < 8,
        0 <= col < 8,
        peaceful(before),
        square_free(before, row, col),
        after[row] == Some(col as u8),
        forall|r: int| 0 <= r < 8 && r != row ==> after[r] == before[r],
    ensures
        peaceful(after),
{
    assert forall|r1: int, r2: int| 0 <= r1 < 8 && 0 <= r2 < 8 && r1 != r2 implies match (
        #[trigger] after[r1],
        #[trigger] after[r2],
    ) {
        (Some(c1), Some(c2)) => c1 != c2 && !on_diagonal(r1, c1 as int, r2, c2 as int),
        _ => true,
    } by {
        if r1 == row {
            assert(row_allows(before, r2, row, col));
        } else if r2 == row {
            assert(row_allows(before, r1, row, col));
        }
    }
}

/// Among queens that do not attack each other a column holds at most one,
/// and none if no row names it.
proof fn lemma_peaceful_column_load(queens: Seq<Option<u8>>, col: int, rows: int)
    requires
        peaceful(queens),
        0 <= rows <= 8,
        0 <= col < 8,
    ensures
        column_load(queens, col, rows) <= 1,
        (forall|r: int| 0 <= r < rows ==> queens[r] != Some(col as u8)) ==> column_load(
            queens,
            col,
            rows,
        ) == 0,
    decreases rows,
{
    if rows > 0 {
        lemma_peaceful_column_load(queens, col, rows - 1);
    }
}

proof fn lemma_peaceful_columns(queens: Seq<Option<u8>>, cols: int)
    requires
        peaceful(queens),
        0 <= cols <= 8,
    ensures
        column_conflicts(queens, cols) == 0,
    decreases cols,
{
    if cols > 0 {
        lemma_peaceful_columns(queens, cols - 1);
        lemma_peaceful_column_load(queens, cols - 1, 8);
    }
}

proof fn lemma_peaceful_row(queens: Seq<Option<u8>>, row1: int, upto: int)
    requires
        peaceful(queens),
        0 <= row1 < 8,
        upto <= 8,
    ensures
        clashes_with(queens, row1, upto) == 0,
    decreases upto - row1,
{
    if upto > row1 + 1 {
        lemma_peaceful_row(queens, row1, upto - 1);
    }
}

proof fn lemma_peaceful_diagonals(queens: Seq<Option<u8>>, rows: int)
    requires
        peaceful(queens),
        0 <= rows <= 8,
    ensures
        diagonal_conflicts(queens, rows) == 0,
    decreases rows,
{
    if rows > 0 {
        lemma_peaceful_diagonals(queens, rows - 1);
        lemma_peaceful_row(queens, rows - 1, 8);
    }
}

/// Queens that do not attack each other make no conflict.
pub proof fn lemma_peaceful_has_no_conflicts(queens: Seq<Option<u8>>)
    requires
        peaceful(queens),
    ensures
        conflicts(queens) == 0,
{
    lemma_peaceful_columns(queens, 8);
    lemma_peaceful_diagonals(queens, 8);
}

/// From a board on which no two queens attack each other, every placement
/// the puzzle offers leads to such a board.
pub proof fn lemma_successors_keep_peace(state: EightQueensState, k: int)
    requires
        peaceful(state.queens@),
        0 <= k < state.next_states().len(),
    ensures
        peaceful(state.next_states()[k].queens@),
{
    let row = first_empty(state.queens@, 0);
    lemma_first_empty_in_range(state.queens@, 0);
    lemma_placement_keeps_peace(state, row, 8, k);
}

/// The first empty row from `from` on lies at or after `from`.
proof fn lemma_first_empty_in_range(queens: Seq<Option<u8>>, from: int)
    requires
        0 <= from <= 8,
    ensures
        from <= first_empty(queens, from) <= 8,
    decreases 8 - from,
{
    if from < 8 && queens[from] is Some {
        lemma_first_empty_in_range(queens, from + 1);
    }
}

proof fn lemma_placement_keeps_peace(state: EightQueensState, row: int, cols: int, k: int)
    requires
        peaceful(state.queens@),
        0 <= row < 8,
        0 <= cols <= 8,
        0 <= k < placements(state, row, cols).len(),
    ensures
        peaceful(placements(state, row, cols)[k].queens@),
    decreases cols,
{
    if cols > 0 {
        if k < placements(state, row, cols - 1).len() {
            lemma_placement_keeps_peace(state, row, cols - 1, k);
        } else {
            let next = placements(state, row, cols)[k];
            lemma_free_square_keeps_peace(state.queens@, next.queens@, row, cols - 1);
        }
    }
}

/// A board with a queen in every row, no two of which attack each other, is
/// a goal.
pub proof fn lemma_peaceful_full_board_is_goal(state: EightQueensState)
    requires
        peaceful(state.queens@),
        missing(state.queens@, 8) == 0,
    ensures
        state.goal(),
{
    lemma_peaceful_has_no_conflicts(state.queens@);
}

} // verus!
