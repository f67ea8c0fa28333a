//! The three-in-a-row session: a board to set up or to play on against a
//! rule-driven opponent.

use crate::puzzles::xor_tic_tac_toe::filled;
use crate::puzzles::xor_tic_tac_toe::line_cells;
use crate::puzzles::xor_tic_tac_toe::mark_cell;
use crate::puzzles::xor_tic_tac_toe::with_cell;
use crate::puzzles::xor_tic_tac_toe::Player;
use crate::puzzles::xor_tic_tac_toe::XorTicTacToeState;
use crate::puzzles::xor_tic_tac_toe::WINNING_LINES;
use crate::random::draw_between;
use crate::session::cursor::step_cell;
use crate::session::cursor::stepped_cell;
use crate::text::decimal;
use crate::text::framed;
use rand::thread_rng;
use vstd::prelude::*;
use vstd::string::StringExecFns;

verus! {

/// The letter of a player.
pub open spec fn player_letter(player: Player) -> Seq<char> {
    match player {
        Player::X => "X"@,
        Player::O => "O"@,
    }
}

/// The letter of a player.
pub fn format_player(player: Player) -> (text: &'static str)
    ensures
        text@ == player_letter(player),
{
    match player {
        Player::X => "X",
        Player::O => "O",
    }
}

/// The empty cell of line `line` if the other two cells hold marks of
/// `player`.
pub open spec fn line_gap(cells: Seq<Option<Player>>, player: Player, line: int) -> Option<int> {
    let (a, b, c) = line_cells(line);
    if cells[a] == Some(player) && cells[b] == Some(player) && cells[c] is None {
        Some(c)
    } else if cells[a] == Some(player) && cells[b] is None && cells[c] == Some(player) {
        Some(b)
    } else if cells[a] is None && cells[b] == Some(player) && cells[c] == Some(player) {
        Some(a)
    } else {
        None
    }
}

/// The cell that completes the first line, from `from` on, of which `player`
/// holds two cells while the third is empty.
pub open spec fn winning_cell(cells: Seq<Option<Player>>, player: Player, from: int) -> Option<int>
    decreases 8 - from,
{
    if from >= 8 {
        None
    } else if line_gap(cells, player, from) is Some {
        line_gap(cells, player, from)
    } else {
        winning_cell(cells, player, from + 1)
    }
}

/// The first empty corner.
pub open spec fn free_corner(cells: Seq<Option<Player>>) -> Option<int> {
    if cells[0] is None {
        Some(0)
    } else if cells[2] is None {
        Some(2)
    } else if cells[6] is None {
        Some(6)
    } else if cells[8] is None {
        Some(8)
    } else {
        None
    }
}

/// The first empty cell from `from` on.
pub open spec fn free_cell(cells: Seq<Option<Player>>, from: int) -> Option<int>
    decreases 9 - from,
{
    if from >= 9 {
        None
    } else if cells[from] is None {
        Some(from)
    } else {
        free_cell(cells, from + 1)
    }
}

/// The move the rules pick for `player`: complete an own line, else block
/// the opponent's, else the centre, else a corner, else any empty cell.
pub open spec fn best_move(cells: Seq<Option<Player>>, player: Player) -> Option<int> {
    if winning_cell(cells, player, 0) is Some {
        winning_cell(cells, player, 0)
    } else if winning_cell(cells, player.other(), 0) is Some {
        winning_cell(cells, player.other(), 0)
    } else if cells[4] is None {
        Some(4)
    } else if free_corner(cells) is Some {
        free_corner(cells)
    } else {
        free_cell(cells, 0)
    }
}

/// The game on `state` is over: a line is owned or the board is full.
pub open spec fn locked(state: XorTicTacToeState) -> bool {
    state.won_by() is Some || filled(state.cells@, 9)
}

/// The state after `mover` has marked cell `at` and handed the turn over.
pub open spec fn after_mark(state: XorTicTacToeState, at: int, mover: Player) -> XorTicTacToeState {
    XorTicTacToeState { cells: with_cell(state.cells, at, Some(mover)), to_move: mover.other() }
}

/// The message that closes a game, where the game on `state` is over.
pub open spec fn verdict(state: XorTicTacToeState) -> Option<Seq<char>> {
    match state.won_by() {
        Some(Player::X) => Some("You win! Press R to play again."@),
        Some(Player::O) => Some("AI wins. Press R to try again."@),
        None => if filled(state.cells@, 9) {
            Some("It's a draw. Press R to restart."@)
        } else {
            None
        },
    }
}

/// `text`, unless the game on `state` is over and its verdict takes the
/// line.
pub open spec fn with_verdict(state: XorTicTacToeState, text: Seq<char>) -> Seq<char> {
    match verdict(state) {
        Some(closing) => closing,
        None => text,
    }
}

/// The cell the opponent answers with on `state`, if it is the opponent's
/// turn and the game is still on.
pub open spec fn reply(state: XorTicTacToeState) -> Option<int> {
    if state.to_move != Player::O || locked(state) {
        None
    } else {
        best_move(state.cells@, Player::O)
    }
}

/// The message that a mark was set.
pub open spec fn placed_message(player: Player, cell: int) -> Seq<char> {
    "Placed "@ + player_letter(player) + " in cell "@ + decimal((cell + 1) as nat) + "."@
}

/// The state a round leads to: the mover's mark in cell `at`, and the
/// opponent's answer where one is due.
pub open spec fn after_round(state: XorTicTacToeState, at: int, mover: Player) -> XorTicTacToeState {
    let marked = after_mark(state, at, mover);
    match reply(marked) {
        Some(answer) => after_mark(marked, answer, Player::O),
        None => marked,
    }
}

/// The cell the selection rests on after a round.
pub open spec fn cursor_after_round(state: XorTicTacToeState, at: int, mover: Player) -> int {
    match reply(after_mark(state, at, mover)) {
        Some(answer) => answer,
        None => at,
    }
}

/// The status line after a round.
pub open spec fn status_after_round(state: XorTicTacToeState, at: int, mover: Player) -> Seq<char> {
    let marked = after_mark(state, at, mover);
    match reply(marked) {
        Some(answer) => with_verdict(
            after_mark(marked, answer, Player::O),
            "AI placed O in cell "@ + decimal((answer + 1) as nat) + "."@,
        ),
        None => with_verdict(marked, placed_message(mover, at)),
    }
}

/// The number of marks of `player` among the first `upto` cells.
pub open spec fn marks_of(cells: Seq<Option<Player>>, player: Player, upto: int) -> nat
    decreases upto,
{
    if upto <= 0 {
        0
    } else {
        marks_of(cells, player, upto - 1) + if cells[upto - 1] == Some(player) {
            1nat
        } else {
            0nat
        }
    }
}

/// The number of empty cells among the first `upto` cells.
pub open spec fn gaps(cells: Seq<Option<Player>>, upto: int) -> nat
    decreases upto,
{
    if upto <= 0 {
        0
    } else {
        gaps(cells, upto - 1) + if cells[upto - 1] is None {
            1nat
        } else {
            0nat
        }
    }
}

/// The cell of the `nth` empty cell, counting from zero and from cell `from`
/// on; nine if there are not that many.
pub open spec fn nth_gap(cells: Seq<Option<Player>>, nth: int, from: int) -> int
    decreases 9 - from,
{
    if from >= 9 {
        9
    } else if cells[from] is None {
        if nth <= 0 {
            from
        } else {
            nth_gap(cells, nth - 1, from + 1)
        }
    } else {
        nth_gap(cells, nth, from + 1)
    }
}

/// The marks were set in turns starting with `X`: there are as many of `X`
/// as of `O`, or one more.
pub open spec fn taken_in_turns(cells: Seq<Option<Player>>) -> bool {
    marks_of(cells, Player::X, 9) == marks_of(cells, Player::O, 9) || marks_of(
        cells,
        Player::X,
        9,
    ) == marks_of(cells, Player::O, 9) + 1
}

/// The player to mark next on a scattered board: `X` while `O` has at least
/// as many marks.
pub open spec fn next_scattered(cells: Seq<Option<Player>>) -> Player {
    if marks_of(cells, Player::X, 9) <= marks_of(cells, Player::O, 9) {
        Player::X
    } else {
        Player::O
    }
}

/// Counts the marks of a player.
pub fn count_marks(cells: &[Option<Player>; 9], player: Player) -> (count: usize)
    ensures
        count == marks_of(cells@, player, 9),
        count <= 9,
{
    let mut count: usize = 0;
    let mut i: usize = 0;
    while i < 9
        invariant
            i <= 9,
            count == marks_of(cells@, player, i as int),
            count <= i,
        decreases 9 - i,
    {
        match cells[i] {
            Some(mark) => {
                if mark == player {
                    count += 1;
                }
            },
            None => {},
        }
        i += 1;
    }
    count
}

/// Counts the empty cells.
pub fn count_gaps(cells: &[Option<Player>; 9]) -> (count: usize)
    ensures
        count == gaps(cells@, 9),
        count <= 9,
{
    let mut count: usize = 0;
    let mut i: usize = 0;
    while i < 9
        invariant
            i <= 9,
            count == gaps(cells@, i as int),
            count <= i,
        decreases 9 - i,
    {
        if cells[i].is_none() {
            count += 1;
        }
        i += 1;
    }
    count
}

/// Sets the mark that is due on a scattered board into its `pick`-th empty
/// cell, counting from zero. A board with no more than `pick` empty cells is
/// handed back as it is.
pub fn scatter_mark(cells: &[Option<Player>; 9], pick: usize) -> (out: [Option<Player>; 9])
    ensures
        nth_gap(cells@, pick as int, 0) < 9 ==> out == with_cell(
            *cells,
            nth_gap(cells@, pick as int, 0),
            Some(next_scattered(cells@)),
        ),
        nth_gap(cells@, pick as int, 0) >= 9 ==> out == *cells,
{
    let mark = if count_marks(cells, Player::X) <= count_marks(cells, Player::O) {
        Player::X
    } else {
        Player::O
    };
    let mut left = pick;
    let mut i: usize = 0;
    while i < 9
        invariant
            i <= 9,
            nth_gap(cells@, pick as int, 0) == nth_gap(cells@, left as int, i as int),
            mark == next_scattered(cells@),
        decreases 9 - i,
    {
        if cells[i].is_none() {
            if left == 0 {
                return mark_cell(cells, i, Some(mark));
            }
            left -= 1;
        }
        i += 1;
    }
    *cells
}

/// The state of the three-in-a-row screen.
#[derive(Debug)]
pub struct XorTicTacToeSession {
    pub state: XorTicTacToeState,
    pub cursor: usize,
    pub status: String,
    pub human_symbol: Player,
    pub setup_mode: bool,
}

impl Default for XorTicTacToeSession {
    fn default() -> (session: Self)
        ensures
            session.wf(),
            forall|i: int| 0 <= i < 9 ==> session.state.cells[i] is None,
            session.state.to_move == Player::X,
            session.cursor == 4,
            session.status@ == XorTicTacToeSession::base_status_text(),
            session.human_symbol == Player::X,
            !session.setup_mode,
    {
        Self {
            state: XorTicTacToeState::default(),
            cursor: 4,
            status: Self::base_status(),
            human_symbol: Player::X,
            setup_mode: false,
        }
    }
}

impl XorTicTacToeSession {
    /// The selection is a cell of the board.
    pub open spec fn wf(&self) -> bool {
        self.cursor < 9
    }

    /// The status line of a fresh session.
    pub open spec fn base_status_text() -> Seq<char> {
        "Arrows move cursor, X/O place pieces, Tab setup mode, H shuffle, S auto-move, R restart."@
    }

    /// The status line of a fresh session.
    pub fn base_status() -> (text: String)
        ensures
            text@ == Self::base_status_text(),
    {
        String::from_str(
            "Arrows move cursor, X/O place pieces, Tab setup mode, H shuffle, S auto-move, R restart.",
        )
    }

    /// Clears the board and leaves setup.
    pub fn reset(&mut self)
        ensures
            final(self).wf(),
            forall|i: int| 0 <= i < 9 ==> final(self).state.cells[i] is None,
            final(self).state.to_move == Player::X,
            final(self).cursor == 4,
            !final(self).setup_mode,
            final(self).status@ == Self::base_status_text(),
            final(self).human_symbol == old(self).human_symbol,
    {
        self.state = XorTicTacToeState::default();
        self.cursor = 4;
        self.setup_mode = false;
        self.status = Self::base_status();
    }

    /// Switches between setting the board up and playing on it.
    pub fn toggle_setup_mode(&mut self)
        ensures
            final(self).setup_mode == !old(self).setup_mode,
            final(self).status@ == if final(self).setup_mode {
                "Setup mode: Place X/O manually. Tab to exit setup."@
            } else {
                "Game mode: Playing against AI. Tab to enter setup."@
            },
            final(self).state == old(self).state,
            final(self).cursor == old(self).cursor,
            final(self).human_symbol == old(self).human_symbol,
    {
        self.setup_mode = !self.setup_mode;
        if self.setup_mode {
            self.status = String::from_str("Setup mode: Place X/O manually. Tab to exit setup.");
        } else {
            self.status = String::from_str("Game mode: Playing against AI. Tab to enter setup.");
        }
    }

    /// Replaces the board by `cells`, with the turn going to whoever is due
    /// on a scattered board.
    pub fn load_scattered(&mut self, cells: [Option<Player>; 9])
        ensures
            final(self).wf(),
            final(self).state.cells == cells,
            final(self).state.to_move == next_scattered(cells@),
            final(self).cursor == 4,
            final(self).status@ == "Board shuffled randomly."@,
            final(self).human_symbol == old(self).human_symbol,
            final(self).setup_mode == old(self).setup_mode,
    {
        let to_move = if count_marks(&cells, Player::X) <= count_marks(&cells, Player::O) {
            Player::X
        } else {
            Player::O
        };
        self.state = XorTicTacToeState { cells, to_move };
        self.cursor = 4;
        self.status = String::from_str("Board shuffled randomly.");
    }

    /// Replaces the board by one with up to four marks scattered at random,
    /// set in turns starting with `X`.
    pub fn shuffle(&mut self)
        ensures
            final(self).wf(),
            gaps(final(self).state.cells@, 9) >= 5,
            taken_in_turns(final(self).state.cells@),
            final(self).state.to_move == next_scattered(final(self).state.cells@),
            final(self).cursor == 4,
            final(self).status@ == "Board shuffled randomly."@,
            final(self).human_symbol == old(self).human_symbol,
            final(self).setup_mode == old(self).setup_mode,
    {
        let mut rng = thread_rng();
        let mut cells: [Option<Player>; 9] = [None;9];
        let total_pieces = draw_between(&mut rng, 0, 4);
        proof {
            lemma_gaps_of_empty(cells@, 9);
            lemma_marks_of_empty(cells@, Player::X, 9);
            lemma_marks_of_empty(cells@, Player::O, 9);
        }
        let mut placed: usize = 0;
        while placed < total_pieces
            invariant
                placed <= total_pieces <= 4,
                gaps(cells@, 9) >= 9 - placed,
                taken_in_turns(cells@),
            decreases total_pieces - placed,
        {
            let empty_cells = count_gaps(&cells);
            if empty_cells > 0 {
                let pick = draw_between(&mut rng, 0, empty_cells - 1);
                let ghost before = cells;
                cells = scatter_mark(&cells, pick);
                proof {
                    lemma_nth_gap_in_range(before@, pick as int, 0);
                    lemma_scatter_fills_one(before@, cells@, pick as int);
                    lemma_scatter_takes_turns(before@, cells@, pick as int);
                }
            }
            placed += 1;
        }
        self.load_scattered(cells);
    }

    /// Sets or removes a mark of `player` in the selected cell. During setup
    /// any mark goes anywhere and a mark set twice is taken off; in a game
    /// only the human's mark goes, on the human's turn, into an empty cell,
    /// and the opponent answers.
    pub fn place_manual(&mut self, player: Player) -> (placed: bool)
        requires
            old(self).wf(),
        ensures
            final(self).wf(),
            final(self).human_symbol == old(self).human_symbol,
            final(self).setup_mode == old(self).setup_mode,
            old(self).setup_mode ==> {
                &&& placed
                &&& final(self).cursor == old(self).cursor
                &&& final(self).state.to_move == old(self).state.to_move
                &&& old(self).state.cells[old(self).cursor as int] == Some(player) ==> {
                    &&& final(self).state.cells == with_cell(
                        old(self).state.cells,
                        old(self).cursor as int,
                        None,
                    )
                    &&& final(self).status@ == "Removed "@ + player_letter(player)
                        + " from cell "@ + decimal((old(self).cursor + 1) as nat) + "."@
                }
                &&& old(self).state.cells[old(self).cursor as int] != Some(player) ==> {
                    &&& final(self).state.cells == with_cell(
                        old(self).state.cells,
                        old(self).cursor as int,
                        Some(player),
                    )
                    &&& final(self).status@ == placed_message(player, old(self).cursor as int)
                }
            },
            !old(self).setup_mode ==> {
                &&& placed == (!locked(old(self).state) && old(self).state.to_move
                    == old(self).human_symbol && player == old(self).human_symbol
                    && old(self).state.cells[old(self).cursor as int] is None)
                &&& placed ==> {
                    &&& final(self).state == after_round(
                        old(self).state,
                        old(self).cursor as int,
                        old(self).human_symbol,
                    )
                    &&& final(self).cursor == cursor_after_round(
                        old(self).state,
                        old(self).cursor as int,
                        old(self).human_symbol,
                    )
                    &&& final(self).status@ == status_after_round(
                        old(self).state,
                        old(self).cursor as int,
                        old(self).human_symbol,
                    )
                }
                &&& !placed ==> {
                    &&& final(self).state == old(self).state
                    &&& final(self).cursor == old(self).cursor
                    &&& final(self).status@ == if locked(old(self).state) {
                        "Game over. Press R to restart."@
                    } else if old(self).state.to_move != old(self).human_symbol {
                        "Wait for the AI to finish its move."@
                    } else if player != old(self).human_symbol {
                        "You are playing as "@ + player_letter(old(self).human_symbol) + "."@
                    } else {
                        "Cell "@ + decimal((old(self).cursor + 1) as nat)
                            + " is already occupied."@
                    }
                }
            },
    {
        if self.setup_mode {
            let here = self.state.cells[self.cursor];
            let same = match here {
                Some(mark) => mark == player,
                None => false,
            };
            if same {
                self.state.cells = mark_cell(&self.state.cells, self.cursor, None);
                let mut text = String::from_str("Removed ");
                text.append(format_player(player));
                text.append(" from cell ");
                crate::text::push_decimal(&mut text, self.cursor as u64 + 1);
                text.append(".");
                self.status = text;
                return true;
            }
            self.state.cells = mark_cell(&self.state.cells, self.cursor, Some(player));
            self.status = Self::placed_text(player, self.cursor);
            true
        } else {
            if self.is_locked() {
                self.status = String::from_str("Game over. Press R to restart.");
                return false;
            }
            if self.state.to_move != self.human_symbol {
                self.status = String::from_str("Wait for the AI to finish its move.");
                return false;
            }
            if player != self.human_symbol {
                let mut text = String::from_str("You are playing as ");
                text.append(format_player(self.human_symbol));
                text.append(".");
                self.status = text;
                return false;
            }
            if self.state.cells[self.cursor].is_some() {
                self.status = framed("Cell ", self.cursor as u64 + 1, " is already occupied.");
                return false;
            }
            self.play_round(self.cursor);
            true
        }
    }

    /// The message that a mark was set.
    fn placed_text(player: Player, cell: usize) -> (text: String)
        requires
            cell < 9,
        ensures
            text@ == placed_message(player, cell as int),
    {
        let mut text = String::from_str("Placed ");
        text.append(format_player(player));
        text.append(" in cell ");
        crate::text::push_decimal(&mut text, cell as u64 + 1);
        text.append(".");
        text
    }

    /// Sets the human's mark into cell `index`, then lets the opponent
    /// answer where an answer is due.
    fn play_round(&mut self, index: usize)
        requires
            index < 9,
        ensures
            final(self).wf(),
            final(self).human_symbol == old(self).human_symbol,
            final(self).setup_mode == old(self).setup_mode,
            final(self).state == after_round(old(self).state, index as int, old(self).human_symbol),
            final(self).cursor == cursor_after_round(
                old(self).state,
                index as int,
                old(self).human_symbol,
            ),
            final(self).status@ == status_after_round(
                old(self).state,
                index as int,
                old(self).human_symbol,
            ),
    {
        self.state = XorTicTacToeState {
            cells: mark_cell(&self.state.cells, index, Some(self.human_symbol)),
            to_move: self.human_symbol.opponent(),
        };
        self.cursor = index;
        self.status = Self::placed_text(self.human_symbol, index);
        self.update_outcome();
        if !self.is_locked() {
            self.ai_auto_move();
        }
    }

    /// Moves the selection, holding it within the board.
    pub fn move_cursor(&mut self, row_delta: isize, col_delta: isize)
        ensures
            final(self).wf(),
            final(self).cursor == stepped_cell(
                old(self).cursor as int,
                row_delta as int,
                col_delta as int,
            ),
            final(self).state == old(self).state,
            final(self).status == old(self).status,
            final(self).human_symbol == old(self).human_symbol,
            final(self).setup_mode == old(self).setup_mode,
    {
        self.cursor = step_cell(self.cursor, row_delta, col_delta);
    }

    /// Selects cell `index` and marks it; an index off the board does
    /// nothing.
    pub fn quick_place(&mut self, index: usize) -> (placed: bool)
        ensures
            old(self).wf() ==> final(self).wf(),
            index >= 9 ==> !placed && *final(self) == *old(self),
            index < 9 ==> Self::cell_placed(*old(self), index as int, *final(self), placed),
    {
        if index < 9 {
            self.cursor = index;
            return self.place_cell(index);
        }
        false
    }

    /// Marks the selected cell.
    pub fn place_cursor(&mut self) -> (placed: bool)
        ensures
            old(self).wf() ==> final(self).wf(),
            old(self).cursor >= 9 ==> !placed && *final(self) == *old(self),
            old(self).cursor < 9 ==> Self::cell_placed(
                *old(self),
                old(self).cursor as int,
                *final(self),
                placed,
            ),
    {
        self.place_cell(self.cursor)
    }

    /// What marking cell `index` makes of a session: during setup the cell
    /// steps from empty to `X` to `O` and back to empty; in a game the human's
    /// mark goes into an empty cell on the human's turn, and the opponent
    /// answers.
    pub open spec fn cell_placed(before: Self, index: int, after: Self, placed: bool) -> bool {
        &&& after.human_symbol == before.human_symbol
        &&& after.setup_mode == before.setup_mode
        &&& before.setup_mode ==> {
            &&& placed
            &&& after.cursor == index
            &&& after.state.to_move == before.state.to_move
            &&& after.state.cells == with_cell(
                before.state.cells,
                index,
                match before.state.cells[index] {
                    None => Some(Player::X),
                    Some(Player::X) => Some(Player::O),
                    Some(Player::O) => None,
                },
            )
            &&& after.status@ == match before.state.cells[index] {
                None => "Placed X in cell "@ + decimal((index + 1) as nat) + "."@,
                Some(Player::X) => "Changed to O in cell "@ + decimal((index + 1) as nat) + "."@,
                Some(Player::O) => "Cleared cell "@ + decimal((index + 1) as nat) + "."@,
            }
        }
        &&& !before.setup_mode ==> {
            &&& placed == (!locked(before.state) && before.state.to_move == before.human_symbol
                && before.state.cells[index] is None)
            &&& placed ==> {
                &&& after.state == after_round(before.state, index, before.human_symbol)
                &&& after.cursor == cursor_after_round(before.state, index, before.human_symbol)
                &&& after.status@ == status_after_round(before.state, index, before.human_symbol)
            }
            &&& !placed ==> {
                &&& after.state == before.state
                &&& after.cursor == index
                &&& after.status@ == if locked(before.state) {
                    "Game over. Press R to restart."@
                } else if before.state.to_move != before.human_symbol {
                    "Wait for the AI to finish its move."@
                } else {
                    "Cell "@ + decimal((index + 1) as nat) + " is already occupied."@
                }
            }
        }
    }

    /// Selects cell `index` and marks it; an index off the board does
    /// nothing.
    pub fn place_cell(&mut self, index: usize) -> (placed: bool)
        ensures
            index < 9 ==> final(self).wf(),
            index >= 9 ==> !placed && *final(self) == *old(self),
            index < 9 ==> Self::cell_placed(*old(self), index as int, *final(self), placed),
    {
        if index >= 9 {
            return false;
        }
        self.cursor = index;
        if self.setup_mode {
            match self.state.cells[index] {
                None => {
                    self.state.cells = mark_cell(&self.state.cells, index, Some(Player::X));
                    self.status = framed("Placed X in cell ", index as u64 + 1, ".");
                },
                Some(Player::X) => {
                    self.state.cells = mark_cell(&self.state.cells, index, Some(Player::O));
                    self.status = framed("Changed to O in cell ", index as u64 + 1, ".");
                },
                Some(Player::O) => {
                    self.state.cells = mark_cell(&self.state.cells, index, None);
                    self.status = framed("Cleared cell ", index as u64 + 1, ".");
                },
            }
            return true;
        }
        if self.is_locked() {
            self.status = String::from_str("Game over. Press R to restart.");
            return false;
        }
        if self.state.to_move != self.human_symbol {
            self.status = String::from_str("Wait for the AI to finish its move.");
            return false;
        }
        if self.state.cells[index].is_some() {
            self.status = framed("Cell ", index as u64 + 1, " is already occupied.");
            return false;
        }
        self.play_round(index);
        true
    }

    /// What asking for the picked move makes of a session: off the human's
    /// turn and after the game nothing but a message; otherwise the cell the
    /// rules pick is marked.
    pub open spec fn auto_moved(before: Self, after: Self, moved: bool) -> bool {
        &&& after.human_symbol == before.human_symbol
        &&& after.setup_mode == before.setup_mode
        &&& before.state.to_move != before.human_symbol ==> {
            &&& !moved
            &&& after.state == before.state
            &&& after.cursor == before.cursor
            &&& after.status@ == "It's not your turn."@
        }
        &&& before.state.to_move == before.human_symbol && locked(before.state) ==> {
            &&& !moved
            &&& after.state == before.state
            &&& after.cursor == before.cursor
            &&& after.status@ == "Game over. Press R to restart."@
        }
        &&& before.state.to_move == before.human_symbol && !locked(before.state) ==> match best_move(
            before.state.cells@,
            before.human_symbol,
        ) {
            Some(index) => 0 <= index < 9 && Self::cell_placed(before, index, after, moved),
            None => {
                &&& !moved
                &&& after.state == before.state
                &&& after.cursor == before.cursor
                &&& after.status@ == "No legal moves available."@
            },
        }
    }

    /// Makes the move the rules pick for the human, on the human's turn.
    pub fn auto_player_move(&mut self) -> (moved: bool)
        ensures
            old(self).wf() ==> final(self).wf(),
            Self::auto_moved(*old(self), *final(self), moved),
    {
        if self.state.to_move != self.human_symbol {
            self.status = String::from_str("It's not your turn.");
            return false;
        }
        if self.is_locked() {
            self.status = String::from_str("Game over. Press R to restart.");
            return false;
        }
        match self.pick_best_move(self.human_symbol) {
            Some(index) => self.place_cell(index),
            None => {
                self.status = String::from_str("No legal moves available.");
                false
            },
        }
    }

    /// Makes the move the rules pick for the human; during setup the
    /// request is turned down.
    pub fn request_auto_move(&mut self) -> (moved: bool)
        ensures
            old(self).wf() ==> final(self).wf(),
            final(self).human_symbol == old(self).human_symbol,
            final(self).setup_mode == old(self).setup_mode,
            old(self).setup_mode ==> {
                &&& !moved
                &&& final(self).state == old(self).state
                &&& final(self).cursor == old(self).cursor
                &&& final(self).status@ == "Exit setup mode (Tab) to use auto-move."@
            },
            !old(self).setup_mode ==> Self::auto_moved(*old(self), *final(self), moved),
    {
        if self.setup_mode {
            self.status = String::from_str("Exit setup mode (Tab) to use auto-move.");
            false
        } else {
            self.auto_player_move()
        }
    }

    /// Whether the game is over.
    pub fn is_locked(&self) -> (over: bool)
        ensures
            over == locked(self.state),
    {
        self.state.winner().is_some() || self.state.is_full()
    }

    /// Words the verdict where the game is over.
    pub fn update_outcome(&mut self)
        ensures
            final(self).status@ == with_verdict(old(self).state, old(self).status@),
            final(self).state == old(self).state,
            final(self).cursor == old(self).cursor,
            final(self).human_symbol == old(self).human_symbol,
            final(self).setup_mode == old(self).setup_mode,
    {
        match self.state.winner() {
            Some(Player::X) => {
                self.status = String::from_str("You win! Press R to play again.");
            },
            Some(Player::O) => {
                self.status = String::from_str("AI wins. Press R to try again.");
            },
            None => {
                if self.state.is_full() {
                    self.status = String::from_str("It's a draw. Press R to restart.");
                }
            },
        }
    }

    /// Lets the opponent answer, where it is the opponent's turn and the game
    /// is still on.
    pub fn ai_auto_move(&mut self)
        ensures
            final(self).human_symbol == old(self).human_symbol,
            final(self).setup_mode == old(self).setup_mode,
            match reply(old(self).state) {
                Some(answer) => {
                    &&& 0 <= answer < 9
                    &&& final(self).state == after_mark(old(self).state, answer, Player::O)
                    &&& final(self).cursor == answer
                    &&& final(self).status@ == with_verdict(
                        after_mark(old(self).state, answer, Player::O),
                        "AI placed O in cell "@ + decimal((answer + 1) as nat) + "."@,
                    )
                },
                None => {
                    &&& final(self).state == old(self).state
                    &&& final(self).cursor == old(self).cursor
                    &&& final(self).status == old(self).status
                },
            },
    {
        if self.state.to_move != Player::O || self.is_locked() {
            return ;
        }
        match self.pick_best_move(Player::O) {
            Some(index) => {
                self.state = XorTicTacToeState {
                    cells: mark_cell(&self.state.cells, index, Some(Player::O)),
                    to_move: Player::X,
                };
                self.cursor = index;
                self.status = framed("AI placed O in cell ", index as u64 + 1, ".");
                self.update_outcome();
            },
            None => {},
        }
    }

    /// The move the rules pick for `player`.
    pub fn pick_best_move(&self, player: Player) -> (choice: Option<usize>)
        ensures
            match choice {
                Some(index) => index < 9 && best_move(self.state.cells@, player) == Some(
                    index as int,
                ),
                None => best_move(self.state.cells@, player) is None,
            },
    {
        match self.find_winning_move(player) {
            Some(index) => {
                return Some(index);
            },
            None => {},
        }
        match self.find_winning_move(player.opponent()) {
            Some(index) => {
                return Some(index);
            },
            None => {},
        }
        if self.state.cells[4].is_none() {
            return Some(4);
        }
        if self.state.cells[0].is_none() {
            return Some(0);
        }
        if self.state.cells[2].is_none() {
            return Some(2);
        }
        if self.state.cells[6].is_none() {
            return Some(6);
        }
        if self.state.cells[8].is_none() {
            return Some(8);
        }
        let mut idx: usize = 0;
        while idx < 9
            invariant
                idx <= 9,
                best_move(self.state.cells@, player) == free_cell(self.state.cells@, 0),
                free_cell(self.state.cells@, 0) == free_cell(self.state.cells@, idx as int),
            decreases 9 - idx,
        {
            if self.state.cells[idx].is_none() {
                return Some(idx);
            }
            idx += 1;
        }
        None
    }

    /// The cell that completes a line for `player`, if there is one.
    pub fn find_winning_move(&self, player: Player) -> (choice: Option<usize>)
        ensures
            match choice {
                Some(index) => index < 9 && winning_cell(self.state.cells@, player, 0) == Some(
                    index as int,
                ),
                None => winning_cell(self.state.cells@, player, 0) is None,
            },
    {
        let mut line: usize = 0;
        while line < 8
            invariant
                line <= 8,
                winning_cell(self.state.cells@, player, 0) == winning_cell(
                    self.state.cells@,
                    player,
                    line as int,
                ),
            decreases 8 - line,
        {
            let cells = WINNING_LINES[line];
            let mut player_marks: u8 = 0;
            let mut empty_spot: Option<usize> = None;
            let mut at: usize = 0;
            while at < 3
                invariant
                    at <= 3,
                    line < 8,
                    cells == WINNING_LINES[line as int],
                    player_marks == marks_in(self.state.cells@, player, cells@, at as int),
                    empty_spot == last_gap_in(self.state.cells@, cells@, at as int),
                    player_marks <= at,
                decreases 3 - at,
            {
                let idx = cells[at];
                match self.state.cells[idx] {
                    Some(mark) => {
                        if mark == player {
                            player_marks += 1;
                        }
                    },
                    None => {
                        empty_spot = Some(idx);
                    },
                }
                at += 1;
            }
            proof {
                reveal_with_fuel(marks_in, 4);
                reveal_with_fuel(last_gap_in, 4);
            }
            if player_marks == 2 {
                match empty_spot {
                    Some(idx) => {
                        return Some(idx);
                    },
                    None => {},
                }
            }
            line += 1;
        }
        None
    }
}

/// The number of marks of `player` among the first `upto` cells of a line.
pub open spec fn marks_in(
    cells: Seq<Option<Player>>,
    player: Player,
    line: Seq<usize>,
    upto: int,
) -> nat
    decreases upto,
{
    if upto <= 0 {
        0
    } else {
        marks_in(cells, player, line, upto - 1) + if cells[line[upto - 1] as int] == Some(player) {
            1nat
        } else {
            0nat
        }
    }
}

/// The last empty cell among the first `upto` cells of a line.
pub open spec fn last_gap_in(cells: Seq<Option<Player>>, line: Seq<usize>, upto: int) -> Option<
    usize,
>
    decreases upto,
{
    if upto <= 0 {
        None
    } else if cells[line[upto - 1] as int] is None {
        Some(line[upto - 1])
    } else {
        last_gap_in(cells, line, upto - 1)
    }
}

/// A board without marks has nothing but empty cells.
proof fn lemma_gaps_of_empty(cells: Seq<Option<Player>>, upto: int)
    requires
        0 <= upto <= 9,
        forall|i: int| 0 <= i < 9 ==> cells[i] is None,
    ensures
        gaps(cells, upto) == upto,
    decreases upto,
{
    if upto > 0 {
        lemma_gaps_of_empty(cells, upto - 1);
    }
}

/// Setting one mark fills at most one empty cell.
proof fn lemma_scatter_fills_one(
    before: Seq<Option<Player>>,
    after: Seq<Option<Player>>,
    pick: int,
)
    requires
        before.len() == 9,
        after.len() == 9,
        nth_gap(before, pick, 0) < 9 ==> forall|i: int|
            0 <= i < 9 && i != nth_gap(before, pick, 0) ==> after[i] == before[i],
        nth_gap(before, pick, 0) >= 9 ==> after == before,
    ensures
        gaps(after, 9) + 1 >= gaps(before, 9),
{
    if nth_gap(before, pick, 0) < 9 {
        lemma_one_cell_changed(before, after, nth_gap(before, pick, 0), 9);
    }
}

proof fn lemma_nth_gap_in_range(cells: Seq<Option<Player>>, nth: int, from: int)
    requires
        0 <= from <= 9,
    ensures
        from <= nth_gap(cells, nth, from),
    decreases 9 - from,
{
    if from < 9 {
        if cells[from] is None {
            if nth > 0 {
                lemma_nth_gap_in_range(cells, nth - 1, from + 1);
            }
        } else {
            lemma_nth_gap_in_range(cells, nth, from + 1);
        }
    }
}

proof fn lemma_one_cell_changed(
    before: Seq<Option<Player>>,
    after: Seq<Option<Player>>,
    at: int,
    upto: int,
)
    requires
        0 <= upto <= 9,
        before.len() == 9,
        after.len() == 9,
        forall|i: int| 0 <= i < 9 && i != at ==> after[i] == before[i],
    ensures
        gaps(after, upto) + 1 >= gaps(before, upto),
        at >= upto ==> gaps(after, upto) == gaps(before, upto),
    decreases upto,
{
    if upto > 0 {
        lemma_one_cell_changed(before, after, at, upto - 1);
    }
}

/// A board without marks holds no mark of either player.
proof fn lemma_marks_of_empty(cells: Seq<Option<Player>>, player: Player, upto: int)
    requires
        0 <= upto <= 9,
        forall|i: int| 0 <= i < 9 ==> cells[i] is None,
    ensures
        marks_of(cells, player, upto) == 0,
    decreases upto,
{
    if upto > 0 {
        lemma_marks_of_empty(cells, player, upto - 1);
    }
}

/// The `nth` empty cell, where there is one, is empty.
proof fn lemma_nth_gap_is_empty(cells: Seq<Option<Player>>, nth: int, from: int)
    requires
        0 <= from <= 9,
        nth_gap(cells, nth, from) < 9,
    ensures
        cells[nth_gap(cells, nth, from)] is None,
    decreases 9 - from,
{
    if from < 9 {
        if cells[from] is None {
            if nth > 0 {
                lemma_nth_gap_is_empty(cells, nth - 1, from + 1);
            }
        } else {
            lemma_nth_gap_is_empty(cells, nth, from + 1);
        }
    }
}

/// A mark set into an empty cell adds one to the marks of its player and
/// none to the other's.
proof fn lemma_mark_counted(
    before: Seq<Option<Player>>,
    after: Seq<Option<Player>>,
    at: int,
    mark: Player,
    player: Player,
    upto: int,
)
    requires
        0 <= upto <= 9,
        0 <= at < 9,
        before[at] is None,
        after[at] == Some(mark),
        forall|i: int| 0 <= i < 9 && i != at ==> after[i] == before[i],
    ensures
        marks_of(after, player, upto) == marks_of(before, player, upto) + if at < upto && player
            == mark {
            1int
        } else {
            0int
        },
    decreases upto,
{
    if upto > 0 {
        lemma_mark_counted(before, after, at, mark, player, upto - 1);
    }
}

/// Setting the mark that is due keeps the marks in turns.
proof fn lemma_scatter_takes_turns(
    before: Seq<Option<Player>>,
    after: Seq<Option<Player>>,
    pick: int,
)
    requires
        before.len() == 9,
        after.len() == 9,
        taken_in_turns(before),
        nth_gap(before, pick, 0) < 9 ==> {
            &&& after[nth_gap(before, pick, 0)] == Some(next_scattered(before))
            &&& forall|i: int|
                0 <= i < 9 && i != nth_gap(before, pick, 0) ==> after[i] == before[i]
        },
        nth_gap(before, pick, 0) >= 9 ==> after == before,
    ensures
        taken_in_turns(after),
{
    let at = nth_gap(before, pick, 0);
    if at < 9 {
        lemma_nth_gap_in_range(before, pick, 0);
        lemma_nth_gap_is_empty(before, pick, 0);
        lemma_mark_counted(before, after, at, next_scattered(before), Player::X, 9);
        lemma_mark_counted(before, after, at, next_scattered(before), Player::O, 9);
    }
}

} // verus!
