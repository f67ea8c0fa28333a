//! What a key press does: on the menu, and in each of the puzzles.

use crate::puzzles::xor_tic_tac_toe::Player;
use crate::session::app::App;
use crate::session::app::AppRoute;
use vstd::prelude::*;

verus! {

/// A key press, as far as the suite tells keys apart.
#[derive(Debug, Clone, Copy, PartialEq, Eq, Structural)]
pub enum Key {
    Char(char),
    Up,
    Down,
    Left,
    Right,
    Enter,
    Tab,
    Esc,
    Other,
}

/// The entry of the menu that is highlighted.
#[derive(Debug, Clone, Copy, PartialEq, Eq, Structural, Default)]
pub struct MenuState {
    pub selected: usize,
}

/// The value of a decimal digit.
pub open spec fn digit_of(ch: char) -> Option<u8> {
    if ch == '0' {
        Some(0)
    } else if ch == '1' {
        Some(1)
    } else if ch == '2' {
        Some(2)
    } else if ch == '3' {
        Some(3)
    } else if ch == '4' {
        Some(4)
    } else if ch == '5' {
        Some(5)
    } else if ch == '6' {
        Some(6)
    } else if ch == '7' {
        Some(7)
    } else if ch == '8' {
        Some(8)
    } else if ch == '9' {
        Some(9)
    } else {
        None
    }
}

/// The value of a decimal digit; `None` for any other character.
pub fn digit_value(ch: char) -> (value: Option<u8>)
    ensures
        value == digit_of(ch),
{
    if ch == '0' {
        Some(0)
    } else if ch == '1' {
        Some(1)
    } else if ch == '2' {
        Some(2)
    } else if ch == '3' {
        Some(3)
    } else if ch == '4' {
        Some(4)
    } else if ch == '5' {
        Some(5)
    } else if ch == '6' {
        Some(6)
    } else if ch == '7' {
        Some(7)
    } else if ch == '8' {
        Some(8)
    } else if ch == '9' {
        Some(9)
    } else {
        None
    }
}

/// The cell a digit key stands for: `1` to `9` for the cells in reading
/// order.
pub fn digit_to_index(ch: char) -> (index: Option<usize>)
    ensures
        index == match digit_of(ch) {
            Some(d) => if d >= 1 {
                Some((d - 1) as usize)
            } else {
                None
            },
            None => None,
        },
{
    match digit_value(ch) {
        Some(d) => if d >= 1 {
            Some((d - 1) as usize)
        } else {
            None
        },
        None => None,
    }
}

/// The key is the letter `lower`, in either case.
pub open spec fn is_letter(key: Key, lower: char, upper: char) -> bool {
    key == Key::Char(lower) || key == Key::Char(upper)
}

/// Whether the key is the letter `lower`, in either case.
pub fn letter(key: Key, lower: char, upper: char) -> (hit: bool)
    ensures
        hit == is_letter(key, lower, upper),
{
    match key {
        Key::Char(ch) => ch == lower || ch == upper,
        _ => false,
    }
}

/// The step a key asks the selection to take, as rows and columns: the
/// arrow keys, or `w`, `j`, `a`, `d` in either case.
pub open spec fn step_of(key: Key) -> Option<(int, int)> {
    if key == Key::Up || is_letter(key, 'w', 'W') {
        Some((-1, 0))
    } else if key == Key::Down || is_letter(key, 'j', 'J') {
        Some((1, 0))
    } else if key == Key::Left || is_letter(key, 'a', 'A') {
        Some((0, -1))
    } else if key == Key::Right || is_letter(key, 'd', 'D') {
        Some((0, 1))
    } else {
        None
    }
}

/// The step a key asks the selection to take.
pub fn step_for(key: Key) -> (step: Option<(isize, isize)>)
    ensures
        match step {
            Some((rows, cols)) => step_of(key) == Some((rows as int, cols as int)),
            None => step_of(key) is None,
        },
{
    if key == Key::Up || letter(key, 'w', 'W') {
        Some((-1, 0))
    } else if key == Key::Down || letter(key, 'j', 'J') {
        Some((1, 0))
    } else if key == Key::Left || letter(key, 'a', 'A') {
        Some((0, -1))
    } else if key == Key::Right || letter(key, 'd', 'D') {
        Some((0, 1))
    } else {
        None
    }
}

/// The key asks for the next step of a replay.
pub open spec fn is_advance(key: Key) -> bool {
    key == Key::Char(' ') || key == Key::Enter
}

/// The menu after a key press: `q` quits, the arrows move the highlight
/// within the list, Enter opens the highlighted entry, and a digit opens the
/// entry of that number.
pub fn handle_main_menu_input(key: Key, app: &mut App, menu_state: &mut MenuState)
    ensures
        final(app).registry == old(app).registry,
        final(app).eight_puzzle == old(app).eight_puzzle,
        final(app).xor_ttt == old(app).xor_ttt,
        final(app).missionaries_cannibals == old(app).missionaries_cannibals,
        final(app).eight_queens == old(app).eight_queens,
        final(menu_state).selected == menu_after(key, *old(app), old(menu_state).selected),
        final(app).route == route_after(key, *old(app), old(menu_state).selected),
{
    let entries = app.registry.descriptors.len();
    if letter(key, 'q', 'Q') {
        app.request_quit();
        return ;
    }
    match key {
        Key::Up => {
            if menu_state.selected > 0 {
                menu_state.selected -= 1;
            }
        },
        Key::Down => {
            if menu_state.selected < entries && menu_state.selected + 1 < entries {
                menu_state.selected += 1;
            }
        },
        Key::Enter => {
            if menu_state.selected < entries {
                let id = app.registry.descriptors[menu_state.selected].id;
                app.select_puzzle(id);
            }
        },
        Key::Char(digit) => {
            match digit_to_index(digit) {
                Some(idx) => {
                    if idx < entries {
                        menu_state.selected = idx;
                        let id = app.registry.descriptors[idx].id;
                        app.select_puzzle(id);
                    }
                },
                None => {},
            }
        },
        _ => {},
    }
}

/// The entry a digit key opens on the menu of `app`, if there is one.
pub open spec fn opened_by(key: Key, app: App) -> Option<int> {
    match key {
        Key::Char(ch) => match digit_of(ch) {
            Some(d) => if 1 <= d && d - 1 < app.registry.descriptors@.len() {
                Some(d - 1)
            } else {
                None
            },
            None => None,
        },
        _ => None,
    }
}

/// The highlighted entry after a key press on the menu.
pub open spec fn menu_after(key: Key, app: App, selected: usize) -> usize {
    if is_letter(key, 'q', 'Q') {
        selected
    } else if key == Key::Up {
        if selected > 0 {
            (selected - 1) as usize
        } else {
            selected
        }
    } else if key == Key::Down {
        if selected + 1 < app.registry.descriptors@.len() {
            (selected + 1) as usize
        } else {
            selected
        }
    } else {
        match opened_by(key, app) {
            Some(idx) => idx as usize,
            None => selected,
        }
    }
}

/// The screen after a key press on the menu.
pub open spec fn route_after(key: Key, app: App, selected: usize) -> AppRoute {
    if is_letter(key, 'q', 'Q') {
        AppRoute::Quit
    } else if key == Key::Enter {
        if selected < app.registry.descriptors@.len() {
            AppRoute::Puzzle(app.registry.descriptors@[selected as int].id)
        } else {
            app.route
        }
    } else {
        match opened_by(key, app) {
            Some(idx) => AppRoute::Puzzle(app.registry.descriptors@[idx].id),
            None => app.route,
        }
    }
}

/// What a key asks of whichever puzzle is shown.
#[derive(Debug, Clone, Copy, PartialEq, Eq, Structural)]
pub enum ShellCommand {
    /// Go back to the menu.
    Back,
    /// End the program.
    Quit,
}

/// What a key asks of the sliding-tile session.
#[derive(Debug, Clone, Copy, PartialEq, Eq, Structural)]
pub enum EightPuzzleCommand {
    ToggleBoards,
    Reset,
    NewBoard,
    Shuffle,
    Solve,
    Advance,
    /// Move the selection by rows and columns.
    Step(isize, isize),
    /// Put a number, one to eight, into the selected cell.
    Place(u8),
}

/// What a key asks of the three-in-a-row session.
#[derive(Debug, Clone, Copy, PartialEq, Eq, Structural)]
pub enum XorTicTacToeCommand {
    ToggleSetup,
    Reset,
    Shuffle,
    /// Make the move the rules pick for the human.
    AutoMove,
    /// Move the selection by rows and columns.
    Step(isize, isize),
    /// Set a mark of the given player into the selected cell.
    Mark(Player),
    /// Mark the selected cell.
    MarkSelected,
    /// Select a cell and mark it.
    MarkCell(usize),
}

/// What a key asks of the river-crossing session.
#[derive(Debug, Clone, Copy, PartialEq, Eq, Structural)]
pub enum RiverCommand {
    Reset,
    Shuffle,
    Solve,
    Advance,
    SelectPrevious,
    SelectNext,
    /// Make the crossing at this place in the list of legal crossings.
    Cross(usize),
}

/// What a key asks of the queens session.
#[derive(Debug, Clone, Copy, PartialEq, Eq, Structural)]
pub enum QueensCommand {
    Reset,
    Shuffle,
    Solve,
    /// Replay a step where there is a solution, otherwise set or lift the
    /// queen of the selected square.
    Activate,
    /// Move the selection by rows and columns.
    Step(isize, isize),
}

/// The reading of a key that every puzzle shares: Esc or `b` goes back, `q`
/// quits.
pub open spec fn shell_command_of(key: Key) -> Option<ShellCommand> {
    if key == Key::Esc || is_letter(key, 'b', 'B') {
        Some(ShellCommand::Back)
    } else if is_letter(key, 'q', 'Q') {
        Some(ShellCommand::Quit)
    } else {
        None
    }
}

/// The reading of a key on the sliding-tile screen: Tab switches boards, `r`
/// resets, `n` deals a new board, `h` shuffles, `s` solves, Space or Enter
/// replays, the step keys move the selection, and `1` to `8` place a number.
pub open spec fn eight_puzzle_command_of(key: Key) -> Option<EightPuzzleCommand> {
    if key == Key::Tab {
        Some(EightPuzzleCommand::ToggleBoards)
    } else if is_letter(key, 'r', 'R') {
        Some(EightPuzzleCommand::Reset)
    } else if is_letter(key, 'n', 'N') {
        Some(EightPuzzleCommand::NewBoard)
    } else if is_letter(key, 'h', 'H') {
        Some(EightPuzzleCommand::Shuffle)
    } else if is_letter(key, 's', 'S') {
        Some(EightPuzzleCommand::Solve)
    } else if is_advance(key) {
        Some(EightPuzzleCommand::Advance)
    } else {
        match step_of(key) {
            Some((rows, cols)) => Some(EightPuzzleCommand::Step(rows as isize, cols as isize)),
            None => match key {
                Key::Char(ch) => match digit_of(ch) {
                    Some(d) => if 1 <= d <= 8 {
                        Some(EightPuzzleCommand::Place(d))
                    } else {
                        None
                    },
                    None => None,
                },
                _ => None,
            },
        }
    }
}

/// The reading of a key on the three-in-a-row screen: Tab switches setup,
/// `r` resets, `h` shuffles, `s` asks for the picked move, the step keys move
/// the selection, `x` and `o` set a mark, Space or Enter marks the selected
/// cell, and `1` to `9` mark a cell directly.
pub open spec fn xor_ttt_command_of(key: Key) -> Option<XorTicTacToeCommand> {
    if key == Key::Tab {
        Some(XorTicTacToeCommand::ToggleSetup)
    } else if is_letter(key, 'r', 'R') {
        Some(XorTicTacToeCommand::Reset)
    } else if is_letter(key, 'h', 'H') {
        Some(XorTicTacToeCommand::Shuffle)
    } else if is_letter(key, 's', 'S') {
        Some(XorTicTacToeCommand::AutoMove)
    } else {
        match step_of(key) {
            Some((rows, cols)) => Some(XorTicTacToeCommand::Step(rows as isize, cols as isize)),
            None => if is_letter(key, 'x', 'X') {
                Some(XorTicTacToeCommand::Mark(Player::X))
            } else if is_letter(key, 'o', 'O') {
                Some(XorTicTacToeCommand::Mark(Player::O))
            } else if is_advance(key) {
                Some(XorTicTacToeCommand::MarkSelected)
            } else {
                match key {
                    Key::Char(ch) => match digit_of(ch) {
                        Some(d) => if d >= 1 {
                            Some(XorTicTacToeCommand::MarkCell((d - 1) as usize))
                        } else {
                            None
                        },
                        None => None,
                    },
                    _ => None,
                }
            },
        }
    }
}

/// The reading of a key on the river-crossing screen: `r` resets, `h`
/// shuffles, `s` solves, Space or Enter replays, Up and Down move through
/// the list of legal crossings, and `1` to `5` make the crossing of that
/// number in the list.
pub open spec fn river_command_of(key: Key) -> Option<RiverCommand> {
    if is_letter(key, 'r', 'R') {
        Some(RiverCommand::Reset)
    } else if is_letter(key, 'h', 'H') {
        Some(RiverCommand::Shuffle)
    } else if is_letter(key, 's', 'S') {
        Some(RiverCommand::Solve)
    } else if is_advance(key) {
        Some(RiverCommand::Advance)
    } else if key == Key::Up || is_letter(key, 'w', 'W') {
        Some(RiverCommand::SelectPrevious)
    } else if key == Key::Down || is_letter(key, 'j', 'J') {
        Some(RiverCommand::SelectNext)
    } else {
        match key {
            Key::Char(ch) => match digit_of(ch) {
                Some(d) => if 1 <= d <= 5 {
                    Some(RiverCommand::Cross((d - 1) as usize))
                } else {
                    None
                },
                None => None,
            },
            _ => None,
        }
    }
}

/// The reading of a key on the queens screen: `r` resets, `h` shuffles, `s`
/// solves, Space or Enter replays or toggles, and the step keys move the
/// selection.
pub open spec fn queens_command_of(key: Key) -> Option<QueensCommand> {
    if is_letter(key, 'r', 'R') {
        Some(QueensCommand::Reset)
    } else if is_letter(key, 'h', 'H') {
        Some(QueensCommand::Shuffle)
    } else if is_letter(key, 's', 'S') {
        Some(QueensCommand::Solve)
    } else if is_advance(key) {
        Some(QueensCommand::Activate)
    } else {
        match step_of(key) {
            Some((rows, cols)) => Some(QueensCommand::Step(rows as isize, cols as isize)),
            None => None,
        }
    }
}

/// Reads a key the way every puzzle screen does.
pub fn shell_command(key: Key) -> (command: Option<ShellCommand>)
    ensures
        command == shell_command_of(key),
{
    if key == Key::Esc || letter(key, 'b', 'B') {
        Some(ShellCommand::Back)
    } else if letter(key, 'q', 'Q') {
        Some(ShellCommand::Quit)
    } else {
        None
    }
}

/// Reads a key on the sliding-tile screen.
pub fn eight_puzzle_command(key: Key) -> (command: Option<EightPuzzleCommand>)
    ensures
        command == eight_puzzle_command_of(key),
{
    if key == Key::Tab {
        Some(EightPuzzleCommand::ToggleBoards)
    } else if letter(key, 'r', 'R') {
        Some(EightPuzzleCommand::Reset)
    } else if letter(key, 'n', 'N') {
        Some(EightPuzzleCommand::NewBoard)
    } else if letter(key, 'h', 'H') {
        Some(EightPuzzleCommand::Shuffle)
    } else if letter(key, 's', 'S') {
        Some(EightPuzzleCommand::Solve)
    } else if key == Key::Char(' ') || key == Key::Enter {
        Some(EightPuzzleCommand::Advance)
    } else {
        match step_for(key) {
            Some((rows, cols)) => Some(EightPuzzleCommand::Step(rows, cols)),
            None => match key {
                Key::Char(ch) => match digit_value(ch) {
                    Some(d) => if d >= 1 && d <= 8 {
                        Some(EightPuzzleCommand::Place(d))
                    } else {
                        None
                    },
                    None => None,
                },
                _ => None,
            },
        }
    }
}

/// Reads a key on the three-in-a-row screen.
pub fn xor_ttt_command(key: Key) -> (command: Option<XorTicTacToeCommand>)
    ensures
        command == xor_ttt_command_of(key),
{
    if key == Key::Tab {
        Some(XorTicTacToeCommand::ToggleSetup)
    } else if letter(key, 'r', 'R') {
        Some(XorTicTacToeCommand::Reset)
    } else if letter(key, 'h', 'H') {
        Some(XorTicTacToeCommand::Shuffle)
    } else if letter(key, 's', 'S') {
        Some(XorTicTacToeCommand::AutoMove)
    } else {
        match step_for(key) {
            Some((rows, cols)) => Some(XorTicTacToeCommand::Step(rows, cols)),
            None => if letter(key, 'x', 'X') {
                Some(XorTicTacToeCommand::Mark(Player::X))
            } else if letter(key, 'o', 'O') {
                Some(XorTicTacToeCommand::Mark(Player::O))
            } else if key == Key::Enter || key == Key::Char(' ') {
                Some(XorTicTacToeCommand::MarkSelected)
            } else {
                match key {
                    Key::Char(ch) => match digit_to_index(ch) {
                        Some(index) => Some(XorTicTacToeCommand::MarkCell(index)),
                        None => None,
                    },
                    _ => None,
                }
            },
        }
    }
}

/// Reads a key on the river-crossing screen.
pub fn river_command(key: Key) -> (command: Option<RiverCommand>)
    ensures
        command == river_command_of(key),
{
    if letter(key, 'r', 'R') {
        Some(RiverCommand::Reset)
    } else if letter(key, 'h', 'H') {
        Some(RiverCommand::Shuffle)
    } else if letter(key, 's', 'S') {
        Some(RiverCommand::Solve)
    } else if key == Key::Char(' ') || key == Key::Enter {
        Some(RiverCommand::Advance)
    } else if key == Key::Up || letter(key, 'w', 'W') {
        Some(RiverCommand::SelectPrevious)
    } else if key == Key::Down || letter(key, 'j', 'J') {
        Some(RiverCommand::SelectNext)
    } else {
        match key {
            Key::Char(ch) => match digit_to_index(ch) {
                Some(index) => if index < 5 {
                    Some(RiverCommand::Cross(index))
                } else {
                    None
                },
                None => None,
            },
            _ => None,
        }
    }
}

/// Reads a key on the queens screen.
pub fn queens_command(key: Key) -> (command: Option<QueensCommand>)
    ensures
        command == queens_command_of(key),
{
    if letter(key, 'r', 'R') {
        Some(QueensCommand::Reset)
    } else if letter(key, 'h', 'H') {
        Some(QueensCommand::Shuffle)
    } else if letter(key, 's', 'S') {
        Some(QueensCommand::Solve)
    } else if key == Key::Char(' ') || key == Key::Enter {
        Some(QueensCommand::Activate)
    } else {
        match step_for(key) {
            Some((rows, cols)) => Some(QueensCommand::Step(rows, cols)),
            None => None,
        }
    }
}

} // verus!
