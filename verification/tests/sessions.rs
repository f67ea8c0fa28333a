use puzzle_suite::puzzles::custom_goal::CustomGoalState;
use puzzle_suite::puzzles::eight_puzzle::EightPuzzleState;
use puzzle_suite::puzzles::eight_queens::EightQueensState;
use puzzle_suite::puzzles::missionaries_cannibals::BoatMove;
use puzzle_suite::puzzles::missionaries_cannibals::MissionariesCannibalsState;
use puzzle_suite::puzzles::xor_tic_tac_toe::Player;
use puzzle_suite::puzzles::xor_tic_tac_toe::XorTicTacToeState;
use puzzle_suite::search::clock::Elapsed;
use puzzle_suite::search::solver::SearchReport;
use puzzle_suite::session::cursor::step_cell;
use puzzle_suite::session::cursor::step_within;
use puzzle_suite::session::eight_puzzle::EightPuzzleSession;
use puzzle_suite::session::eight_puzzle::EightPuzzleSolution;
use puzzle_suite::session::queens::most_open_row;
use puzzle_suite::session::queens::open_columns;
use puzzle_suite::session::queens::EightQueensSession;
use puzzle_suite::session::queens::EightQueensSolution;
use puzzle_suite::session::river::MissionariesCannibalsSession;
use puzzle_suite::session::river::MissionariesCannibalsSolution;
use puzzle_suite::session::tic_tac_toe::count_gaps;
use puzzle_suite::session::tic_tac_toe::count_marks;
use puzzle_suite::session::tic_tac_toe::format_player;
use puzzle_suite::session::tic_tac_toe::scatter_mark;
use puzzle_suite::session::tic_tac_toe::XorTicTacToeSession;

fn board(tiles: [u8; 9]) -> EightPuzzleState {
    EightPuzzleState { tiles }
}

fn river(left_m: u8, left_c: u8, boat_left: bool) -> MissionariesCannibalsState {
    MissionariesCannibalsState { left_m, left_c, boat_left }
}

fn queens(cols: [i8; 8]) -> EightQueensState {
    let mut queens = [None; 8];
    for (row, col) in cols.iter().enumerate() {
        if *col >= 0 {
            queens[row] = Some(*col as u8);
        }
    }
    EightQueensState { queens }
}

fn marks(text: &str, to_move: Player) -> XorTicTacToeState {
    let mut cells = [None; 9];
    for (i, ch) in text.chars().enumerate() {
        cells[i] = match ch {
            'X' => Some(Player::X),
            'O' => Some(Player::O),
            _ => None,
        };
    }
    XorTicTacToeState { cells, to_move }
}

fn shown(state: &XorTicTacToeState) -> String {
    state
        .cells
        .iter()
        .map(|c| match c {
            Some(Player::X) => 'X',
            Some(Player::O) => 'O',
            None => '.',
        })
        .collect()
}

fn game_on(text: &str, to_move: Player) -> XorTicTacToeSession {
    let mut session = XorTicTacToeSession::default();
    session.state = marks(text, to_move);
    session
}

fn path_report<S>(path: Vec<S>) -> SearchReport<S> {
    SearchReport {
        path,
        expanded_nodes: 3,
        visited_states: 5,
        goal_found: true,
        elapsed: Elapsed { secs: 0, nanos: 1 },
    }
}

#[test]
fn cursor_steps_stay_on_the_grid() {
    assert_eq!(step_within(0, -1, 2), 0);
    assert_eq!(step_within(1, -1, 2), 0);
    assert_eq!(step_within(1, 1, 2), 2);
    assert_eq!(step_within(2, 1, 2), 2);
    assert_eq!(step_within(3, 100, 7), 7);
    assert_eq!(step_within(3, -100, 7), 0);
    assert_eq!(step_within(5, 0, 7), 5);
    assert_eq!(step_within(usize::MAX, isize::MAX, 7), 7);
    assert_eq!(step_within(0, isize::MIN, 7), 0);
    assert_eq!(step_within(usize::MAX, isize::MIN, usize::MAX), usize::MAX - (1usize << (usize::BITS - 1)));
}

#[test]
fn cell_steps_stay_on_the_grid() {
    assert_eq!(step_cell(4, -1, 0), 1);
    assert_eq!(step_cell(4, 1, 0), 7);
    assert_eq!(step_cell(4, 0, -1), 3);
    assert_eq!(step_cell(4, 0, 1), 5);
    assert_eq!(step_cell(0, -1, -1), 0);
    assert_eq!(step_cell(8, 1, 1), 8);
    assert_eq!(step_cell(2, 0, 1), 2);
    assert_eq!(step_cell(6, 1, -1), 6);
    assert_eq!(step_cell(0, 5, 5), 8);
    assert_eq!(step_cell(100, 0, 0), 7);
}

#[test]
fn sliding_session_starts_clean() {
    let state = board([1, 2, 3, 4, 5, 6, 7, 0, 8]);
    let session = EightPuzzleSession::starting_from(state);
    assert_eq!(session.start, state);
    assert_eq!(session.current, state);
    assert_eq!(session.goal_state, EightPuzzleState::default());
    assert_eq!(session.moves_made, 0);
    assert_eq!(
        session.status,
        "Use arrows to select cell, 1-8 to place number. Tab switches boards. R resets, N shuffles, S solves, Space replays."
    );
    assert_eq!(session.status, EightPuzzleSession::base_message());
    assert!(session.solution.is_none());
    assert_eq!(session.selected_cell, 0);
    assert_eq!(session.goal_selected_cell, 0);
    assert!(!session.editing_goal);
}

#[test]
fn sliding_session_reset() {
    let start = board([1, 2, 3, 4, 5, 6, 7, 0, 8]);
    let mut session = EightPuzzleSession::starting_from(start);
    session.current = board([1, 2, 3, 4, 5, 6, 0, 7, 8]);
    session.moves_made = 4;
    session.selected_cell = 5;
    session.goal_selected_cell = 6;
    session.editing_goal = true;
    session.solution = Some(EightPuzzleSolution { report: path_report(vec![start]), step: 0 });
    session.reset();
    assert_eq!(session.current, start);
    assert_eq!(session.moves_made, 0);
    assert!(session.solution.is_none());
    assert_eq!(session.selected_cell, 0);
    assert_eq!(session.goal_selected_cell, 6);
    assert!(!session.editing_goal);
    assert_eq!(session.status, "Reset to starting arrangement.");
}

#[test]
fn sliding_session_loads_a_board() {
    let mut session = EightPuzzleSession::starting_from(EightPuzzleState::default());
    session.moves_made = 9;
    session.selected_cell = 3;
    let fresh = board([4, 1, 2, 7, 0, 3, 8, 5, 6]);
    session.load_board(fresh);
    assert_eq!(session.start, fresh);
    assert_eq!(session.current, fresh);
    assert_eq!(session.moves_made, 0);
    assert_eq!(session.selected_cell, 0);
    assert_eq!(session.status, "Generated a new solvable board.");
}

#[test]
fn sliding_session_loads_a_shuffle_into_the_board_under_edit() {
    let start = board([1, 2, 3, 4, 5, 6, 7, 0, 8]);
    let drawn = board([4, 1, 2, 7, 0, 3, 8, 5, 6]);
    let mut session = EightPuzzleSession::starting_from(start);
    session.moves_made = 2;
    session.selected_cell = 4;
    session.load_shuffle(drawn);
    assert_eq!(session.current, drawn);
    assert_eq!(session.start, start);
    assert_eq!(session.moves_made, 0);
    assert_eq!(session.selected_cell, 0);
    assert_eq!(session.status, "Board shuffled randomly.");

    let mut session = EightPuzzleSession::starting_from(start);
    session.editing_goal = true;
    session.moves_made = 2;
    session.goal_selected_cell = 7;
    session.load_shuffle(drawn);
    assert_eq!(session.goal_state, drawn);
    assert_eq!(session.current, start);
    assert_eq!(session.moves_made, 2);
    assert_eq!(session.goal_selected_cell, 0);
    assert_eq!(session.status, "Goal board shuffled randomly.");
}

#[test]
fn sliding_session_switches_boards() {
    let mut session = EightPuzzleSession::starting_from(EightPuzzleState::default());
    session.toggle_editing_goal();
    assert!(session.editing_goal);
    assert_eq!(session.status, "Now editing goal board. Use Tab to switch back.");
    session.toggle_editing_goal();
    assert!(!session.editing_goal);
    assert_eq!(session.status, "Now editing current board. Use Tab to edit goal.");
}

#[test]
fn sliding_session_moves_the_selection_of_the_board_under_edit() {
    let mut session = EightPuzzleSession::starting_from(EightPuzzleState::default());
    session.move_cursor(1, 1);
    assert_eq!(session.selected_cell, 4);
    session.move_cursor(-5, 0);
    assert_eq!(session.selected_cell, 1);
    session.move_cursor(0, 7);
    assert_eq!(session.selected_cell, 2);
    assert_eq!(session.goal_selected_cell, 0);
    session.toggle_editing_goal();
    session.move_cursor(2, 0);
    assert_eq!(session.goal_selected_cell, 6);
    assert_eq!(session.selected_cell, 2);
}

#[test]
fn placing_a_number_off_the_range_is_refused() {
    let mut session = EightPuzzleSession::starting_from(EightPuzzleState::default());
    assert!(!session.place_number(0));
    assert_eq!(session.status, "Invalid number: 0. Use 1-8.");
    assert!(!session.place_number(9));
    assert_eq!(session.status, "Invalid number: 9. Use 1-8.");
    assert!(!session.place_number(255));
    assert_eq!(session.status, "Invalid number: 255. Use 1-8.");
    assert_eq!(session.current, EightPuzzleState::default());
    assert_eq!(session.moves_made, 0);
}

#[test]
fn placing_the_number_a_cell_holds_is_refused() {
    let mut session = EightPuzzleSession::starting_from(EightPuzzleState::default());
    session.selected_cell = 2;
    assert!(!session.place_number(3));
    assert_eq!(session.status, "Cell already contains 3.");
    assert_eq!(session.moves_made, 0);
    session.editing_goal = true;
    session.goal_selected_cell = 4;
    assert!(!session.place_number(5));
    assert_eq!(session.status, "Goal cell already contains 5.");
}

#[test]
fn placing_a_number_held_elsewhere_trades_places() {
    let mut session = EightPuzzleSession::starting_from(EightPuzzleState::default());
    session.solution = Some(EightPuzzleSolution {
        report: path_report(vec![EightPuzzleState::default()]),
        step: 0,
    });
    session.selected_cell = 8;
    assert!(session.place_number(3));
    assert_eq!(session.current.tiles, [1, 2, 0, 4, 5, 6, 7, 8, 3]);
    assert_eq!(session.status, "Swapped 3 with cell 3.");
    assert_eq!(session.moves_made, 1);
    assert!(session.solution.is_none());
    assert_eq!(session.start, EightPuzzleState::default());
    session.selected_cell = 0;
    assert!(session.place_number(8));
    assert_eq!(session.current.tiles, [8, 2, 0, 4, 5, 6, 7, 1, 3]);
    assert_eq!(session.status, "Swapped 8 with cell 8.");
    assert_eq!(session.moves_made, 2);
}

#[test]
fn placing_a_number_the_board_lacks() {
    let mut session = EightPuzzleSession::starting_from(board([1, 2, 3, 4, 5, 6, 7, 0, 0]));
    session.selected_cell = 8;
    assert!(session.place_number(8));
    assert_eq!(session.current.tiles, [1, 2, 3, 4, 5, 6, 7, 0, 8]);
    assert_eq!(session.status, "Placed 8 in cell 9.");
    assert_eq!(session.moves_made, 1);

    let mut session = EightPuzzleSession::starting_from(board([1, 2, 3, 4, 5, 6, 7, 7, 0]));
    session.selected_cell = 6;
    assert!(session.place_number(8));
    assert_eq!(session.current.tiles, [1, 2, 3, 4, 5, 6, 8, 7, 0]);
    assert_eq!(session.status, "Replaced 7 with 8 in cell 7.");
}

#[test]
fn placing_on_the_goal_board() {
    let mut session = EightPuzzleSession::starting_from(board([1, 2, 3, 4, 5, 6, 7, 0, 8]));
    session.editing_goal = true;
    session.goal_selected_cell = 8;
    assert!(session.place_number(1));
    assert_eq!(session.goal_state.tiles, [0, 2, 3, 4, 5, 6, 7, 8, 1]);
    assert_eq!(session.status, "Goal: Swapped 1 with cell 1.");
    assert_eq!(session.moves_made, 0);
    assert_eq!(session.current.tiles, [1, 2, 3, 4, 5, 6, 7, 0, 8]);

    session.goal_state = board([1, 2, 3, 4, 5, 6, 7, 0, 0]);
    session.goal_selected_cell = 7;
    assert!(session.place_number(8));
    assert_eq!(session.goal_state.tiles, [1, 2, 3, 4, 5, 6, 7, 8, 0]);
    assert_eq!(session.status, "Goal: Placed 8 in cell 8.");

    session.goal_state = board([1, 2, 3, 4, 5, 6, 6, 8, 0]);
    session.goal_selected_cell = 6;
    assert!(session.place_number(7));
    assert_eq!(session.goal_state.tiles, [1, 2, 3, 4, 5, 6, 7, 8, 0]);
    assert_eq!(session.status, "Goal: Replaced 6 with 7 in cell 7.");
}

#[test]
fn sliding_session_knows_when_it_is_solved() {
    let mut session = EightPuzzleSession::starting_from(board([1, 2, 3, 4, 5, 6, 7, 0, 8]));
    assert!(!session.is_solved());
    session.goal_state = board([1, 2, 3, 4, 5, 6, 7, 0, 8]);
    assert!(session.is_solved());
}

#[test]
fn sliding_session_solves_and_replays() {
    let start = board([1, 2, 3, 4, 5, 6, 0, 7, 8]);
    let mut session = EightPuzzleSession::starting_from(start);
    session.moves_made = 5;
    session.solve_current();
    assert_eq!(session.status, "Solution ready (2 moves). Press Space to step.");
    assert_eq!(session.moves_made, 0);
    assert_eq!(session.current, start);
    {
        let solution = session.solution.as_ref().unwrap();
        assert_eq!(solution.step, 0);
        assert_eq!(solution.total_steps(), 2);
        assert!(solution.report.goal_found);
        assert_eq!(
            solution.report.path,
            vec![start, board([1, 2, 3, 4, 5, 6, 7, 0, 8]), board([1, 2, 3, 4, 5, 6, 7, 8, 0])]
        );
    }
    assert!(session.advance_solution());
    assert_eq!(session.current, board([1, 2, 3, 4, 5, 6, 7, 0, 8]));
    assert_eq!(session.moves_made, 1);
    assert_eq!(session.status, "Replaying solution: step 1 / 2");
    assert!(session.advance_solution());
    assert_eq!(session.current, board([1, 2, 3, 4, 5, 6, 7, 8, 0]));
    assert_eq!(session.moves_made, 2);
    assert_eq!(session.status, "Solution complete! Board solved.");
    assert!(session.is_solved());
    assert!(!session.advance_solution());
    assert_eq!(session.status, "Already at final solution state.");
    assert_eq!(session.moves_made, 2);
    assert_eq!(session.solution.as_ref().unwrap().step, 2);
}

#[test]
fn sliding_session_solves_towards_an_edited_goal() {
    let mut session = EightPuzzleSession::starting_from(board([1, 2, 3, 0, 4, 5, 6, 7, 8]));
    session.goal_state = board([1, 2, 3, 4, 5, 0, 6, 7, 8]);
    session.solve_current();
    assert_eq!(session.status, "Solution ready (2 moves). Press Space to step.");
    assert!(session.advance_solution());
    assert!(session.advance_solution());
    assert!(session.is_solved());
    assert_eq!(session.current, board([1, 2, 3, 4, 5, 0, 6, 7, 8]));
}

#[test]
fn sliding_session_reports_a_goal_out_of_reach() {
    let mut session = EightPuzzleSession::starting_from(board([1, 2, 3, 4, 5, 6, 7, 8, 9]));
    session.moves_made = 3;
    session.solve_current();
    assert!(session.solution.is_none());
    assert_eq!(session.status, "No solution found (should never happen).");
    assert_eq!(session.moves_made, 3);
    assert_eq!(session.current, board([1, 2, 3, 4, 5, 6, 7, 8, 9]));
}

#[test]
fn replay_without_a_solution() {
    let mut session = EightPuzzleSession::starting_from(EightPuzzleState::default());
    assert!(!session.advance_solution());
    assert_eq!(session.status, "Run the solver with 'S' first.");
    let mut session = MissionariesCannibalsSession::default();
    assert!(!session.advance_solution());
    assert_eq!(session.status, "Run the solver with 'S' first.");
    let mut session = EightQueensSession::default();
    assert!(!session.advance_solution());
    assert_eq!(session.status, "Run the solver with 'S' first.");
}

#[test]
fn solutions_count_their_steps() {
    let empty: SearchReport<EightPuzzleState> = SearchReport::default();
    assert_eq!(EightPuzzleSolution { report: empty, step: 0 }.total_steps(), 0);
    let one = path_report(vec![EightPuzzleState::default()]);
    assert_eq!(EightPuzzleSolution { report: one, step: 0 }.total_steps(), 0);
    let three = path_report(vec![river(3, 3, true), river(2, 2, false), river(3, 2, true)]);
    assert_eq!(MissionariesCannibalsSolution { report: three, step: 0 }.total_steps(), 2);
    let none: SearchReport<EightQueensState> = SearchReport::default();
    assert_eq!(EightQueensSolution { report: none, step: 0 }.total_steps(), 0);
    let two = path_report(vec![EightQueensState::default(), queens([0, -1, -1, -1, -1, -1, -1, -1])]);
    assert_eq!(EightQueensSolution { report: two, step: 0 }.total_steps(), 1);
}

#[test]
fn replay_with_a_step_beyond_the_path() {
    let mut session = EightPuzzleSession::starting_from(EightPuzzleState::default());
    session.solution = Some(EightPuzzleSolution {
        report: path_report(vec![EightPuzzleState::default()]),
        step: usize::MAX,
    });
    assert!(!session.advance_solution());
    assert_eq!(session.status, "Already at final solution state.");
}

#[test]
fn three_in_a_row_session_starts_clean() {
    let session = XorTicTacToeSession::default();
    assert_eq!(session.state, XorTicTacToeState::default());
    assert_eq!(session.cursor, 4);
    assert_eq!(
        session.status,
        "Arrows move cursor, X/O place pieces, Tab setup mode, H shuffle, S auto-move, R restart."
    );
    assert_eq!(session.status, XorTicTacToeSession::base_status());
    assert_eq!(session.human_symbol, Player::X);
    assert!(!session.setup_mode);
    assert!(!session.is_locked());
}

#[test]
fn three_in_a_row_session_reset_and_setup() {
    let mut session = game_on("XO..X....", Player::O);
    session.cursor = 0;
    session.toggle_setup_mode();
    assert!(session.setup_mode);
    assert_eq!(session.status, "Setup mode: Place X/O manually. Tab to exit setup.");
    session.toggle_setup_mode();
    assert!(!session.setup_mode);
    assert_eq!(session.status, "Game mode: Playing against AI. Tab to enter setup.");
    session.setup_mode = true;
    session.reset();
    assert_eq!(session.state, XorTicTacToeState::default());
    assert_eq!(session.cursor, 4);
    assert!(!session.setup_mode);
    assert_eq!(session.status, XorTicTacToeSession::base_status());
}

#[test]
fn player_letters() {
    assert_eq!(format_player(Player::X), "X");
    assert_eq!(format_player(Player::O), "O");
}

#[test]
fn setup_marks_by_hand() {
    let mut session = XorTicTacToeSession::default();
    session.setup_mode = true;
    session.cursor = 2;
    assert!(session.place_manual(Player::O));
    assert_eq!(shown(&session.state), "..O......");
    assert_eq!(session.status, "Placed O in cell 3.");
    assert_eq!(session.state.to_move, Player::X);
    assert!(session.place_manual(Player::X));
    assert_eq!(shown(&session.state), "..X......");
    assert_eq!(session.status, "Placed X in cell 3.");
    assert!(session.place_manual(Player::X));
    assert_eq!(shown(&session.state), ".........");
    assert_eq!(session.status, "Removed X from cell 3.");
}

#[test]
fn setup_cycles_a_cell() {
    let mut session = XorTicTacToeSession::default();
    session.setup_mode = true;
    assert!(session.place_cell(8));
    assert_eq!(shown(&session.state), "........X");
    assert_eq!(session.status, "Placed X in cell 9.");
    assert_eq!(session.cursor, 8);
    assert!(session.place_cell(8));
    assert_eq!(shown(&session.state), "........O");
    assert_eq!(session.status, "Changed to O in cell 9.");
    assert!(session.place_cell(8));
    assert_eq!(shown(&session.state), ".........");
    assert_eq!(session.status, "Cleared cell 9.");
    assert_eq!(session.state.to_move, Player::X);
}

#[test]
fn cells_off_the_board_are_ignored() {
    let mut session = XorTicTacToeSession::default();
    assert!(!session.place_cell(9));
    assert!(!session.quick_place(9));
    assert!(!session.quick_place(usize::MAX));
    assert_eq!(session.cursor, 4);
    assert_eq!(session.state, XorTicTacToeState::default());
    assert_eq!(session.status, XorTicTacToeSession::base_status());
}

#[test]
fn a_round_is_answered_by_the_opponent() {
    let mut session = XorTicTacToeSession::default();
    assert!(session.place_cursor());
    assert_eq!(shown(&session.state), "O...X....");
    assert_eq!(session.state.to_move, Player::X);
    assert_eq!(session.cursor, 0);
    assert_eq!(session.status, "AI placed O in cell 1.");
    assert!(session.quick_place(8));
    assert_eq!(shown(&session.state), "O.O.X...X");
    assert_eq!(session.status, "AI placed O in cell 3.");
    assert!(session.place_cell(1));
    assert_eq!(shown(&session.state), "OXO.X..OX");
    assert_eq!(session.status, "AI placed O in cell 8.");
    session.cursor = 6;
    assert!(session.place_manual(Player::X));
    assert_eq!(shown(&session.state), "OXOOX.XOX");
    assert_eq!(session.status, "AI placed O in cell 4.");
    assert_eq!(session.cursor, 3);
    assert!(session.place_cell(5));
    assert_eq!(shown(&session.state), "OXOOXXXOX");
    assert_eq!(session.status, "It's a draw. Press R to restart.");
    assert_eq!(session.cursor, 5);
    assert!(session.is_locked());
    assert!(!session.place_cell(5));
    assert_eq!(session.status, "Game over. Press R to restart.");
}

#[test]
fn winning_round_ends_the_game() {
    let mut session = game_on("XX.OO....", Player::X);
    assert!(session.place_cell(2));
    assert_eq!(shown(&session.state), "XXXOO....");
    assert_eq!(session.status, "You win! Press R to play again.");
    assert_eq!(session.state.to_move, Player::O);
    assert_eq!(session.cursor, 2);
    assert!(session.is_locked());
    session.cursor = 8;
    assert!(!session.place_manual(Player::X));
    assert_eq!(session.status, "Game over. Press R to restart.");
    assert!(!session.auto_player_move());
    assert_eq!(session.status, "It's not your turn.");
}

#[test]
fn opponent_takes_its_win() {
    let mut session = game_on("X..OO...X", Player::X);
    assert!(session.place_cell(1));
    assert_eq!(shown(&session.state), "XX.OOO..X");
    assert_eq!(session.status, "AI wins. Press R to try again.");
    assert_eq!(session.cursor, 5);
    assert!(session.is_locked());
}

#[test]
fn rounds_that_are_refused() {
    let mut session = game_on("X........", Player::O);
    assert!(!session.place_cell(4));
    assert_eq!(session.status, "Wait for the AI to finish its move.");
    assert_eq!(session.cursor, 4);
    assert!(!session.place_manual(Player::X));
    assert_eq!(session.status, "Wait for the AI to finish its move.");

    let mut session = game_on("XO.......", Player::X);
    assert!(!session.place_cell(1));
    assert_eq!(session.status, "Cell 2 is already occupied.");
    assert_eq!(session.cursor, 1);
    assert!(!session.place_manual(Player::O));
    assert_eq!(session.status, "You are playing as X.");
    assert!(!session.place_manual(Player::X));
    assert_eq!(session.status, "Cell 2 is already occupied.");
    assert_eq!(shown(&session.state), "XO.......");
}

#[test]
fn human_playing_the_second_mark_gets_no_answer() {
    let mut session = game_on("X........", Player::O);
    session.human_symbol = Player::O;
    assert!(session.place_cell(4));
    assert_eq!(shown(&session.state), "X...O....");
    assert_eq!(session.state.to_move, Player::X);
    assert_eq!(session.status, "Placed O in cell 5.");
    assert_eq!(session.cursor, 4);
}

#[test]
fn the_rules_pick_a_move() {
    // Complete an own line first.
    assert_eq!(game_on("XX.OO....", Player::X).pick_best_move(Player::X), Some(2));
    assert_eq!(game_on("XX.OO....", Player::O).pick_best_move(Player::O), Some(5));
    // Otherwise block.
    assert_eq!(game_on("XX.......", Player::O).pick_best_move(Player::O), Some(2));
    assert_eq!(game_on("O...O....", Player::X).pick_best_move(Player::X), Some(8));
    // Otherwise the centre.
    assert_eq!(game_on("X........", Player::O).pick_best_move(Player::O), Some(4));
    assert_eq!(game_on(".........", Player::X).pick_best_move(Player::X), Some(4));
    // Otherwise the first free corner.
    assert_eq!(game_on("....X....", Player::O).pick_best_move(Player::O), Some(0));
    assert_eq!(game_on("O...X....", Player::X).pick_best_move(Player::X), Some(2));
    assert_eq!(game_on("X.O.O.O..", Player::X).pick_best_move(Player::X), Some(8));
    assert_eq!(game_on("O.X.X.O..", Player::X).pick_best_move(Player::O), Some(3));
    // Otherwise the first free cell.
    assert_eq!(game_on("OXOOXXX.X", Player::O).pick_best_move(Player::O), Some(7));
    assert_eq!(game_on("XOXXOOO.X", Player::X).pick_best_move(Player::O), Some(7));
    // Nothing on a full board.
    assert_eq!(game_on("XOXXOOOXX", Player::O).pick_best_move(Player::O), None);
}

#[test]
fn finding_the_cell_that_completes_a_line() {
    assert_eq!(game_on("XX.......", Player::X).find_winning_move(Player::X), Some(2));
    assert_eq!(game_on("X.X......", Player::X).find_winning_move(Player::X), Some(1));
    assert_eq!(game_on(".XX......", Player::X).find_winning_move(Player::X), Some(0));
    assert_eq!(game_on("XXO......", Player::X).find_winning_move(Player::X), None);
    assert_eq!(game_on("XX.......", Player::X).find_winning_move(Player::O), None);
    assert_eq!(game_on("X...X....", Player::O).find_winning_move(Player::X), Some(8));
    assert_eq!(game_on("..O...O..", Player::X).find_winning_move(Player::O), Some(4));
    // The first line of the list decides.
    assert_eq!(game_on("XX.X.....", Player::O).find_winning_move(Player::X), Some(2));
    assert_eq!(game_on(".........", Player::X).find_winning_move(Player::X), None);
}

#[test]
fn the_human_can_ask_for_the_picked_move() {
    let mut session = game_on("XX.OO....", Player::X);
    assert!(session.auto_player_move());
    assert_eq!(shown(&session.state), "XXXOO....");
    assert_eq!(session.status, "You win! Press R to play again.");

    let mut session = XorTicTacToeSession::default();
    assert!(session.auto_player_move());
    assert_eq!(shown(&session.state), "O...X....");

    let mut session = game_on("X........", Player::O);
    assert!(!session.auto_player_move());
    assert_eq!(session.status, "It's not your turn.");

    let mut session = game_on("XOXXOOOXX", Player::X);
    assert!(!session.auto_player_move());
    assert_eq!(session.status, "Game over. Press R to restart.");
}

#[test]
fn the_verdict_takes_the_status_line() {
    let mut session = game_on("XXX.OO...", Player::O);
    session.status = String::from("before");
    session.update_outcome();
    assert_eq!(session.status, "You win! Press R to play again.");
    let mut session = game_on("OOO.XX...", Player::X);
    session.update_outcome();
    assert_eq!(session.status, "AI wins. Press R to try again.");
    let mut session = game_on("XOXXOOOXX", Player::O);
    session.update_outcome();
    assert_eq!(session.status, "It's a draw. Press R to restart.");
    let mut session = game_on("XO.......", Player::X);
    session.status = String::from("before");
    session.update_outcome();
    assert_eq!(session.status, "before");
}

#[test]
fn the_opponent_moves_only_on_its_turn() {
    let mut session = game_on("X........", Player::X);
    session.status = String::from("before");
    session.ai_auto_move();
    assert_eq!(shown(&session.state), "X........");
    assert_eq!(session.status, "before");
    let mut session = game_on("X........", Player::O);
    session.ai_auto_move();
    assert_eq!(shown(&session.state), "X...O....");
    assert_eq!(session.state.to_move, Player::X);
    assert_eq!(session.cursor, 4);
    assert_eq!(session.status, "AI placed O in cell 5.");
    let mut session = game_on("XXX.OO...", Player::O);
    session.status = String::from("before");
    session.ai_auto_move();
    assert_eq!(shown(&session.state), "XXX.OO...");
    assert_eq!(session.status, "before");
}

#[test]
fn three_in_a_row_selection_moves() {
    let mut session = XorTicTacToeSession::default();
    session.move_cursor(-1, -1);
    assert_eq!(session.cursor, 0);
    session.move_cursor(-1, 0);
    assert_eq!(session.cursor, 0);
    session.move_cursor(2, 2);
    assert_eq!(session.cursor, 8);
    session.move_cursor(0, 1);
    assert_eq!(session.cursor, 8);
}

#[test]
fn scattered_marks_go_to_the_picked_gap() {
    let empty = [None; 9];
    let one = scatter_mark(&empty, 4);
    assert_eq!(one[4], Some(Player::X));
    let two = scatter_mark(&one, 4);
    assert_eq!(two[5], Some(Player::O));
    let three = scatter_mark(&two, 0);
    assert_eq!(three[0], Some(Player::X));
    let four = scatter_mark(&three, 5);
    assert_eq!(four[8], Some(Player::O));
    assert_eq!(count_marks(&four, Player::X), 2);
    assert_eq!(count_marks(&four, Player::O), 2);
    assert_eq!(count_gaps(&four), 5);
    // A pick beyond the gaps leaves the board as it is.
    assert_eq!(scatter_mark(&four, 5), four);
    assert_eq!(scatter_mark(&four, usize::MAX), four);
    assert_eq!(count_gaps(&empty), 9);
    assert_eq!(count_marks(&empty, Player::X), 0);
}

#[test]
fn scattered_board_is_taken_with_the_turn_that_is_due() {
    let mut session = XorTicTacToeSession::default();
    session.cursor = 0;
    session.setup_mode = true;
    session.load_scattered(marks("X...O...X", Player::X).cells);
    assert_eq!(shown(&session.state), "X...O...X");
    assert_eq!(session.state.to_move, Player::O);
    assert_eq!(session.cursor, 4);
    assert_eq!(session.status, "Board shuffled randomly.");
    assert!(session.setup_mode);
    session.load_scattered(marks("X...O....", Player::O).cells);
    assert_eq!(session.state.to_move, Player::X);
    session.load_scattered([None; 9]);
    assert_eq!(session.state.to_move, Player::X);
}

#[test]
fn river_session_starts_clean() {
    let session = MissionariesCannibalsSession::default();
    assert_eq!(session.state, river(3, 3, true));
    assert_eq!(
        session.status,
        "Use S to solve, Space to step through solution. H shuffles, R resets."
    );
    assert_eq!(session.status, MissionariesCannibalsSession::base_status());
    assert!(session.solution.is_none());
    assert_eq!(session.selected_move, 0);
    assert!(!session.is_solved());
}

#[test]
fn river_session_reset() {
    let mut session = MissionariesCannibalsSession::default();
    session.state = river(1, 1, false);
    session.selected_move = 3;
    session.status = String::from("x");
    session.solution =
        Some(MissionariesCannibalsSolution { report: path_report(vec![river(1, 1, false)]), step: 0 });
    session.reset();
    assert_eq!(session.state, river(3, 3, true));
    assert_eq!(session.status, MissionariesCannibalsSession::base_status());
    assert!(session.solution.is_none());
    assert_eq!(session.selected_move, 0);
}

#[test]
fn river_session_takes_or_rejects_a_drawn_shore() {
    let mut session = MissionariesCannibalsSession::default();
    session.selected_move = 2;
    assert!(session.try_shuffle(2, 2, false));
    assert_eq!(session.state, river(2, 2, false));
    assert_eq!(session.status, "Shuffled: Left M=2 C=2, Boat on right");
    assert_eq!(session.selected_move, 0);
    assert!(session.try_shuffle(3, 1, true));
    assert_eq!(session.status, "Shuffled: Left M=3 C=1, Boat on left");
    assert!(session.try_shuffle(0, 0, true));
    assert_eq!(session.status, "Shuffled: Left M=0 C=0, Boat on left");
    session.selected_move = 1;
    // The goal is rejected.
    assert!(!session.try_shuffle(0, 0, false));
    // An invalid shore is rejected.
    assert!(!session.try_shuffle(1, 2, true));
    assert!(!session.try_shuffle(2, 1, false));
    assert!(!session.try_shuffle(4, 0, false));
    assert_eq!(session.state, river(0, 0, true));
    assert_eq!(session.status, "Shuffled: Left M=0 C=0, Boat on left");
    assert_eq!(session.selected_move, 1);
}

#[test]
fn river_session_falls_back_to_the_start() {
    let mut session = MissionariesCannibalsSession::default();
    session.state = river(1, 1, false);
    session.selected_move = 4;
    session.shuffle_to_default();
    assert_eq!(session.state, river(3, 3, true));
    assert_eq!(session.status, "Shuffled to default state.");
    assert_eq!(session.selected_move, 4);
}

#[test]
fn river_session_solves_and_replays() {
    let mut session = MissionariesCannibalsSession::default();
    session.solve();
    assert_eq!(session.status, "Solution ready (11 moves). Press Space to step.");
    assert_eq!(session.state, river(3, 3, true));
    assert_eq!(session.solution.as_ref().unwrap().total_steps(), 11);
    for step in 1..11 {
        assert!(session.advance_solution());
        assert_eq!(session.status, format!("Step {} / 11", step));
        assert!(session.state.is_valid());
        assert_eq!(session.state.boat_left, step % 2 == 0);
        assert!(!session.is_solved());
    }
    assert!(session.advance_solution());
    assert_eq!(session.status, "Solution complete! Everyone crossed safely.");
    assert!(session.is_solved());
    assert_eq!(session.state, river(0, 0, false));
    assert!(!session.advance_solution());
    assert_eq!(session.status, "Already at final solution state.");
    assert_eq!(session.state, river(0, 0, false));
}

#[test]
fn river_session_without_a_way_across() {
    let mut session = MissionariesCannibalsSession::default();
    session.state = river(3, 3, false);
    session.solve();
    assert!(session.solution.is_none());
    assert_eq!(session.status, "No solution found.");
    assert_eq!(session.state, river(3, 3, false));
}

#[test]
fn river_session_lists_legal_crossings() {
    let session = MissionariesCannibalsSession::default();
    let moves: Vec<(u8, u8)> =
        session.get_valid_moves().iter().map(|mv| (mv.missionaries, mv.cannibals)).collect();
    assert_eq!(moves, vec![(0, 1), (0, 2), (1, 1)]);
    let mut session = MissionariesCannibalsSession::default();
    session.state = river(2, 2, false);
    let moves: Vec<(u8, u8)> =
        session.get_valid_moves().iter().map(|mv| (mv.missionaries, mv.cannibals)).collect();
    assert_eq!(moves, vec![(1, 0), (1, 1)]);
    session.state = river(3, 3, false);
    assert!(session.get_valid_moves().is_empty());
}

#[test]
fn river_session_crossings_by_hand() {
    let mut session = MissionariesCannibalsSession::default();
    session.selected_move = 1;
    session.solution =
        Some(MissionariesCannibalsSolution { report: path_report(vec![river(3, 3, true)]), step: 0 });
    assert!(!session.apply_move(BoatMove { missionaries: 1, cannibals: 0 }));
    assert_eq!(session.status, "Invalid move!");
    assert_eq!(session.state, river(3, 3, true));
    assert!(session.solution.is_some());
    assert!(session.apply_move(BoatMove { missionaries: 1, cannibals: 1 }));
    assert_eq!(session.state, river(2, 2, false));
    assert_eq!(session.status, "Moved 1M 1C to right");
    assert!(session.solution.is_none());
    assert_eq!(session.selected_move, 1);
    assert!(session.apply_move(BoatMove { missionaries: 1, cannibals: 0 }));
    assert_eq!(session.state, river(3, 2, true));
    assert_eq!(session.status, "Moved 1M 0C to left");
    session.state = river(0, 2, true);
    assert!(session.apply_move(BoatMove { missionaries: 0, cannibals: 2 }));
    assert_eq!(session.status, "Solved! Everyone crossed safely.");
    assert!(session.is_solved());
}

#[test]
fn queens_session_starts_clean() {
    let session = EightQueensSession::default();
    assert_eq!(session.state, EightQueensState::default());
    assert_eq!(
        session.status,
        "Use arrows to select cell, Space to place/remove queen. S solves, R resets, H shuffles."
    );
    assert_eq!(session.status, EightQueensSession::base_status());
    assert!(session.solution.is_none());
    assert_eq!((session.selected_row, session.selected_col), (0, 0));
    assert!(!session.is_solved());
}

#[test]
fn queens_session_reset() {
    let mut session = EightQueensSession::default();
    session.state = queens([0, 2, -1, -1, -1, -1, -1, -1]);
    session.selected_row = 3;
    session.selected_col = 5;
    session.status = String::from("x");
    session.reset();
    assert_eq!(session.state, EightQueensState::default());
    assert_eq!(session.status, EightQueensSession::base_status());
    assert_eq!((session.selected_row, session.selected_col), (0, 0));
}

#[test]
fn queens_selection_moves() {
    let mut session = EightQueensSession::default();
    session.move_cursor(3, 5);
    assert_eq!((session.selected_row, session.selected_col), (3, 5));
    session.move_cursor(-1, 1);
    assert_eq!((session.selected_row, session.selected_col), (2, 6));
    session.move_cursor(10, 10);
    assert_eq!((session.selected_row, session.selected_col), (7, 7));
    session.move_cursor(-10, -10);
    assert_eq!((session.selected_row, session.selected_col), (0, 0));
}

#[test]
fn free_columns_of_a_row() {
    assert_eq!(open_columns(&EightQueensState::default(), 3), vec![0, 1, 2, 3, 4, 5, 6, 7]);
    let one = queens([0, -1, -1, -1, -1, -1, -1, -1]);
    assert_eq!(open_columns(&one, 1), vec![2, 3, 4, 5, 6, 7]);
    assert_eq!(open_columns(&one, 7), vec![1, 2, 3, 4, 5, 6]);
    assert_eq!(open_columns(&queens([0, 2, 4, 1, 3, -1, -1, -1]), 5), Vec::<u8>::new());
}

#[test]
fn the_row_with_the_most_free_columns() {
    let none_used = [false; 8];
    // All rows are equally open: the last one is taken.
    let best = most_open_row(&EightQueensState::default(), &none_used);
    assert_eq!(best, Some((7, vec![0, 1, 2, 3, 4, 5, 6, 7])));
    let board = queens([0, 2, -1, -1, -1, -1, -1, -1]);
    let mut used = [false; 8];
    used[0] = true;
    used[1] = true;
    // Free columns per row: 4 5 4 4 4 4 4 5.
    assert_eq!(most_open_row(&board, &used).map(|(row, _)| row), Some(7));
    used[7] = true;
    assert_eq!(most_open_row(&board, &used).map(|(row, _)| row), Some(6));
    assert_eq!(most_open_row(&board, &none_used).map(|(row, _)| row), Some(7));
    let all_used = [true; 8];
    assert_eq!(most_open_row(&board, &all_used), None);
    // Rows without a free column are passed over.
    let stuck = queens([0, 2, 4, 1, 3, -1, -1, -1]);
    let mut used = [true; 8];
    used[5] = false;
    used[6] = false;
    assert_eq!(most_open_row(&stuck, &used), None);
}

#[test]
fn queens_session_adopts_a_board() {
    let mut session = EightQueensSession::default();
    session.selected_row = 2;
    session.solution =
        Some(EightQueensSolution { report: path_report(vec![EightQueensState::default()]), step: 0 });
    assert!(session.adopt_board(queens([0, 2, -1, -1, -1, -1, -1, -1])));
    assert_eq!(session.state, queens([0, 2, -1, -1, -1, -1, -1, -1]));
    assert_eq!(
        session.status,
        "Shuffled: 2 queens placed with no conflicts. State is solvable."
    );
    assert!(session.solution.is_none());
    assert_eq!(session.selected_row, 2);
    assert!(session.adopt_board(queens([-1, -1, 3, -1, -1, 3, -1, -1])));
    assert_eq!(session.status, "Shuffled: 2 queens placed. Conflicts: 1. State is solvable.");
    assert!(session.adopt_board(EightQueensState::default()));
    assert_eq!(
        session.status,
        "Shuffled: 0 queens placed with no conflicts. State is solvable."
    );
}

#[test]
fn queens_session_keeps_its_status_on_a_stuck_board() {
    let mut session = EightQueensSession::default();
    session.status = String::from("before");
    assert!(!session.adopt_board(queens([0, 2, 4, 1, 3, -1, -1, -1])));
    assert_eq!(session.state, queens([0, 2, 4, 1, 3, -1, -1, -1]));
    assert_eq!(session.status, "before");
    assert!(session.solution.is_none());
}

#[test]
fn queens_session_adopts_a_single_queen() {
    let mut session = EightQueensSession::default();
    session.state = queens([0, 2, 4, 1, 3, -1, -1, -1]);
    session.adopt_single(6, 3);
    assert_eq!(session.state, queens([-1, -1, -1, -1, -1, -1, 3, -1]));
    assert_eq!(session.status, "Shuffled: 1 queen placed. State is solvable.");
    session.adopt_single(8, 0);
    assert_eq!(session.state, EightQueensState::default());
    assert_eq!(session.status, "Shuffled: Empty board (always solvable).");
    session.adopt_single(0, 200);
    assert_eq!(session.state, EightQueensState::default());
    assert_eq!(session.status, "Shuffled: Empty board (always solvable).");
}

#[test]
fn queens_session_solves_and_replays() {
    let mut session = EightQueensSession::default();
    session.state = queens([0, 4, 7, 5, 2, 6, -1, -1]);
    session.solve();
    assert_eq!(session.status, "Solution ready (2 steps). Press Space to step.");
    assert_eq!(session.state, queens([0, 4, 7, 5, 2, 6, -1, -1]));
    assert!(session.advance_solution());
    assert_eq!(session.state, queens([0, 4, 7, 5, 2, 6, 1, -1]));
    assert_eq!(session.status, "Step 1 / 2");
    assert!(session.advance_solution());
    assert_eq!(session.state, queens([0, 4, 7, 5, 2, 6, 1, 3]));
    assert_eq!(session.status, "Solution complete! All 8 queens placed safely.");
    assert!(session.is_solved());
    assert!(!session.advance_solution());
    assert_eq!(session.status, "Already at final solution state.");
}

#[test]
fn queens_session_solves_the_empty_board() {
    let mut session = EightQueensSession::default();
    session.solve();
    assert_eq!(session.status, "Solution ready (8 steps). Press Space to step.");
    assert_eq!(session.solution.as_ref().unwrap().total_steps(), 8);
}

#[test]
fn queens_session_on_a_stuck_board() {
    let mut session = EightQueensSession::default();
    session.state = queens([0, 2, 4, 1, 3, -1, -1, -1]);
    session.solve();
    assert!(session.solution.is_none());
    assert_eq!(
        session.status,
        "Search terminated early (1 states). This may indicate the starting state has no valid successors. Try shuffling (H)."
    );
}

#[test]
fn failure_messages() {
    let quick = Elapsed { secs: 2, nanos: 345_000_000 };
    assert_eq!(
        EightQueensSession::failure_text(5, Elapsed { secs: 3600, nanos: 0 }),
        "Search timed out after 1 hour (5 nodes explored). The puzzle may be unsolvable from this state, or try shuffling (H)."
    );
    assert_eq!(
        EightQueensSession::failure_text(0, Elapsed { secs: 4000, nanos: 7 }),
        "Search timed out after 1 hour (0 nodes explored). The puzzle may be unsolvable from this state, or try shuffling (H)."
    );
    assert_eq!(
        EightQueensSession::failure_text(0, quick),
        "No valid moves available. Try shuffling (H) for a different starting state."
    );
    assert_eq!(
        EightQueensSession::failure_text(9, quick),
        "Search terminated early (9 states). This may indicate the starting state has no valid successors. Try shuffling (H)."
    );
    assert_eq!(
        EightQueensSession::failure_text(10, quick),
        "No solution found after exploring 10 states in 2.3s. Still searching... Try shuffling (H) for a different starting state, or wait longer."
    );
    assert_eq!(
        EightQueensSession::failure_text(123456, Elapsed { secs: 59, nanos: 960_000_000 }),
        "No solution found after exploring 123456 states in 60.0s. Still searching... Try shuffling (H) for a different starting state, or wait longer."
    );
    assert_eq!(
        EightQueensSession::failure_text(10, Elapsed { secs: 0, nanos: 49_999_999 }),
        "No solution found after exploring 10 states in 0.0s. Still searching... Try shuffling (H) for a different starting state, or wait longer."
    );
    assert_eq!(
        EightQueensSession::failure_text(10, Elapsed { secs: 12, nanos: 350_000_000 }),
        "No solution found after exploring 10 states in 12.4s. Still searching... Try shuffling (H) for a different starting state, or wait longer."
    );
    assert_eq!(
        EightQueensSession::failure_text(10, Elapsed { secs: 12, nanos: 349_999_999 }),
        "No solution found after exploring 10 states in 12.3s. Still searching... Try shuffling (H) for a different starting state, or wait longer."
    );
    assert_eq!(
        EightQueensSession::failure_text(10, Elapsed { secs: 3599, nanos: 999_999_999 }),
        "No solution found after exploring 10 states in 3600.0s. Still searching... Try shuffling (H) for a different starting state, or wait longer."
    );
}

#[test]
fn toggling_queens() {
    let mut session = EightQueensSession::default();
    session.solution =
        Some(EightQueensSolution { report: path_report(vec![EightQueensState::default()]), step: 0 });
    assert!(session.toggle_queen());
    assert_eq!(session.state, queens([0, -1, -1, -1, -1, -1, -1, -1]));
    assert_eq!(session.status, "Placed queen at row 1, col 1. No conflicts yet.");
    assert!(session.solution.is_none());
    session.selected_row = 1;
    session.selected_col = 1;
    assert!(!session.toggle_queen());
    assert_eq!(
        session.status,
        "Cannot place queen at row 2, col 2 (conflicts with existing queens)."
    );
    assert_eq!(session.state, queens([0, -1, -1, -1, -1, -1, -1, -1]));
    session.selected_col = 2;
    assert!(session.toggle_queen());
    assert_eq!(session.state, queens([0, 2, -1, -1, -1, -1, -1, -1]));
    session.selected_col = 7;
    assert!(session.toggle_queen());
    assert_eq!(session.state, queens([0, -1, -1, -1, -1, -1, -1, -1]));
    assert_eq!(session.status, "Removed queen from row 2, col 8.");
}

#[test]
fn toggling_the_last_queen_into_place() {
    let mut session = EightQueensSession::default();
    session.state = queens([0, 4, 7, 5, 2, 6, 1, -1]);
    session.selected_row = 7;
    session.selected_col = 3;
    assert!(session.toggle_queen());
    assert_eq!(session.status, "Perfect! All 8 queens placed with no conflicts.");
    assert!(session.is_solved());
}

#[test]
fn toggling_onto_a_board_with_conflicts() {
    let mut session = EightQueensSession::default();
    session.state = queens([-1, -1, 3, -1, -1, 3, -1, -1]);
    session.selected_row = 0;
    session.selected_col = 0;
    assert!(session.toggle_queen());
    assert_eq!(session.status, "Placed queen at row 1, col 1. Conflicts: 1.");
}

#[test]
fn sessions_take_a_found_path_for_replay() {
    let goal = board([1, 2, 3, 4, 5, 6, 7, 8, 0]);
    let first = board([1, 2, 3, 4, 5, 6, 0, 7, 8]);
    let second = board([1, 2, 3, 4, 5, 6, 7, 0, 8]);
    let lifted: Vec<CustomGoalState> =
        [first, second, goal].iter().map(|s| CustomGoalState { state: *s, goal }).collect();
    let mut session = EightPuzzleSession::starting_from(board([4, 1, 2, 7, 0, 3, 8, 5, 6]));
    session.moves_made = 6;
    session.take_report(path_report(lifted));
    assert_eq!(session.status, "Solution ready (2 moves). Press Space to step.");
    assert_eq!(session.current, first);
    assert_eq!(session.moves_made, 0);
    let solution = session.solution.as_ref().unwrap();
    assert_eq!(solution.step, 0);
    assert_eq!(solution.report.path, vec![first, second, goal]);
    assert_eq!(solution.report.expanded_nodes, 3);
    assert_eq!(solution.report.visited_states, 5);
    assert!(solution.report.goal_found);
    assert_eq!(solution.report.elapsed, Elapsed { secs: 0, nanos: 1 });

    let mut session = MissionariesCannibalsSession::default();
    session.selected_move = 2;
    session.take_report(path_report(vec![river(0, 1, true), river(0, 0, false)]));
    assert_eq!(session.status, "Solution ready (1 moves). Press Space to step.");
    assert_eq!(session.state, river(0, 1, true));
    assert_eq!(session.selected_move, 2);
    assert_eq!(session.solution.as_ref().unwrap().report.path.len(), 2);

    let mut session = EightQueensSession::default();
    session.take_report(path_report(vec![queens([0, 4, 7, 5, 2, 6, 1, 3])]));
    assert_eq!(session.status, "Solution ready (0 steps). Press Space to step.");
    assert_eq!(session.state, queens([0, 4, 7, 5, 2, 6, 1, 3]));
}

#[test]
fn sessions_drop_their_solution_on_a_report_without_a_path() {
    let start = board([1, 2, 3, 4, 5, 6, 7, 0, 8]);
    let mut session = EightPuzzleSession::starting_from(start);
    session.moves_made = 6;
    session.solution = Some(EightPuzzleSolution { report: path_report(vec![start]), step: 0 });
    let nothing: SearchReport<CustomGoalState> = SearchReport::default();
    session.take_report(nothing);
    assert!(session.solution.is_none());
    assert_eq!(session.status, "No solution found (should never happen).");
    assert_eq!(session.current, start);
    assert_eq!(session.moves_made, 6);
    // A report that claims a goal but carries no path counts as nothing found.
    let mut hollow: SearchReport<CustomGoalState> = SearchReport::default();
    hollow.goal_found = true;
    session.take_report(hollow);
    assert!(session.solution.is_none());
    // So does a path without the claim.
    let mut unclaimed =
        path_report(vec![CustomGoalState { state: start, goal: EightPuzzleState::default() }]);
    unclaimed.goal_found = false;
    session.take_report(unclaimed);
    assert!(session.solution.is_none());

    let mut session = MissionariesCannibalsSession::default();
    session.take_report(SearchReport::default());
    assert!(session.solution.is_none());
    assert_eq!(session.status, "No solution found.");
    assert_eq!(session.state, river(3, 3, true));

    let mut session = EightQueensSession::default();
    let mut timed_out: SearchReport<EightQueensState> = SearchReport::default();
    timed_out.expanded_nodes = 77;
    timed_out.elapsed = Elapsed { secs: 3600, nanos: 12 };
    session.take_report(timed_out);
    assert!(session.solution.is_none());
    assert_eq!(
        session.status,
        "Search timed out after 1 hour (77 nodes explored). The puzzle may be unsolvable from this state, or try shuffling (H)."
    );
    session.take_report(SearchReport::default());
    assert_eq!(
        session.status,
        "No valid moves available. Try shuffling (H) for a different starting state."
    );
}
