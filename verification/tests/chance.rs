use puzzle_suite::puzzles::eight_puzzle::is_solvable;
use puzzle_suite::puzzles::eight_puzzle::EightPuzzleState;
use puzzle_suite::puzzles::eight_queens::EightQueensState;
use puzzle_suite::puzzles::missionaries_cannibals::MissionariesCannibalsState;
use puzzle_suite::puzzles::xor_tic_tac_toe::Player;
use puzzle_suite::search::solver::astar;
use puzzle_suite::search::state::SearchState;
use puzzle_suite::session::eight_puzzle::EightPuzzleSession;
use puzzle_suite::session::queens::scatter_queens;
use puzzle_suite::session::queens::EightQueensSession;
use puzzle_suite::session::river::MissionariesCannibalsSession;
use puzzle_suite::session::tic_tac_toe::XorTicTacToeSession;

fn is_arrangement(tiles: &[u8; 9]) -> bool {
    let mut sorted = *tiles;
    sorted.sort();
    sorted == [0, 1, 2, 3, 4, 5, 6, 7, 8]
}

#[test]
fn generated_boards_have_even_inversion_parity() {
    let mut rng = rand::thread_rng();
    let mut distinct: Vec<[u8; 9]> = Vec::new();
    for _ in 0..300 {
        let state = EightPuzzleState::random_solvable(&mut rng);
        assert!(is_solvable(&state.tiles));
        assert!(is_arrangement(&state.tiles));
        if !distinct.contains(&state.tiles) {
            distinct.push(state.tiles);
        }
    }
    // The tiles really are shuffled.
    assert!(distinct.len() > 100);
    assert!(distinct.iter().any(|tiles| *tiles != [1, 2, 3, 4, 5, 6, 7, 8, 0]));
}

#[test]
fn generated_boards_can_be_solved() {
    let mut rng = rand::thread_rng();
    for _ in 0..5 {
        let state = EightPuzzleState::random_solvable(&mut rng);
        let report = astar(state);
        assert!(report.goal_found);
        assert!(report.path.len() <= 32);
        assert!(report.visited_states >= report.expanded_nodes);
    }
}

#[test]
fn randomized_session_starts_on_a_solvable_board() {
    for _ in 0..50 {
        let session = EightPuzzleSession::randomized();
        assert!(is_solvable(&session.start.tiles));
        assert!(is_arrangement(&session.start.tiles));
        assert_eq!(session.current, session.start);
        assert_eq!(session.goal_state, EightPuzzleState::default());
        assert_eq!(session.moves_made, 0);
        assert_eq!(session.status, EightPuzzleSession::base_message());
        assert!(session.solution.is_none());
        assert!(!session.editing_goal);
    }
}

#[test]
fn new_board_replaces_start_and_current() {
    let mut session = EightPuzzleSession::starting_from(EightPuzzleState::default());
    session.moves_made = 3;
    session.selected_cell = 4;
    let mut changed = false;
    for _ in 0..20 {
        session.new_board();
        assert!(is_solvable(&session.start.tiles));
        assert!(is_arrangement(&session.start.tiles));
        assert_eq!(session.current, session.start);
        assert_eq!(session.moves_made, 0);
        assert_eq!(session.selected_cell, 0);
        assert_eq!(session.status, "Generated a new solvable board.");
        changed = changed || session.start != EightPuzzleState::default();
    }
    assert!(changed);
}

#[test]
fn sliding_shuffle_hits_the_board_under_edit() {
    let start = EightPuzzleState { tiles: [1, 2, 3, 4, 5, 6, 7, 0, 8] };
    let mut session = EightPuzzleSession::starting_from(start);
    session.moves_made = 3;
    session.shuffle();
    assert!(is_solvable(&session.current.tiles));
    assert!(is_arrangement(&session.current.tiles));
    assert_eq!(session.start, start);
    assert_eq!(session.goal_state, EightPuzzleState::default());
    assert_eq!(session.moves_made, 0);
    assert_eq!(session.status, "Board shuffled randomly.");
    let current = session.current;
    session.toggle_editing_goal();
    session.moves_made = 2;
    session.shuffle();
    assert!(is_solvable(&session.goal_state.tiles));
    assert!(is_arrangement(&session.goal_state.tiles));
    assert_eq!(session.current, current);
    assert_eq!(session.moves_made, 2);
    assert_eq!(session.status, "Goal board shuffled randomly.");
}

#[test]
fn river_shuffle_draws_valid_shores() {
    let mut session = MissionariesCannibalsSession::default();
    let mut seen: Vec<MissionariesCannibalsState> = Vec::new();
    for _ in 0..300 {
        session.selected_move = 2;
        session.shuffle();
        assert!(session.state.is_valid());
        assert!(!session.state.is_goal());
        assert!(session.solution.is_none());
        assert_eq!(session.selected_move, 0);
        assert_eq!(
            session.status,
            format!(
                "Shuffled: Left M={} C={}, Boat on {}",
                session.state.left_m,
                session.state.left_c,
                if session.state.boat_left { "left" } else { "right" }
            )
        );
        if !seen.contains(&session.state) {
            seen.push(session.state);
        }
    }
    // The draws cover the range and both sides of the river.
    assert!(seen.iter().any(|s| s.left_m == 3));
    assert!(seen.iter().any(|s| s.left_m == 0));
    assert!(seen.iter().any(|s| s.left_c == 3));
    assert!(seen.iter().any(|s| s.left_c == 0));
    assert!(seen.iter().any(|s| s.boat_left));
    assert!(seen.iter().any(|s| !s.boat_left));
    assert!(seen.len() >= 10);
}

#[test]
fn three_in_a_row_shuffle_scatters_up_to_four_marks() {
    let mut session = XorTicTacToeSession::default();
    session.setup_mode = true;
    let mut counts = [0usize; 5];
    let mut cells_hit = [false; 9];
    for _ in 0..400 {
        session.shuffle();
        let xs = session.state.cells.iter().filter(|c| **c == Some(Player::X)).count();
        let os = session.state.cells.iter().filter(|c| **c == Some(Player::O)).count();
        assert!(xs + os <= 4);
        assert!(xs == os || xs == os + 1);
        assert_eq!(session.state.to_move, if xs <= os { Player::X } else { Player::O });
        assert_eq!(session.cursor, 4);
        assert_eq!(session.status, "Board shuffled randomly.");
        assert!(session.setup_mode);
        counts[xs + os] += 1;
        for (i, cell) in session.state.cells.iter().enumerate() {
            cells_hit[i] = cells_hit[i] || cell.is_some();
        }
    }
    assert!(counts.iter().all(|n| *n > 0));
    assert!(cells_hit.iter().all(|hit| *hit));
}

#[test]
fn scattered_queens_do_not_attack_each_other() {
    let mut rng = rand::thread_rng();
    let mut counts = [0usize; 9];
    let mut boards: Vec<EightQueensState> = Vec::new();
    for _ in 0..300 {
        let board = scatter_queens(&mut rng);
        let placed = board.queens.iter().filter(|q| q.is_some()).count();
        assert!((1..=4).contains(&placed));
        assert!(board.queens.iter().all(|q| q.map_or(true, |col| col < 8)));
        assert_eq!(board.count_conflicts(), 0);
        counts[placed] += 1;
        if !boards.contains(&board) {
            boards.push(board);
        }
    }
    assert!(counts[1] > 0 && counts[2] > 0 && counts[3] > 0 && counts[4] > 0);
    assert!(boards.len() > 50);
}

#[test]
fn queens_shuffle_leaves_a_board_to_go_on_from() {
    let mut session = EightQueensSession::default();
    session.selected_row = 3;
    session.selected_col = 6;
    for _ in 0..200 {
        session.shuffle();
        let placed = session.state.queens.iter().filter(|q| q.is_some()).count();
        assert!((1..=4).contains(&placed));
        assert!(session.solution.is_none());
        assert_eq!((session.selected_row, session.selected_col), (3, 6));
        assert_eq!(session.state.count_conflicts(), 0);
        if session.status == "Shuffled: 1 queen placed. State is solvable." {
            assert_eq!(placed, 1);
        } else {
            assert!(!session.state.successors().is_empty());
            assert_eq!(
                session.status,
                format!("Shuffled: {} queens placed with no conflicts. State is solvable.", placed)
            );
        }
    }
}
