use puzzle_suite::puzzles::eight_puzzle::cell_of;
use puzzle_suite::puzzles::eight_puzzle::exchange_cells;
use puzzle_suite::puzzles::eight_puzzle::is_solvable;
use puzzle_suite::puzzles::eight_puzzle::same_tiles;
use puzzle_suite::puzzles::eight_puzzle::set_tile;
use puzzle_suite::puzzles::eight_puzzle::EightPuzzleState;
use puzzle_suite::puzzles::eight_puzzle::SlideMove;
use puzzle_suite::puzzles::eight_puzzle::GOAL;
use puzzle_suite::puzzles::eight_queens::EightQueensState;
use puzzle_suite::puzzles::eight_queens::PlaceQueen;
use puzzle_suite::puzzles::missionaries_cannibals::all_cargoes;
use puzzle_suite::puzzles::missionaries_cannibals::BoatMove;
use puzzle_suite::puzzles::missionaries_cannibals::MissionariesCannibalsState;
use puzzle_suite::puzzles::registry::PuzzleDescriptor;
use puzzle_suite::puzzles::registry::PuzzleId;
use puzzle_suite::puzzles::registry::PuzzleRegistry;
use puzzle_suite::puzzles::xor_tic_tac_toe::mark_cell;
use puzzle_suite::puzzles::xor_tic_tac_toe::Player;
use puzzle_suite::puzzles::xor_tic_tac_toe::XorTicTacToeState;
use puzzle_suite::puzzles::xor_tic_tac_toe::WINNING_LINES;
use puzzle_suite::search::solver::astar;
use puzzle_suite::search::state::SearchState;

fn board(tiles: [u8; 9]) -> EightPuzzleState {
    EightPuzzleState { tiles }
}

fn river(left_m: u8, left_c: u8, boat_left: bool) -> MissionariesCannibalsState {
    MissionariesCannibalsState { left_m, left_c, boat_left }
}

fn cargo(missionaries: u8, cannibals: u8) -> BoatMove {
    BoatMove { missionaries, cannibals }
}

fn queens(cols: [i8; 8]) -> EightQueensState {
    let mut queens = [None; 8];
    for (row, col) in cols.iter().enumerate() {
        if *col >= 0 {
            queens[row] = Some(*col as u8);
        }
    }
    EightQueensState { queens }
}

fn marks(text: &str, to_move: Player) -> XorTicTacToeState {
    let mut cells = [None; 9];
    for (i, ch) in text.chars().enumerate() {
        cells[i] = match ch {
            'X' => Some(Player::X),
            'O' => Some(Player::O),
            _ => None,
        };
    }
    XorTicTacToeState { cells, to_move }
}

#[test]
fn solved_board_is_the_default() {
    assert_eq!(EightPuzzleState::default().tiles, [1, 2, 3, 4, 5, 6, 7, 8, 0]);
    assert_eq!(GOAL, [1, 2, 3, 4, 5, 6, 7, 8, 0]);
    assert!(EightPuzzleState::default().is_goal());
    assert!(!board([1, 2, 3, 4, 5, 6, 7, 0, 8]).is_goal());
}

#[test]
fn slide_labels() {
    assert_eq!(SlideMove::Up.label(), "Up");
    assert_eq!(SlideMove::Down.label(), "Down");
    assert_eq!(SlideMove::Left.label(), "Left");
    assert_eq!(SlideMove::Right.label(), "Right");
}

#[test]
fn blank_is_the_first_zero() {
    assert_eq!(board([1, 2, 3, 4, 5, 6, 7, 8, 0]).blank_index(), 8);
    assert_eq!(board([0, 2, 3, 4, 5, 6, 7, 8, 1]).blank_index(), 0);
    assert_eq!(board([1, 2, 3, 4, 0, 6, 7, 8, 5]).blank_index(), 4);
    assert_eq!(board([1, 0, 3, 0, 5, 6, 7, 8, 0]).blank_index(), 1);
}

#[test]
fn board_without_blank_takes_the_last_cell() {
    assert_eq!(board([1, 2, 3, 4, 5, 6, 7, 8, 9]).blank_index(), 8);
}

#[test]
fn manhattan_distance_values() {
    assert_eq!(board([1, 2, 3, 4, 5, 6, 7, 8, 0]).manhattan_distance(), 0);
    assert_eq!(board([1, 2, 3, 4, 5, 6, 7, 0, 8]).manhattan_distance(), 1);
    assert_eq!(board([4, 1, 2, 7, 0, 3, 8, 5, 6]).manhattan_distance(), 8);
    assert_eq!(board([8, 6, 7, 2, 5, 4, 3, 0, 1]).manhattan_distance(), 21);
    assert_eq!(board([3, 1, 2, 0, 4, 5, 6, 7, 8]).manhattan_distance(), 11);
    assert_eq!(board([0; 9]).manhattan_distance(), 0);
    assert_eq!(board([9; 9]).manhattan_distance(), 18);
    assert_eq!(board([255; 9]).manhattan_distance(), 756);
    assert_eq!(SearchState::heuristic(&board([4, 1, 2, 7, 0, 3, 8, 5, 6])), 8);
}

#[test]
fn moves_from_the_centre() {
    let centre = board([1, 2, 3, 4, 0, 5, 6, 7, 8]);
    assert_eq!(centre.apply_move(SlideMove::Up), Some(board([1, 0, 3, 4, 2, 5, 6, 7, 8])));
    assert_eq!(centre.apply_move(SlideMove::Down), Some(board([1, 2, 3, 4, 7, 5, 6, 0, 8])));
    assert_eq!(centre.apply_move(SlideMove::Left), Some(board([1, 2, 3, 0, 4, 5, 6, 7, 8])));
    assert_eq!(centre.apply_move(SlideMove::Right), Some(board([1, 2, 3, 4, 5, 0, 6, 7, 8])));
}

#[test]
fn moves_off_the_grid_are_refused() {
    let top_left = board([0, 1, 2, 3, 4, 5, 6, 7, 8]);
    assert_eq!(top_left.apply_move(SlideMove::Up), None);
    assert_eq!(top_left.apply_move(SlideMove::Left), None);
    assert!(top_left.apply_move(SlideMove::Down).is_some());
    assert!(top_left.apply_move(SlideMove::Right).is_some());
    let bottom_right = board([1, 2, 3, 4, 5, 6, 7, 8, 0]);
    assert_eq!(bottom_right.apply_move(SlideMove::Down), None);
    assert_eq!(bottom_right.apply_move(SlideMove::Right), None);
    assert_eq!(
        bottom_right.apply_move(SlideMove::Up),
        Some(board([1, 2, 3, 4, 5, 0, 7, 8, 6]))
    );
    assert_eq!(
        bottom_right.apply_move(SlideMove::Left),
        Some(board([1, 2, 3, 4, 5, 6, 7, 0, 8]))
    );
    // The right edge of the middle row does not wrap into the next row.
    assert_eq!(board([1, 2, 3, 4, 5, 0, 6, 7, 8]).apply_move(SlideMove::Right), None);
    assert_eq!(board([1, 2, 3, 0, 4, 5, 6, 7, 8]).apply_move(SlideMove::Left), None);
}

#[test]
fn sliding_successors_in_order() {
    let centre = board([1, 2, 3, 4, 0, 5, 6, 7, 8]);
    let next = centre.successors();
    let labels: Vec<&str> = next.iter().map(|(mv, _)| mv.label()).collect();
    assert_eq!(labels, vec!["Up", "Down", "Left", "Right"]);
    for (mv, state) in next.iter() {
        assert_eq!(Some(*state), centre.apply_move(*mv));
    }
    let corner = board([1, 2, 3, 4, 5, 6, 7, 8, 0]);
    let labels: Vec<&str> = corner.successors().iter().map(|(mv, _)| mv.label()).collect();
    assert_eq!(labels, vec!["Up", "Left"]);
    let edge = board([1, 0, 2, 3, 4, 5, 6, 7, 8]);
    let labels: Vec<&str> = edge.successors().iter().map(|(mv, _)| mv.label()).collect();
    assert_eq!(labels, vec!["Down", "Left", "Right"]);
}

#[test]
fn inversion_parity_decides_solvability() {
    assert!(is_solvable(&[1, 2, 3, 4, 5, 6, 7, 8, 0]));
    assert!(is_solvable(&[1, 2, 3, 4, 5, 6, 7, 0, 8]));
    assert!(is_solvable(&[8, 6, 7, 2, 5, 4, 3, 0, 1]));
    assert!(is_solvable(&[4, 1, 2, 7, 0, 3, 8, 5, 6]));
    assert!(!is_solvable(&[1, 2, 3, 4, 5, 6, 8, 7, 0]));
    assert!(!is_solvable(&[2, 1, 3, 4, 5, 6, 7, 8, 0]));
    assert!(!is_solvable(&[0, 2, 1, 3, 4, 5, 6, 7, 8]));
}

#[test]
fn solvability_agrees_with_the_search_on_near_goal_boards() {
    let boards = [
        [1u8, 2, 3, 4, 5, 6, 0, 7, 8],
        [1, 2, 3, 4, 0, 6, 7, 5, 8],
        [1, 2, 3, 0, 4, 6, 7, 5, 8],
    ];
    for tiles in boards.iter() {
        assert!(is_solvable(tiles));
        assert!(astar(board(*tiles)).goal_found);
    }
}

#[test]
fn tile_helpers() {
    let tiles = [1u8, 2, 3, 4, 5, 6, 7, 8, 0];
    assert_eq!(exchange_cells(&tiles, 0, 8), [0, 2, 3, 4, 5, 6, 7, 8, 1]);
    assert_eq!(exchange_cells(&tiles, 3, 3), tiles);
    assert_eq!(set_tile(&tiles, 8, 9), [1, 2, 3, 4, 5, 6, 7, 8, 9]);
    assert_eq!(cell_of(&tiles, 0), Some(8));
    assert_eq!(cell_of(&tiles, 1), Some(0));
    assert_eq!(cell_of(&tiles, 9), None);
    assert_eq!(cell_of(&[7u8; 9], 7), Some(0));
    assert!(same_tiles(&tiles, &GOAL));
    assert!(!same_tiles(&tiles, &[1, 2, 3, 4, 5, 6, 7, 0, 8]));
}

#[test]
fn sliding_board_as_text() {
    assert_eq!(
        board([1, 2, 3, 4, 5, 6, 7, 8, 0]).to_string(),
        " 1  2  3 \n 4  5  6 \n 7  8    "
    );
    assert_eq!(
        board([10, 0, 200, 4, 5, 6, 7, 8, 9]).to_string(),
        "10    200 \n 4  5  6 \n 7  8  9 "
    );
}

#[test]
fn sliding_states_compare_by_value() {
    let a = board([1, 2, 3, 4, 5, 6, 7, 0, 8]);
    let b = board([1, 2, 3, 4, 5, 6, 7, 0, 8]);
    let c = board([1, 2, 3, 4, 5, 6, 0, 7, 8]);
    assert!(a.same(&b));
    assert!(!a.same(&c));
    assert_eq!(a.fingerprint(), b.fingerprint());
    assert_ne!(a.fingerprint(), c.fingerprint());
    assert_eq!(a.duplicate(), a);
}

#[test]
fn canonical_river_start() {
    let start = MissionariesCannibalsState::default();
    assert_eq!(start, river(3, 3, true));
    assert!(start.is_valid());
    assert!(!start.is_goal());
    assert_eq!(start.heuristic(), 6);
}

#[test]
fn shore_validity() {
    assert!(river(3, 3, true).is_valid());
    assert!(river(0, 0, false).is_valid());
    assert!(river(3, 0, true).is_valid());
    assert!(river(0, 3, false).is_valid());
    assert!(river(2, 2, true).is_valid());
    assert!(river(1, 1, false).is_valid());
    assert!(river(3, 2, true).is_valid());
    // Outnumbered on the starting shore.
    assert!(!river(1, 2, true).is_valid());
    assert!(!river(2, 3, true).is_valid());
    assert!(!river(1, 3, false).is_valid());
    // Outnumbered on the far shore.
    assert!(!river(2, 1, true).is_valid());
    assert!(!river(1, 0, false).is_valid());
    assert!(!river(2, 0, true).is_valid());
}

#[test]
fn counters_beyond_three_are_invalid() {
    assert!(!river(4, 3, true).is_valid());
    assert!(!river(3, 4, true).is_valid());
    assert!(!river(255, 255, false).is_valid());
    assert_eq!(river(255, 255, false).heuristic(), 510);
    assert_eq!(river(4, 0, false).apply_move(cargo(0, 1)), None);
    assert_eq!(river(5, 5, true).apply_move(cargo(1, 1)), None);
}

#[test]
fn crossings_from_the_start() {
    let start = river(3, 3, true);
    assert_eq!(start.apply_move(cargo(1, 0)), None);
    assert_eq!(start.apply_move(cargo(2, 0)), None);
    assert_eq!(start.apply_move(cargo(0, 1)), Some(river(3, 2, false)));
    assert_eq!(start.apply_move(cargo(0, 2)), Some(river(3, 1, false)));
    assert_eq!(start.apply_move(cargo(1, 1)), Some(river(2, 2, false)));
}

#[test]
fn crossings_back_to_the_start_shore() {
    let far = river(2, 2, false);
    assert_eq!(far.apply_move(cargo(1, 0)), Some(river(3, 2, true)));
    assert_eq!(far.apply_move(cargo(1, 1)), Some(river(3, 3, true)));
    assert_eq!(far.apply_move(cargo(0, 1)), None);
    assert_eq!(far.apply_move(cargo(2, 0)), None);
    assert_eq!(far.apply_move(cargo(0, 2)), None);
}

#[test]
fn cargo_must_fit_the_boat_and_be_present() {
    let start = river(3, 3, true);
    assert_eq!(start.apply_move(cargo(0, 0)), None);
    assert_eq!(start.apply_move(cargo(2, 1)), None);
    assert_eq!(start.apply_move(cargo(0, 3)), None);
    assert_eq!(start.apply_move(cargo(200, 100)), None);
    assert_eq!(start.apply_move(cargo(255, 255)), None);
    assert_eq!(river(3, 0, true).apply_move(cargo(0, 1)), None);
    assert_eq!(river(0, 2, true).apply_move(cargo(1, 0)), None);
    assert_eq!(river(3, 3, false).apply_move(cargo(0, 1)), None);
    assert_eq!(river(0, 1, true).apply_move(cargo(0, 1)), Some(river(0, 0, false)));
}

#[test]
fn river_successors_in_order() {
    let next = river(3, 3, true).successors();
    let moves: Vec<(u8, u8)> = next.iter().map(|(mv, _)| (mv.missionaries, mv.cannibals)).collect();
    assert_eq!(moves, vec![(0, 1), (0, 2), (1, 1)]);
    let states: Vec<MissionariesCannibalsState> = next.iter().map(|(_, s)| *s).collect();
    assert_eq!(states, vec![river(3, 2, false), river(3, 1, false), river(2, 2, false)]);
    // The goal itself still has crossings back; the engine never asks for them.
    let back: Vec<MissionariesCannibalsState> =
        river(0, 0, false).successors().iter().map(|(_, s)| *s).collect();
    assert_eq!(back, vec![river(0, 1, true), river(0, 2, true), river(1, 1, true)]);
    assert!(river(3, 3, false).successors().is_empty());
    let list: Vec<(u8, u8)> =
        all_cargoes().iter().map(|mv| (mv.missionaries, mv.cannibals)).collect();
    assert_eq!(list, vec![(1, 0), (2, 0), (0, 1), (0, 2), (1, 1)]);
}

#[test]
fn river_successors_are_valid_and_cross() {
    for left_m in 0..=3u8 {
        for left_c in 0..=3u8 {
            for boat_left in [true, false] {
                let state = river(left_m, left_c, boat_left);
                for (_, next) in state.successors() {
                    assert!(next.is_valid());
                    assert_ne!(next.boat_left, boat_left);
                }
            }
        }
    }
}

#[test]
fn river_goal_and_estimate() {
    assert!(river(0, 0, false).is_goal());
    assert!(!river(0, 0, true).is_goal());
    assert!(!river(0, 1, false).is_goal());
    assert!(!river(1, 0, false).is_goal());
    assert_eq!(river(0, 0, false).heuristic(), 0);
    assert_eq!(river(2, 1, true).heuristic(), 3);
    assert_eq!(SearchState::heuristic(&river(1, 1, false)), 2);
}

#[test]
fn river_state_as_text() {
    assert_eq!(
        river(3, 3, true).to_string(),
        "Left:  M=3 C=3\nRight: M=0 C=0\nBoat:  Left\n"
    );
    assert_eq!(
        river(1, 0, false).to_string(),
        "Left:  M=1 C=0\nRight: M=2 C=3\nBoat:  Right\n"
    );
}

#[test]
fn river_states_compare_by_value() {
    assert!(river(3, 2, true).same(&river(3, 2, true)));
    assert!(!river(3, 2, true).same(&river(3, 2, false)));
    assert!(!river(3, 2, true).same(&river(2, 3, true)));
    assert_eq!(river(3, 2, true).fingerprint(), (3 * 131 + 2) * 131 + 1);
    assert_eq!(river(0, 0, false).fingerprint(), 0);
}

#[test]
fn empty_queens_board() {
    let empty = EightQueensState::default();
    assert_eq!(empty.queens, [None; 8]);
    assert_eq!(empty.count_conflicts(), 0);
    assert_eq!(empty.count_missing(), 8);
    assert_eq!(empty.first_empty_row(), Some(0));
    assert_eq!(SearchState::heuristic(&empty), 8);
    assert!(!empty.is_goal());
    assert_eq!(empty.successors().len(), 8);
}

#[test]
fn squares_under_attack() {
    let one = queens([-1, -1, 3, -1, -1, -1, -1, -1]);
    // Same column.
    assert!(!one.is_valid_placement(0, 3));
    assert!(!one.is_valid_placement(7, 3));
    // Diagonals.
    assert!(!one.is_valid_placement(0, 1));
    assert!(!one.is_valid_placement(0, 5));
    assert!(!one.is_valid_placement(5, 0));
    assert!(!one.is_valid_placement(5, 6));
    assert!(!one.is_valid_placement(1, 2));
    // Its own square.
    assert!(!one.is_valid_placement(2, 3));
    // The rest of its own row is not guarded.
    assert!(one.is_valid_placement(2, 0));
    // Free squares.
    assert!(one.is_valid_placement(0, 0));
    assert!(one.is_valid_placement(4, 0));
    assert!(one.is_valid_placement(7, 7));
    assert!(EightQueensState::default().is_valid_placement(200, 200));
}

#[test]
fn conflict_counts() {
    assert_eq!(queens([0, 0, 0, 0, 0, 0, 0, 0]).count_conflicts(), 7);
    assert_eq!(queens([0, 1, 2, 3, 4, 5, 6, 7]).count_conflicts(), 28);
    assert_eq!(queens([0, 4, 7, 5, 2, 6, 1, 3]).count_conflicts(), 0);
    assert_eq!(queens([-1, -1, 3, -1, -1, 3, -1, -1]).count_conflicts(), 1);
    assert_eq!(queens([0, -1, -1, -1, -1, -1, -1, -1]).count_conflicts(), 0);
    assert_eq!(queens([0, 1, -1, -1, -1, -1, -1, -1]).count_conflicts(), 1);
}

#[test]
fn queens_estimates() {
    assert_eq!(SearchState::heuristic(&queens([0, 0, 0, 0, 0, 0, 0, 0])), 7);
    assert_eq!(SearchState::heuristic(&queens([0, 1, 2, 3, 4, 5, 6, 7])), 28);
    assert_eq!(SearchState::heuristic(&queens([0, -1, -1, -1, -1, -1, -1, -1])), 7);
    assert_eq!(SearchState::heuristic(&queens([0, 2, -1, -1, -1, -1, -1, -1])), 6);
    // One row left with a single free square.
    assert_eq!(SearchState::heuristic(&queens([0, 2, 4, 6, -1, -1, -1, -1])), 6);
    // One row left without a free square.
    assert_eq!(SearchState::heuristic(&queens([0, 2, 4, 1, -1, -1, -1, -1])), 14);
    // Three rows left without a free square.
    assert_eq!(SearchState::heuristic(&queens([0, 2, 4, 1, 3, -1, -1, -1])), 33);
    assert_eq!(SearchState::heuristic(&queens([1, 3, 0, 2, -1, -1, -1, -1])), 8);
}

#[test]
fn placing_queens() {
    let empty = EightQueensState::default();
    assert_eq!(
        empty.apply_placement(PlaceQueen { row: 0, col: 0 }),
        Some(queens([0, -1, -1, -1, -1, -1, -1, -1]))
    );
    assert_eq!(
        empty.apply_placement(PlaceQueen { row: 7, col: 7 }),
        Some(queens([-1, -1, -1, -1, -1, -1, -1, 7]))
    );
    assert_eq!(empty.apply_placement(PlaceQueen { row: 8, col: 0 }), None);
    assert_eq!(empty.apply_placement(PlaceQueen { row: 0, col: 8 }), None);
    assert_eq!(empty.apply_placement(PlaceQueen { row: 255, col: 255 }), None);
    let one = queens([0, -1, -1, -1, -1, -1, -1, -1]);
    assert_eq!(one.apply_placement(PlaceQueen { row: 1, col: 0 }), None);
    assert_eq!(one.apply_placement(PlaceQueen { row: 1, col: 1 }), None);
    assert_eq!(
        one.apply_placement(PlaceQueen { row: 1, col: 2 }),
        Some(queens([0, 2, -1, -1, -1, -1, -1, -1]))
    );
}

#[test]
fn removing_queens() {
    let two = queens([0, 2, -1, -1, -1, -1, -1, -1]);
    assert_eq!(two.remove_queen(1), queens([0, -1, -1, -1, -1, -1, -1, -1]));
    assert_eq!(two.remove_queen(0), queens([-1, 2, -1, -1, -1, -1, -1, -1]));
    assert_eq!(two.remove_queen(5), two);
    assert_eq!(two.remove_queen(8), two);
    assert_eq!(two.remove_queen(255), two);
}

#[test]
fn queens_successors_fill_the_first_empty_row() {
    let one = queens([0, -1, -1, -1, -1, -1, -1, -1]);
    let next = one.successors();
    let squares: Vec<(u8, u8)> = next.iter().map(|(mv, _)| (mv.row, mv.col)).collect();
    assert_eq!(squares, vec![(1, 2), (1, 3), (1, 4), (1, 5), (1, 6), (1, 7)]);
    for (mv, state) in next.iter() {
        assert_eq!(state.queens[1], Some(mv.col));
        assert_eq!(state.queens[0], Some(0));
    }
    let gap = queens([-1, 2, -1, -1, -1, -1, -1, -1]);
    assert!(gap.successors().iter().all(|(mv, _)| mv.row == 0));
    assert_eq!(gap.first_empty_row(), Some(0));
    assert!(queens([0, 4, 7, 5, 2, 6, 1, 3]).successors().is_empty());
    assert_eq!(queens([0, 4, 7, 5, 2, 6, 1, 3]).first_empty_row(), None);
}

#[test]
fn queens_dead_end_is_expanded_once() {
    let stuck = queens([0, 2, 4, 1, 3, -1, -1, -1]);
    assert!(stuck.successors().is_empty());
    assert!(!stuck.is_goal());
    let report = astar(stuck);
    assert!(!report.goal_found);
    assert!(report.path.is_empty());
    assert_eq!(report.expanded_nodes, 1);
    assert_eq!(report.visited_states, 1);
}

#[test]
fn full_board_with_conflicts_is_no_goal() {
    assert!(!queens([0, 1, 2, 3, 4, 5, 6, 7]).is_goal());
    assert!(!queens([0, 4, 7, 5, 2, 6, 1, -1]).is_goal());
    assert!(queens([0, 4, 7, 5, 2, 6, 1, 3]).is_goal());
}

#[test]
fn queens_board_as_text() {
    let text = queens([0, -1, 7, -1, -1, -1, -1, 3]).to_string();
    let lines: Vec<&str> = text.split('\n').collect();
    assert_eq!(
        lines,
        vec![
            "Q . . . . . . . ",
            ". . . . . . . . ",
            ". . . . . . . Q ",
            ". . . . . . . . ",
            ". . . . . . . . ",
            ". . . . . . . . ",
            ". . . . . . . . ",
            ". . . Q . . . . ",
        ]
    );
}

#[test]
fn queens_states_compare_by_value() {
    let a = queens([0, 2, -1, -1, -1, -1, -1, -1]);
    let b = queens([0, 2, -1, -1, -1, -1, -1, -1]);
    let c = queens([0, -1, 2, -1, -1, -1, -1, -1]);
    assert!(a.same(&b));
    assert!(!a.same(&c));
    assert!(!a.same(&queens([0, 3, -1, -1, -1, -1, -1, -1])));
    assert_eq!(a.fingerprint(), b.fingerprint());
    assert_ne!(a.fingerprint(), c.fingerprint());
}

#[test]
fn players_alternate() {
    assert_eq!(Player::X.opponent(), Player::O);
    assert_eq!(Player::O.opponent(), Player::X);
}

#[test]
fn every_line_wins() {
    assert_eq!(WINNING_LINES.len(), 8);
    for line in WINNING_LINES.iter() {
        let mut cells = [None; 9];
        for cell in line.iter() {
            cells[*cell] = Some(Player::O);
        }
        let state = XorTicTacToeState { cells, to_move: Player::X };
        assert_eq!(state.winner(), Some(Player::O));
        assert!(!state.is_goal());
        assert_eq!(state.heuristic(), 100);
        assert!(state.successors().is_empty());
    }
}

#[test]
fn winner_needs_three_equal_marks() {
    assert_eq!(XorTicTacToeState::default().winner(), None);
    assert_eq!(marks("XXO......", Player::X).winner(), None);
    assert_eq!(marks("XX.......", Player::X).winner(), None);
    assert_eq!(marks("XXX......", Player::O).winner(), Some(Player::X));
    assert_eq!(marks("X...X...X", Player::O).winner(), Some(Player::X));
    assert_eq!(marks("..O.O.O..", Player::X).winner(), Some(Player::O));
    // Of two owned lines the earlier one in the list decides.
    assert_eq!(marks("XXXOOO...", Player::X).winner(), Some(Player::X));
    assert_eq!(marks("OOOXXX...", Player::X).winner(), Some(Player::O));
}

#[test]
fn full_boards() {
    assert!(!XorTicTacToeState::default().is_full());
    assert!(!marks("XOXXOOOX.", Player::X).is_full());
    assert!(marks("XOXXOOOXX", Player::O).is_full());
}

#[test]
fn three_in_a_row_estimates() {
    assert_eq!(XorTicTacToeState::default().heuristic(), 2);
    assert_eq!(marks("....X....", Player::O).heuristic(), 0);
    assert_eq!(marks("....O....", Player::X).heuristic(), 4);
    assert_eq!(marks("XXX.O....", Player::O).heuristic(), 0);
    assert_eq!(marks("OOO.X....", Player::X).heuristic(), 100);
    assert!(marks("XXX.O....", Player::O).is_goal());
}

#[test]
fn marking_successors() {
    let start = XorTicTacToeState::default();
    let next = start.successors();
    let cells: Vec<usize> = next.iter().map(|(mv, _)| mv.index).collect();
    assert_eq!(cells, vec![0, 1, 2, 3, 4, 5, 6, 7, 8]);
    for (mv, state) in next.iter() {
        assert_eq!(state.cells[mv.index], Some(Player::X));
        assert_eq!(state.to_move, Player::O);
        assert_eq!(state.cells.iter().filter(|c| c.is_some()).count(), 1);
    }
    let later = marks("XO..X....", Player::O);
    let next = later.successors();
    let cells: Vec<usize> = next.iter().map(|(mv, _)| mv.index).collect();
    assert_eq!(cells, vec![2, 3, 5, 6, 7, 8]);
    assert!(next.iter().all(|(mv, s)| s.cells[mv.index] == Some(Player::O)));
    assert!(next.iter().all(|(_, s)| s.to_move == Player::X));
    assert!(marks("XOXXOOOXX", Player::O).successors().is_empty());
}

#[test]
fn marking_a_cell() {
    let empty = [None; 9];
    let one = mark_cell(&empty, 4, Some(Player::X));
    assert_eq!(one[4], Some(Player::X));
    assert_eq!(one.iter().filter(|c| c.is_some()).count(), 1);
    assert_eq!(mark_cell(&one, 4, None), empty);
}

#[test]
fn three_in_a_row_states_compare_by_value() {
    let a = marks("XO.......", Player::X);
    assert!(a.same(&marks("XO.......", Player::X)));
    assert!(!a.same(&marks("XO.......", Player::O)));
    assert!(!a.same(&marks("OX.......", Player::X)));
    assert!(!a.same(&marks("X........", Player::X)));
    assert_eq!(a.fingerprint(), marks("XO.......", Player::X).fingerprint());
    assert_ne!(a.fingerprint(), marks("XO.......", Player::O).fingerprint());
}

#[test]
fn registry_lists_five_entries() {
    let registry = PuzzleRegistry::initialize();
    let names: Vec<&str> = registry.descriptors.iter().map(|d| d.name).collect();
    assert_eq!(
        names,
        vec![
            "8-Puzzle Solver",
            "XOR Tic-Tac-Toe",
            "Missionaries & Cannibals",
            "8 Queens Problem",
            "About This Program",
        ]
    );
    let ids: Vec<PuzzleId> = registry.descriptors.iter().map(|d| d.id).collect();
    assert_eq!(
        ids,
        vec![
            PuzzleId::EightPuzzle,
            PuzzleId::XorTicTacToe,
            PuzzleId::MissionariesCannibals,
            PuzzleId::EightQueens,
            PuzzleId::About,
        ]
    );
    assert_eq!(
        registry.descriptors[0].summary,
        "Slide tiles into place, observe heuristic-driven search stats."
    );
    assert_eq!(
        registry.descriptors[4].summary,
        "Learn about this AI Puzzle Suite, the A* algorithm, and acknowledgments."
    );
    assert_eq!(PuzzleRegistry::default().descriptors.len(), 5);
}

#[test]
fn registry_finds_descriptors() {
    let mut registry = PuzzleRegistry::initialize();
    assert_eq!(
        registry.descriptor(PuzzleId::EightQueens).map(|d| d.name),
        Some("8 Queens Problem")
    );
    assert_eq!(
        registry.descriptor(PuzzleId::About).map(|d| d.name),
        Some("About This Program")
    );
    registry.descriptors.remove(4);
    assert!(registry.descriptor(PuzzleId::About).is_none());
    registry.descriptors.push(PuzzleDescriptor {
        id: PuzzleId::EightPuzzle,
        name: "again",
        summary: "",
    });
    assert_eq!(
        registry.descriptor(PuzzleId::EightPuzzle).map(|d| d.name),
        Some("8-Puzzle Solver")
    );
}

#[test]
fn registry_defaults() {
    assert_eq!(PuzzleId::default(), PuzzleId::EightPuzzle);
    let descriptor = PuzzleDescriptor::default();
    assert_eq!(descriptor.id, PuzzleId::EightPuzzle);
    assert_eq!(descriptor.name, "8-Puzzle Solver");
    assert_eq!(
        descriptor.summary,
        "Classic sliding puzzle solved with A* and Manhattan heuristic."
    );
}

#[test]
fn placements_from_a_peaceful_board_stay_peaceful() {
    let mut layer = vec![EightQueensState::default()];
    for _ in 0..3 {
        let mut next = Vec::new();
        for state in layer.iter() {
            for (_, placed) in state.successors() {
                assert_eq!(placed.count_conflicts(), 0);
                next.push(placed);
            }
        }
        layer = next;
    }
    assert!(layer.len() > 100);
}
