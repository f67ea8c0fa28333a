//! Interactive sessions: one per puzzle, each holding a board, a selection, a
//! status line and, once solved, the solution to step through.

pub mod app;
pub mod cursor;
pub mod eight_puzzle;
pub mod keys;
pub mod queens;
pub mod river;
pub mod tic_tac_toe;

pub use app::App;
pub use app::AppRoute;
pub use eight_puzzle::EightPuzzleSession;
pub use eight_puzzle::EightPuzzleSolution;
pub use queens::EightQueensSession;
pub use queens::EightQueensSolution;
pub use river::MissionariesCannibalsSession;
pub use river::MissionariesCannibalsSolution;
pub use tic_tac_toe::XorTicTacToeSession;
