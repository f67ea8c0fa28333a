//! The problems the engine is put to.

pub mod custom_goal;
pub mod eight_puzzle;
pub mod eight_queens;
pub mod missionaries_cannibals;
pub mod parity;
pub mod registry;
pub mod xor_tic_tac_toe;

pub use custom_goal::CustomGoalState;
pub use eight_puzzle::EightPuzzleState;
pub use eight_puzzle::SlideMove;
pub use eight_queens::EightQueensState;
pub use eight_queens::PlaceQueen;
pub use missionaries_cannibals::BoatMove;
pub use missionaries_cannibals::MissionariesCannibalsState;
pub use registry::PuzzleDescriptor;
pub use registry::PuzzleId;
pub use registry::PuzzleRegistry;
pub use xor_tic_tac_toe::Player;
pub use xor_tic_tac_toe::XorTicTacToeState;
pub use xor_tic_tac_toe::WINNING_LINES;
