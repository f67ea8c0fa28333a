//! The generic search engine and the abstraction problems plug into.

pub mod clock;
pub mod course;
pub mod digest;
pub mod frontier;
pub mod solver;
pub mod state;
pub mod table;

pub use state::SearchState;
