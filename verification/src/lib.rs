//! A suite of classic puzzles solved by best-first state-space search.
//!
//! [`search`] holds the generic A* engine and the capability contract a
//! problem state has to meet; every guarantee the engine gives is stated over
//! the mathematical model that contract exposes. [`puzzles`] defines the four
//! problems the engine is put to, [`session`] the interactive sessions built
//! on them, down to what each key press means. [`random`] and [`text`] serve
//! the sessions with random draws and status lines.

pub mod puzzles;
pub mod random;
pub mod search;
pub mod session;
pub mod text;
