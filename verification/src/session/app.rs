//! The application state: which screen is shown, and the four sessions.

use crate::puzzles::registry::PuzzleId;
use crate::puzzles::registry::PuzzleRegistry;
use crate::session::eight_puzzle::EightPuzzleSession;
use crate::session::queens::EightQueensSession;
use crate::session::river::MissionariesCannibalsSession;
use crate::session::tic_tac_toe::XorTicTacToeSession;
use vstd::prelude::*;

verus! {

/// The screen that is shown.
#[derive(Debug, Clone, Copy, PartialEq, Eq, Structural)]
pub enum AppRoute {
    MainMenu,
    Puzzle(PuzzleId),
    Quit,
}

/// Everything the program keeps between two key presses.
pub struct App {
    pub registry: PuzzleRegistry,
    pub route: AppRoute,
    pub eight_puzzle: EightPuzzleSession,
    pub xor_ttt: XorTicTacToeSession,
    pub missionaries_cannibals: MissionariesCannibalsSession,
    pub eight_queens: EightQueensSession,
}

impl Default for App {
    fn default() -> (app: Self)
        ensures
            app.registry.complete(),
            app.route == AppRoute::MainMenu,
            app.eight_puzzle.wf(),
            app.xor_ttt.wf(),
            app.eight_queens.wf(),
    {
        Self {
            registry: PuzzleRegistry::default(),
            route: AppRoute::MainMenu,
            eight_puzzle: EightPuzzleSession::randomized(),
            xor_ttt: XorTicTacToeSession::default(),
            missionaries_cannibals: MissionariesCannibalsSession::default(),
            eight_queens: EightQueensSession::default(),
        }
    }
}

impl App {
    /// Goes to the menu.
    pub fn select_main_menu(&mut self)
        ensures
            *final(self) == (App { route: AppRoute::MainMenu, ..*old(self) }),
    {
        self.route = AppRoute::MainMenu;
    }

    /// Goes to a puzzle.
    pub fn select_puzzle(&mut self, puzzle: PuzzleId)
        ensures
            *final(self) == (App { route: AppRoute::Puzzle(puzzle), ..*old(self) }),
    {
        self.route = AppRoute::Puzzle(puzzle);
    }

    /// Asks for the program to end.
    pub fn request_quit(&mut self)
        ensures
            *final(self) == (App { route: AppRoute::Quit, ..*old(self) }),
    {
        self.route = AppRoute::Quit;
    }

    /// Whether the program is to end.
    pub fn should_exit(&self) -> (exit: bool)
        ensures
            exit == (self.route == AppRoute::Quit),
    {
        self.route == AppRoute::Quit
    }
}

} // verus!
