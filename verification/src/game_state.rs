//! Where a game stands, and which screen is up.

use vstd::prelude::*;

verus! {

/// Where a game stands.
#[derive(Debug, PartialEq, Eq, Clone, Copy, Structural)]
pub enum GameState {
    Playing,
    GameOver,
    Win,
}

impl GameState {
    /// Whether the game is still being played.
    pub fn is_playing(&self) -> (playing: bool)
        ensures
            playing == (*self == GameState::Playing),
    {
        match self {
            GameState::Playing => true,
            _ => false,
        }
    }
}

/// Which screen is up.
#[derive(Debug, PartialEq, Eq, Clone, Copy, Structural)]
pub enum Screen {
    Game,
    DiffPicker,
    Help,
}

impl Default for Screen {
    /// The difficulty picker comes first.
    fn default() -> (screen: Screen)
        ensures
            screen == Screen::DiffPicker,
    {
        Screen::DiffPicker
    }
}

} // verus!
