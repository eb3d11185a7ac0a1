//! What a game can be started with.

use vstd::prelude::*;

verus! {

/// The size of a board and the number of its mines.
#[derive(Debug, PartialEq, Eq, Clone, Copy, Structural)]
pub enum Difficulty {
    Easy,
    Medium,
    Hard,
    Custom { width: usize, height: usize, mines: usize },
}

impl Difficulty {
    /// Width, height and number of mines, as the model writes them.
    pub open spec fn layout(self) -> (nat, nat, nat) {
        match self {
            Difficulty::Easy => (9, 9, 10),
            Difficulty::Medium => (16, 16, 40),
            Difficulty::Hard => (30, 16, 99),
            Difficulty::Custom { width, height, mines } => (
                width as nat,
                height as nat,
                mines as nat,
            ),
        }
    }

    /// Width, height and number of mines.
    pub fn config(&self) -> (triple: (usize, usize, usize))
        ensures
            (triple.0 as nat, triple.1 as nat, triple.2 as nat) == self.layout(),
    {
        match self {
            Difficulty::Easy => (9, 9, 10),
            Difficulty::Medium => (16, 16, 40),
            Difficulty::Hard => (30, 16, 99),
            Difficulty::Custom { width, height, mines } => (*width, *height, *mines),
        }
    }
}

impl Default for Difficulty {
    /// A game is of medium difficulty unless told otherwise.
    fn default() -> (difficulty: Difficulty)
        ensures
            difficulty == Difficulty::Medium,
    {
        Difficulty::Medium
    }
}

/// What the program was asked to do.
#[derive(Debug, PartialEq, Eq, Clone, Copy, Structural)]
pub enum Action {
    Play,
    Help,
    Config,
}

impl Default for Action {
    /// The program plays unless told otherwise.
    fn default() -> (action: Action)
        ensures
            action == Action::Play,
    {
        Action::Play
    }
}

/// The command line, read.
#[derive(Debug, PartialEq, Eq, Clone, Copy, Structural)]
pub struct Args {
    pub diff: Option<Difficulty>,
    pub action: Action,
}

impl Default for Args {
    /// No difficulty chosen, and the program plays.
    fn default() -> (args: Args)
        ensures
            args == (Args { diff: None, action: Action::Play }),
    {
        Args { diff: None, action: Action::Play }
    }
}

} // verus!
