//! What the player has set for good.

use crate::args::Difficulty;
use vstd::prelude::*;

verus! {

/// The settings of the player.
#[derive(Debug, PartialEq, Eq, Clone, Copy, Structural)]
pub struct Config {
    /// The difficulty of a game that is started without one.
    pub default_difficulty: Option<Difficulty>,
}

impl Default for Config {
    /// No difficulty is set.
    fn default() -> (config: Config)
        ensures
            config == (Config { default_difficulty: None }),
    {
        Config { default_difficulty: None }
    }
}

} // verus!
