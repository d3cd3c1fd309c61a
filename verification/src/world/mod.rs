//! The game world's settings.

use vstd::prelude::*;

pub mod player;

verus! {

/// How hard the world is.
#[derive(Clone, Copy, Debug, PartialEq, Eq, Structural)]
pub enum Difficulty {
    Peaceful,
    Easy,
    Normal,
    Hard,
}

impl Default for Difficulty {
    fn default() -> (d: Self)
        ensures
            d == Difficulty::Easy,
    {
        Difficulty::Easy
    }
}

/// The way players take part in the world.
#[derive(Clone, Copy, Debug, PartialEq, Eq, Structural)]
pub enum Gamemode {
    Survival,
    Creative,
    Spectator,
    Adventure,
}

impl Default for Gamemode {
    fn default() -> (g: Self)
        ensures
            g == Gamemode::Survival,
    {
        Gamemode::Survival
    }
}

} // verus!
