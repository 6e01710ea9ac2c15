//! Core rules of a "record yourself, then defend against your own recording"
//! platformer: the mode state machine, the position recorder and player, the
//! obstacle placement and flicker schedule, and the collision rules.
//!
//! Everything here works on plain values; windowing, rendering, audio and the
//! physics engine live in the application around this library.

use vstd::prelude::*;

pub mod environment;
pub mod menu;
pub mod modes;
pub mod obstacles;
pub mod player;
mod random;

verus! {

/// Which screen the application is showing.
#[derive(Clone, Copy, Debug, PartialEq, Eq, Hash, Structural)]
pub enum GameState {
    Splash,
    Menu,
    Game,
    Paused,
}

impl Default for GameState {
    fn default() -> (state: Self)
        ensures
            state == GameState::Splash,
    {
        GameState::Splash
    }
}

impl GameState {
    /// The simulation advances only while the level is being played.
    pub open spec fn playable(self) -> bool {
        self == GameState::Game
    }

    pub fn is_playable(self) -> (playable: bool)
        ensures
            playable == self.playable(),
    {
        self == GameState::Game
    }
}

} // verus!
