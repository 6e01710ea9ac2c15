//! The player: its death and its return to the start of the level.

use vstd::prelude::*;

use crate::modes::{GameMode, Transition};
use crate::player::record_position::{RecordedPositions, TrackView};

pub mod record_position;

verus! {

/// Notification that the player died.
#[derive(Clone, Copy, Debug, PartialEq, Eq, Structural)]
pub struct PlayerDeath;

/// What happens to the player between the runs.
pub struct PlayerPlugin;

impl PlayerPlugin {
    /// Puts the player back to the start of the level. Of all that this
    /// takes, the recording's part is done here: it is open for samples
    /// again.
    pub fn move_to_start_pos<P>(recorded_positions: &mut RecordedPositions<P>)
        ensures
            old(recorded_positions).wf() ==> final(recorded_positions).wf(),
            final(recorded_positions)@ == (TrackView { locked: false, ..old(recorded_positions)@ }),
    {
        recorded_positions.unlock();
    }

    /// Handles the player's death: the recording is emptied and locked until
    /// the level is back at its start, and the game goes on in survive mode.
    pub fn handle_death<P>(
        mode: GameMode,
        recorded_positions: &mut RecordedPositions<P>,
    ) -> (transition: Transition)
        ensures
            final(recorded_positions).wf(),
            transition == Transition::after_death(mode),
            final(recorded_positions)@ == old(recorded_positions)@.cleared_and_locked(),
    {
        recorded_positions.clear_and_lock();
        Transition {
            next_mode: match mode {
                GameMode::Survive => None,
                GameMode::Replay => Some(GameMode::Survive),
                GameMode::Defend => Some(GameMode::Survive),
            },
            reset_environment: Some(crate::environment::ResetEnvironment),
            spawn_ghost: None,
        }
    }
}

} // verus!
