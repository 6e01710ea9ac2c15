//! The modes of a round and the transitions between them.
//!
//! A round starts in survive mode. Reaching the goal leads to defend mode,
//! placing the obstacle there to the replay, reaching the goal again to the
//! next defence, and the player's death back to survive mode.

use vstd::prelude::*;

use crate::environment::ResetEnvironment;
use crate::obstacles::{no_ghost, Obstacle, Obstacles, SpawnGhostObstacleEvent};
use crate::player::record_position::{RecordedPositions, TrackView};

verus! {

/// The modes of a round.
#[derive(Clone, Copy, Debug, PartialEq, Eq, Hash, Structural)]
pub enum GameMode {
    /// Get to the goal.
    Survive,
    /// Place an obstacle to stop the recording from getting to the goal.
    Defend,
    /// Watch the recording run against the obstacles.
    Replay,
}

impl Default for GameMode {
    fn default() -> (mode: Self)
        ensures
            mode == GameMode::Survive,
    {
        GameMode::Survive
    }
}

/// Notification that the player reached the goal.
#[derive(Clone, Copy, Debug, PartialEq, Eq, Structural)]
pub struct GoalReached;

/// What a notification leads to, beyond the changes to the recording and the
/// obstacles: the messages for the rest of the game.
#[derive(Clone, Copy, Debug, PartialEq, Eq, Structural)]
pub struct Transition {
    /// The mode to enter, where the mode changes.
    pub next_mode: Option<GameMode>,
    /// The level is to be put back to its start.
    pub reset_environment: Option<ResetEnvironment>,
    /// A new ghost obstacle is to be spawned.
    pub spawn_ghost: Option<SpawnGhostObstacleEvent>,
}

impl Transition {
    /// Nothing happens.
    pub open spec fn stay() -> Transition {
        Transition { next_mode: None, reset_environment: None, spawn_ghost: None }
    }

    /// What reaching the goal in `mode` leads to: the next defence, with
    /// `next_ghost` to place. In defend mode the goal cannot be reached, and
    /// nothing happens.
    pub open spec fn after_goal(mode: GameMode, next_ghost: SpawnGhostObstacleEvent) -> Transition {
        if mode == GameMode::Defend {
            Transition::stay()
        } else {
            Transition {
                next_mode: Some(GameMode::Defend),
                reset_environment: Some(ResetEnvironment),
                spawn_ghost: Some(next_ghost),
            }
        }
    }

    /// What the player's death in `mode` leads to: survive mode, on a level
    /// put back to its start.
    pub open spec fn after_death(mode: GameMode) -> Transition {
        Transition {
            next_mode: if mode == GameMode::Survive {
                None
            } else {
                Some(GameMode::Survive)
            },
            reset_environment: Some(ResetEnvironment),
            spawn_ghost: None,
        }
    }
}

/// The recording once the goal was reached in `mode`: open for samples again.
pub open spec fn track_after_goal<P>(mode: GameMode, track: TrackView<P>) -> TrackView<P> {
    if mode == GameMode::Defend {
        track
    } else {
        TrackView { locked: false, ..track }
    }
}

/// The obstacles once the goal was reached in `mode`: after a replay, the
/// obstacle placed against it stays as an obstacle like any other.
pub open spec fn obstacles_after_goal(mode: GameMode, obstacles: Seq<Obstacle>) -> Seq<Obstacle> {
    if mode == GameMode::Replay {
        obstacles.map_values(|o: Obstacle| o.retired())
    } else {
        obstacles
    }
}

/// The transitions between the modes.
pub struct ModesManagement;

impl ModesManagement {
    /// Handles the goal being reached, with `next_ghost` as the obstacle to
    /// place in the defence that follows.
    pub fn goal_reached<P>(
        mode: GameMode,
        recorded_positions: &mut RecordedPositions<P>,
        obstacles: &mut Obstacles,
        next_ghost: SpawnGhostObstacleEvent,
    ) -> (transition: Transition)
        requires
            old(obstacles).wf(),
        ensures
            final(obstacles).wf(),
            old(recorded_positions).wf() ==> final(recorded_positions).wf(),
            transition == Transition::after_goal(mode, next_ghost),
            final(recorded_positions)@ == track_after_goal(mode, old(recorded_positions)@),
            final(obstacles)@ == obstacles_after_goal(mode, old(obstacles)@),
    {
        match mode {
            GameMode::Survive => {
                recorded_positions.unlock();
            },
            GameMode::Replay => {
                recorded_positions.unlock();
                obstacles.retire_last_placed();
            },
            GameMode::Defend => {
                // Nothing can reach the goal while the obstacle is being placed.
                return Transition { next_mode: None, reset_environment: None, spawn_ghost: None };
            },
        }
        Transition {
            next_mode: Some(GameMode::Defend),
            reset_environment: Some(ResetEnvironment),
            spawn_ghost: Some(next_ghost),
        }
    }

    /// Handles the goal being reached: in survive and in replay mode the next
    /// defence begins, with an obstacle of a kind drawn by chance to place.
    pub fn handle_flag_reached<P>(
        mode: GameMode,
        recorded_positions: &mut RecordedPositions<P>,
        obstacles: &mut Obstacles,
    ) -> (transition: Transition)
        requires
            old(obstacles).wf(),
        ensures
            final(obstacles).wf(),
            old(recorded_positions).wf() ==> final(recorded_positions).wf(),
            exists|next_ghost: SpawnGhostObstacleEvent|
                transition == #[trigger] Transition::after_goal(mode, next_ghost),
            final(recorded_positions)@ == track_after_goal(mode, old(recorded_positions)@),
            final(obstacles)@ == obstacles_after_goal(mode, old(obstacles)@),
    {
        let next_ghost = SpawnGhostObstacleEvent::random();
        let transition = Self::goal_reached(mode, recorded_positions, obstacles, next_ghost);
        transition
    }

    /// Starts the replay once the obstacle is placed: in defend mode, with no
    /// ghost left to place, the recording is made ready for playback from
    /// `frame` and the mode to enter is handed out.
    pub fn handle_replay<P>(
        mode: GameMode,
        obstacles: &Obstacles,
        recorded_positions: &mut RecordedPositions<P>,
        frame: u32,
    ) -> (next_mode: Option<GameMode>)
        ensures
            old(recorded_positions).wf() ==> final(recorded_positions).wf(),
            mode == GameMode::Defend && no_ghost(obstacles@) ==> {
                &&& next_mode == Some(GameMode::Replay)
                &&& final(recorded_positions)@ == old(recorded_positions)@.rebased(frame as nat)
            },
            !(mode == GameMode::Defend && no_ghost(obstacles@)) ==> {
                &&& next_mode is None
                &&& final(recorded_positions)@ == old(recorded_positions)@
            },
    {
        if mode != GameMode::Defend || obstacles.ghost().is_some() {
            return None;
        }
        Self::reset_replay(recorded_positions, frame);
        Some(GameMode::Replay)
    }

    /// Makes the recording ready for a playback that starts at `frame`: the
    /// samples stay, relative frames count from `frame`, and the cursor is
    /// back at 0.
    pub fn reset_replay<P>(recorded_positions: &mut RecordedPositions<P>, frame: u32)
        ensures
            old(recorded_positions).wf() ==> final(recorded_positions).wf(),
            final(recorded_positions)@ == old(recorded_positions)@.rebased(frame as nat),
    {
        recorded_positions.rebase(frame);
    }
}

} // verus!
