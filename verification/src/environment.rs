//! The level around the player: its reset and its goal.

use vstd::prelude::*;

use crate::modes::GoalReached;

verus! {

/// Request to put the level back to its start: the player at the starting
/// position, at rest, and the recording open for samples.
#[derive(Clone, Copy, Debug, PartialEq, Eq, Structural)]
pub struct ResetEnvironment;

/// The ground and the goal.
pub struct EnvironmentPlugin;

impl EnvironmentPlugin {
    /// Decides what a collision that started between the goal and another
    /// body means: the goal is reached where the other body is the player.
    pub fn goal_touched(collider_is_player: bool) -> (reached: Option<GoalReached>)
        ensures
            reached is Some <==> collider_is_player,
    {
        if collider_is_player {
            Some(GoalReached)
        } else {
            None
        }
    }
}

} // verus!
