//! Pause and resume.
//!
//! The frame clock runs on while the game is paused. On resume the start of
//! the recording moves forward by the frames that went by, so that the pause
//! does not show in relative frames.

use vstd::prelude::*;

use crate::player::record_position::{RecordedPositions, TrackView};
use crate::GameState;

verus! {

/// The frame at which the game was paused.
#[derive(Clone, Copy, Debug, PartialEq, Eq, Structural)]
pub struct FramePaused(pub u32);

impl Default for FramePaused {
    fn default() -> (frame_paused: Self)
        ensures
            frame_paused == FramePaused(0),
    {
        FramePaused(0)
    }
}

/// Pausing and resuming the game.
pub struct PausePlugin;

impl PausePlugin {
    /// Whether a pause that began at `frame_paused` can end at `frame`: the
    /// clock has not gone back, and the moved start fits its type.
    pub open spec fn can_resume(frame_start: nat, frame: nat, frame_paused: FramePaused) -> bool {
        frame_paused.0 <= frame && frame_start + (frame - frame_paused.0) <= u32::MAX
    }

    /// Handles the pause key at `frame`: pauses a running game, resumes a
    /// paused one, and does nothing on the other screens. Hands out the
    /// screen to go to.
    pub fn handle_pause<P>(
        state: GameState,
        positions: &mut RecordedPositions<P>,
        frame: u32,
        frame_paused: &mut FramePaused,
    ) -> (next_state: Option<GameState>)
        requires
            state == GameState::Paused ==> Self::can_resume(
                old(positions)@.frame_start,
                frame as nat,
                *old(frame_paused),
            ),
        ensures
            old(positions).wf() ==> final(positions).wf(),
            match state {
                GameState::Game => {
                    &&& next_state == Some(GameState::Paused)
                    &&& *final(frame_paused) == FramePaused(frame)
                    &&& final(positions)@ == old(positions)@
                },
                GameState::Paused => {
                    &&& next_state == Some(GameState::Game)
                    &&& *final(frame_paused) == *old(frame_paused)
                    &&& final(positions)@ == old(positions)@.shifted(
                        (frame - old(frame_paused).0) as nat,
                    )
                },
                _ => {
                    &&& next_state is None
                    &&& *final(frame_paused) == *old(frame_paused)
                    &&& final(positions)@ == old(positions)@
                },
            },
    {
        match state {
            GameState::Game => {
                frame_paused.0 = frame;
                Some(GameState::Paused)
            },
            GameState::Paused => { Some(Self::unpause(positions, frame, frame_paused)) },
            _ => None,
        }
    }

    /// Resumes at `frame` a game that was paused at `frame_paused`: the start
    /// of the recording moves forward by the frames between the two, so that
    /// `frame` is as far from the start as `frame_paused` was.
    pub fn unpause<P>(
        positions: &mut RecordedPositions<P>,
        frame: u32,
        frame_paused: &FramePaused,
    ) -> (next_state: GameState)
        requires
            Self::can_resume(old(positions)@.frame_start, frame as nat, *frame_paused),
        ensures
            old(positions).wf() ==> final(positions).wf(),
            next_state == GameState::Game,
            final(positions)@ == old(positions)@.shifted((frame - frame_paused.0) as nat),
            final(positions)@.target(frame as nat) == old(positions)@.target(frame_paused.0 as nat),
    {
        let frames_since_pause = frame - frame_paused.0;
        positions.shift_start(frames_since_pause);
        GameState::Game
    }

    /// Whether a pause that began at `frame_paused` can end at `frame`.
    pub fn resumable<P>(
        positions: &RecordedPositions<P>,
        frame: u32,
        frame_paused: &FramePaused,
    ) -> (resumable: bool)
        ensures
            resumable == Self::can_resume(positions@.frame_start, frame as nat, *frame_paused),
    {
        frame_paused.0 <= frame && positions.frame_start() as u64 + (frame - frame_paused.0) as u64
            <= u32::MAX as u64
    }
}

/// A pause does not show in relative frames: the sample taken at `frame`,
/// after a pause that began at `frame_paused`, gets the relative frame that a
/// sample taken at `frame_paused` would have got without the pause.
pub proof fn lemma_pause_leaves_no_gap<P>(
    track: TrackView<P>,
    frame_paused: nat,
    frame: nat,
    position: P,
    jumped: bool,
)
    requires
        frame_paused <= frame,
    ensures
        track.shifted((frame - frame_paused) as nat).recorded(
            frame,
            position,
            jumped,
        ).samples.last().relative_frame == track.recorded(
            frame_paused,
            position,
            jumped,
        ).samples.last().relative_frame,
{
}

} // verus!
