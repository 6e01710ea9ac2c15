//! The recording of the player's run and its playback.
//!
//! While the player survives, every simulation step appends one sample to the
//! recording. During a replay the recorded positions are written back onto
//! the player, catching up with the frame clock step by step.

use vstd::prelude::*;

use crate::modes::GameMode;
use crate::GameState;

verus! {

/// One captured step of the player's run.
#[derive(Clone, Copy, Debug)]
pub struct Sample<P> {
    /// Frames since the recording's `frame_start` when the step was captured.
    pub relative_frame: u32,
    /// Where the player was.
    pub position: P,
    /// Whether a jump was triggered in this very step.
    pub jumped: bool,
}

/// What a `RecordedPositions` holds, as mathematical values.
pub struct TrackView<P> {
    /// The absolute frame that relative frame 0 stands for.
    pub frame_start: nat,
    /// The samples, in the order of their capture.
    pub samples: Seq<Sample<P>>,
    /// The relative frame of the sample that playback applied last.
    pub last_played_frame: nat,
    /// Whether new samples are turned away.
    pub locked: bool,
}

/// The relative frames never go down along the samples.
pub open spec fn sorted_by_frame<P>(samples: Seq<Sample<P>>) -> bool {
    forall|i: int, j: int|
        0 <= i <= j < samples.len() ==> samples[i].relative_frame <= samples[j].relative_frame
}

/// The index of the first sample, at `from` or later, whose relative frame is
/// at least `bound`; the number of samples where there is none.
pub open spec fn first_reaching<P>(samples: Seq<Sample<P>>, from: int, bound: int) -> int
    decreases samples.len() - from,
{
    if from >= samples.len() {
        samples.len() as int
    } else if samples[from].relative_frame >= bound {
        from
    } else {
        first_reaching(samples, from + 1, bound)
    }
}

impl<P> TrackView<P> {
    /// The relative frame that playback has to reach at `current_frame`;
    /// negative before the recording's start.
    pub open spec fn target(self, current_frame: nat) -> int {
        current_frame - self.frame_start
    }

    /// Where playback resumes: the samples before this index lie behind the
    /// cursor.
    pub open spec fn play_start(self) -> int {
        first_reaching(self.samples, 0, self.last_played_frame as int)
    }

    /// Where playback stops at `current_frame`: the first sample from
    /// `play_start` on that lies beyond the target.
    pub open spec fn play_end(self, current_frame: nat) -> int {
        first_reaching(self.samples, self.play_start(), self.target(current_frame) + 1)
    }

    /// The samples that one playback step at `current_frame` applies, in order.
    pub open spec fn written(self, current_frame: nat) -> Seq<Sample<P>> {
        self.samples.subrange(self.play_start(), self.play_end(current_frame))
    }

    /// Whether one playback step at `current_frame` applies the sample at `index`.
    pub open spec fn applies(self, current_frame: nat, index: int) -> bool {
        self.play_start() <= index < self.play_end(current_frame)
    }

    /// The track after one playback step at `current_frame`: the cursor stands
    /// on the last sample applied, or where it stood if none was.
    pub open spec fn played(self, current_frame: nat) -> TrackView<P> {
        TrackView {
            last_played_frame: if self.written(current_frame).len() > 0 {
                self.written(current_frame).last().relative_frame as nat
            } else {
                self.last_played_frame
            },
            ..self
        }
    }

    /// Whether the frame clock at `current_frame` is not behind the last sample.
    pub open spec fn accepts(self, current_frame: nat) -> bool {
        self.samples.len() > 0 ==> self.frame_start + self.samples.last().relative_frame
            <= current_frame
    }

    /// The frame that relative frames count from once a sample is taken at
    /// `current_frame`: the first sample of a recording sets it.
    pub open spec fn start_when_recording(self, current_frame: nat) -> nat {
        if self.samples.len() == 0 {
            current_frame
        } else {
            self.frame_start
        }
    }

    /// The track after a sample was taken at `current_frame`.
    pub open spec fn recorded(self, current_frame: nat, position: P, jumped: bool) -> TrackView<P> {
        TrackView {
            frame_start: self.start_when_recording(current_frame),
            samples: self.samples.push(
                Sample {
                    relative_frame: (current_frame - self.start_when_recording(
                        current_frame,
                    )) as u32,
                    position,
                    jumped,
                },
            ),
            ..self
        }
    }

    /// The track made ready for a playback that starts at `frame`.
    pub open spec fn rebased(self, frame: nat) -> TrackView<P> {
        TrackView { frame_start: frame, last_played_frame: 0, ..self }
    }

    /// The track after the player died: nothing recorded, nothing accepted.
    pub open spec fn cleared_and_locked(self) -> TrackView<P> {
        TrackView { samples: Seq::empty(), locked: true, ..self }
    }

    /// The track with its start moved forward by `frames`.
    pub open spec fn shifted(self, frames: nat) -> TrackView<P> {
        TrackView { frame_start: self.frame_start + frames, ..self }
    }

    /// The track after playback steps at each of `ticks`, in turn.
    pub open spec fn played_through(self, ticks: Seq<nat>) -> TrackView<P>
        decreases ticks.len(),
    {
        if ticks.len() == 0 {
            self
        } else {
            self.played(ticks[0]).played_through(ticks.drop_first())
        }
    }

    /// All that playback steps at each of `ticks` write, in order.
    pub open spec fn written_through(self, ticks: Seq<nat>) -> Seq<Sample<P>>
        decreases ticks.len(),
    {
        if ticks.len() == 0 {
            Seq::empty()
        } else {
            self.written(ticks[0]) + self.played(ticks[0]).written_through(ticks.drop_first())
        }
    }

    /// Whether some playback step among `ticks` applies the sample at `index`.
    pub open spec fn applies_through(self, ticks: Seq<nat>, index: int) -> bool
        decreases ticks.len(),
    {
        if ticks.len() == 0 {
            false
        } else {
            self.applies(ticks[0], index) || self.played(ticks[0]).applies_through(
                ticks.drop_first(),
                index,
            )
        }
    }
}

/// The frames of `ticks` never go down.
pub open spec fn clock_moves_forward(ticks: Seq<nat>) -> bool {
    forall|i: int, j: int| 0 <= i <= j < ticks.len() ==> ticks[i] <= ticks[j]
}

/// The recording of one attempt at the level, and the cursor of its playback.
#[derive(Debug)]
pub struct RecordedPositions<P> {
    /// Which frame the positions started being recorded in.
    frame_start: u32,
    positions: Vec<Sample<P>>,
    last_played_frame: u32,
    locked: bool,
}

impl<P> View for RecordedPositions<P> {
    type V = TrackView<P>;

    closed spec fn view(&self) -> TrackView<P> {
        TrackView {
            frame_start: self.frame_start as nat,
            samples: self.positions@,
            last_played_frame: self.last_played_frame as nat,
            locked: self.locked,
        }
    }
}

impl<P> RecordedPositions<P> {
    /// The invariant of a recording: its samples are in the order of their
    /// relative frames.
    pub open spec fn wf(&self) -> bool {
        sorted_by_frame(self@.samples)
    }

    /// An empty, unlocked recording.
    pub fn new() -> (track: Self)
        ensures
            track.wf(),
            track@ == (TrackView::<P> {
                frame_start: 0,
                samples: Seq::empty(),
                last_played_frame: 0,
                locked: false,
            }),
    {
        RecordedPositions {
            frame_start: 0,
            positions: Vec::new(),
            last_played_frame: 0,
            locked: false,
        }
    }

    pub fn frame_start(&self) -> (frame: u32)
        ensures
            frame == self@.frame_start,
    {
        self.frame_start
    }

    pub fn last_played_frame(&self) -> (frame: u32)
        ensures
            frame == self@.last_played_frame,
    {
        self.last_played_frame
    }

    pub fn is_locked(&self) -> (locked: bool)
        ensures
            locked == self@.locked,
    {
        self.locked
    }

    /// The samples, in the order of their capture.
    pub fn samples(&self) -> (samples: &Vec<Sample<P>>)
        ensures
            samples@ == self@.samples,
    {
        &self.positions
    }

    /// Whether the frame clock at `current_frame` is not behind the last
    /// sample, so that a sample taken now keeps the recording in order.
    pub fn accepts(&self, current_frame: u32) -> (accepted: bool)
        ensures
            accepted == self@.accepts(current_frame as nat),
    {
        let n = self.positions.len();
        if n == 0 {
            true
        } else {
            let last = self.positions[n - 1].relative_frame;
            self.frame_start as u64 + last as u64 <= current_frame as u64
        }
    }

    /// The index of the first sample that playback has not left behind: the
    /// trail from there on is what remains to be replayed.
    pub fn first_unplayed(&self) -> (index: usize)
        ensures
            index == self@.play_start(),
            index <= self@.samples.len(),
    {
        let n = self.positions.len();
        let mut i: usize = 0;
        while i < n && self.positions[i].relative_frame < self.last_played_frame
            invariant
                i <= n,
                n == self.positions@.len(),
                first_reaching(self.positions@, 0, self.last_played_frame as int)
                    == first_reaching(self.positions@, i as int, self.last_played_frame as int),
            decreases n - i,
        {
            i += 1;
        }
        proof {
            lemma_first_reaching(self.positions@, i as int, self.last_played_frame as int);
        }
        i
    }

    /// Makes the recording ready for a playback that starts at `frame`.
    pub(crate) fn rebase(&mut self, frame: u32)
        ensures
            final(self)@ == old(self)@.rebased(frame as nat),
    {
        self.frame_start = frame;
        self.last_played_frame = 0;
    }

    /// Empties the recording and turns new samples away.
    pub(crate) fn clear_and_lock(&mut self)
        ensures
            final(self)@ == old(self)@.cleared_and_locked(),
    {
        self.positions.clear();
        self.locked = true;
    }

    /// Lets samples in again.
    pub(crate) fn unlock(&mut self)
        ensures
            final(self)@ == (TrackView { locked: false, ..old(self)@ }),
    {
        self.locked = false;
    }

    /// Moves the start of the recording forward by `frames`.
    pub(crate) fn shift_start(&mut self, frames: u32)
        requires
            old(self)@.frame_start + frames <= u32::MAX,
        ensures
            final(self)@ == old(self)@.shifted(frames as nat),
    {
        self.frame_start = self.frame_start + frames;
    }
}

/// The recorder and the player of positions.
pub struct RecordPositionPlugin;

impl RecordPositionPlugin {
    /// Whether a step takes a sample: only while the level is played in
    /// survive mode and the recording is not locked.
    pub open spec fn records<P>(state: GameState, mode: GameMode, track: TrackView<P>) -> bool {
        state.playable() && mode == GameMode::Survive && !track.locked
    }

    /// Whether a step takes a sample.
    pub fn would_record<P>(
        state: GameState,
        mode: GameMode,
        recorded_positions: &RecordedPositions<P>,
    ) -> (records: bool)
        ensures
            records == Self::records(state, mode, recorded_positions@),
    {
        state.is_playable() && mode == GameMode::Survive && !recorded_positions.locked
    }

    /// Takes one sample of the player at `current_frame`, where the step
    /// takes one, and says whether it did.
    ///
    /// The first sample of a recording sets its `frame_start`; every sample
    /// carries the frames since then. `jumped` says whether a jump was
    /// triggered in this step. The frame clock must not be behind the last
    /// sample.
    pub fn record_position<P>(
        state: GameState,
        mode: GameMode,
        recorded_positions: &mut RecordedPositions<P>,
        current_frame: u32,
        position: P,
        jumped: bool,
    ) -> (recorded: bool)
        requires
            old(recorded_positions).wf(),
            Self::records(state, mode, old(recorded_positions)@) ==> old(
                recorded_positions,
            )@.accepts(current_frame as nat),
        ensures
            final(recorded_positions).wf(),
            recorded == Self::records(state, mode, old(recorded_positions)@),
            recorded ==> final(recorded_positions)@ == old(recorded_positions)@.recorded(
                current_frame as nat,
                position,
                jumped,
            ),
            !recorded ==> final(recorded_positions)@ == old(recorded_positions)@,
    {
        if !Self::would_record(state, mode, recorded_positions) {
            return false;
        }
        if recorded_positions.positions.len() == 0 {
            recorded_positions.frame_start = current_frame;
        }
        let frame_from_start = current_frame - recorded_positions.frame_start;
        recorded_positions.positions.push(
            Sample { relative_frame: frame_from_start, position, jumped },
        );
        true
    }

    /// Writes the recorded positions that are due at `current_frame`.
    ///
    /// Only in replay mode. The samples at or after the cursor whose relative
    /// frame is not beyond `current_frame - frame_start` are handed out in
    /// order, to be written onto the player one after the other, and the
    /// cursor moves to the last of them. Nothing is due on an empty recording
    /// or before the recording's start.
    pub fn play_recorded_position<P: Copy>(
        mode: GameMode,
        recorded_positions: &mut RecordedPositions<P>,
        current_frame: u32,
    ) -> (written: Vec<Sample<P>>)
        requires
            old(recorded_positions).wf(),
        ensures
            final(recorded_positions).wf(),
            mode == GameMode::Replay ==> {
                &&& written@ == old(recorded_positions)@.written(current_frame as nat)
                &&& final(recorded_positions)@ == old(recorded_positions)@.played(
                    current_frame as nat,
                )
            },
            mode != GameMode::Replay ==> {
                &&& written@.len() == 0
                &&& final(recorded_positions)@ == old(recorded_positions)@
            },
            final(recorded_positions)@.last_played_frame >= old(
                recorded_positions,
            )@.last_played_frame,
    {
        let mut written: Vec<Sample<P>> = Vec::new();
        if mode != GameMode::Replay {
            return written;
        }
        let ghost before = recorded_positions@;
        if current_frame < recorded_positions.frame_start {
            proof {
                lemma_first_reaching(before.samples, 0, before.last_played_frame as int);
            }
            return written;
        }
        let start = recorded_positions.first_unplayed();
        let target = current_frame - recorded_positions.frame_start;
        let n = recorded_positions.positions.len();
        let mut last_played_frame = recorded_positions.last_played_frame;
        let mut i: usize = start;
        while i < n && recorded_positions.positions[i].relative_frame <= target
            invariant
                start <= i <= n,
                n == before.samples.len(),
                recorded_positions@ == before,
                recorded_positions.positions@ == before.samples,
                first_reaching(before.samples, start as int, target + 1) == first_reaching(
                    before.samples,
                    i as int,
                    target + 1,
                ),
                written@ == before.samples.subrange(start as int, i as int),
                last_played_frame == if start < i {
                    before.samples[i - 1].relative_frame
                } else {
                    before.last_played_frame as u32
                },
            decreases n - i,
        {
            let sample = recorded_positions.positions[i];
            written.push(sample);
            last_played_frame = sample.relative_frame;
            i += 1;
        }
        proof {
            lemma_first_reaching(before.samples, i as int, target + 1);
            lemma_cursor_moves_forward(before, current_frame as nat);
        }
        recorded_positions.last_played_frame = last_played_frame;
        written
    }
}

/// What `first_reaching` finds: nothing before it reaches `bound`, and the
/// sample there does.
pub proof fn lemma_first_reaching<P>(samples: Seq<Sample<P>>, from: int, bound: int)
    requires
        0 <= from <= samples.len(),
    ensures
        from <= first_reaching(samples, from, bound) <= samples.len(),
        forall|k: int|
            from <= k < first_reaching(samples, from, bound) ==> samples[k].relative_frame < bound,
        first_reaching(samples, from, bound) < samples.len() ==> samples[first_reaching(
            samples,
            from,
            bound,
        )].relative_frame >= bound,
    decreases samples.len() - from,
{
    if from < samples.len() && samples[from].relative_frame < bound {
        lemma_first_reaching(samples, from + 1, bound);
    }
}

/// An index that has the two properties of `first_reaching` is what it finds.
pub proof fn lemma_first_reaching_is<P>(samples: Seq<Sample<P>>, from: int, bound: int, found: int)
    requires
        0 <= from <= found <= samples.len(),
        forall|k: int| from <= k < found ==> samples[k].relative_frame < bound,
        found < samples.len() ==> samples[found].relative_frame >= bound,
    ensures
        first_reaching(samples, from, bound) == found,
    decreases samples.len() - from,
{
    if from < found {
        lemma_first_reaching_is(samples, from + 1, bound, found);
    }
}

/// On a recording in order, a playback step applies exactly the samples whose
/// relative frame lies between the cursor and the target.
pub proof fn lemma_applies_window<P>(track: TrackView<P>, current_frame: nat, index: int)
    requires
        sorted_by_frame(track.samples),
        0 <= index < track.samples.len(),
    ensures
        track.applies(current_frame, index) <==> track.last_played_frame
            <= track.samples[index].relative_frame <= track.target(current_frame),
{
    let cursor = track.last_played_frame as int;
    let bound = track.target(current_frame) + 1;
    lemma_first_reaching(track.samples, 0, cursor);
    lemma_first_reaching(track.samples, track.play_start(), bound);
}

/// The cursor never moves back in a playback step.
pub proof fn lemma_cursor_moves_forward<P>(track: TrackView<P>, current_frame: nat)
    requires
        sorted_by_frame(track.samples),
    ensures
        track.played(current_frame).last_played_frame >= track.last_played_frame,
{
    lemma_first_reaching(track.samples, 0, track.last_played_frame as int);
    lemma_first_reaching(track.samples, track.play_start(), track.target(current_frame) + 1);
}

/// Two playback steps in a row apply what the later one alone would have
/// applied, and leave the cursor where it would have left it.
pub proof fn lemma_catch_up_step<P>(track: TrackView<P>, earlier: nat, later: nat)
    requires
        sorted_by_frame(track.samples),
        earlier <= later,
    ensures
        track.played(earlier).played(later) == track.played(later),
        forall|index: int|
            (track.applies(earlier, index) || track.played(earlier).applies(later, index))
                <==> track.applies(later, index),
{
    let samples = track.samples;
    let start = track.play_start();
    let midway = track.played(earlier);
    lemma_first_reaching(samples, 0, track.last_played_frame as int);
    lemma_first_reaching(samples, start, track.target(earlier) + 1);
    lemma_first_reaching(samples, start, track.target(later) + 1);
    if start < track.play_end(earlier) {
        // The cursor stands on the last sample applied, so the later step
        // resumes among the samples that the earlier one applied, and stops
        // where a single step would have stopped.
        let resumed = midway.play_start();
        lemma_first_reaching(samples, 0, midway.last_played_frame as int);
        assert(start <= resumed < track.play_end(earlier) <= track.play_end(later));
        lemma_first_reaching_is(
            samples,
            resumed,
            midway.target(later) + 1,
            track.play_end(later),
        );
    }
}

/// No sample is lost by skipping steps: whatever steps were taken on the way,
/// once playback has run at the last of `ticks` it has applied the samples,
/// and stands on the cursor, that a single step at that tick gives.
pub proof fn lemma_no_sample_loss<P>(track: TrackView<P>, ticks: Seq<nat>)
    requires
        sorted_by_frame(track.samples),
        ticks.len() > 0,
        clock_moves_forward(ticks),
    ensures
        track.played_through(ticks) == track.played(ticks.last()),
        forall|index: int|
            track.applies_through(ticks, index) <==> track.applies(ticks.last(), index),
    decreases ticks.len(),
{
    let rest = ticks.drop_first();
    let midway = track.played(ticks[0]);
    if rest.len() == 0 {
        assert(midway.played_through(rest) == midway);
        assert forall|index: int|
            track.applies_through(ticks, index) <==> track.applies(ticks.last(), index) by {
            assert(!midway.applies_through(rest, index));
        }
    } else {
        assert(clock_moves_forward(rest)) by {
            assert forall|i: int, j: int| 0 <= i <= j < rest.len() implies rest[i] <= rest[j] by {
                assert(rest[i] == ticks[i + 1] && rest[j] == ticks[j + 1]);
            }
        }
        lemma_no_sample_loss(midway, rest);
        lemma_catch_up_step(track, ticks[0], ticks.last());
        assert forall|index: int|
            track.applies_through(ticks, index) <==> track.applies(ticks.last(), index) by {
            assert(midway.applies_through(rest, index) <==> midway.applies(ticks.last(), index));
        }
    }
}

/// Skipped steps are caught up: two runs of playback over the same recording,
/// one at every tick and one that left ticks out, have applied the same
/// samples and stand on the same cursor once both have run at the same last
/// tick.
pub proof fn lemma_skipped_ticks_catch_up<P>(
    track: TrackView<P>,
    every_tick: Seq<nat>,
    resumed: Seq<nat>,
)
    requires
        sorted_by_frame(track.samples),
        every_tick.len() > 0,
        resumed.len() > 0,
        clock_moves_forward(every_tick),
        clock_moves_forward(resumed),
        every_tick.last() == resumed.last(),
    ensures
        track.played_through(resumed) == track.played_through(every_tick),
        forall|index: int|
            track.applies_through(resumed, index) <==> track.applies_through(every_tick, index),
{
    lemma_no_sample_loss(track, every_tick);
    lemma_no_sample_loss(track, resumed);
}

/// Replay is determined by the samples and the advance of the clock: two
/// playbacks of the same samples from the same cursor, stepped at ticks that
/// lie equally far from their starts, write the same samples in the same
/// order and end on the same cursor.
pub proof fn lemma_replay_deterministic<P>(
    first: TrackView<P>,
    second: TrackView<P>,
    first_ticks: Seq<nat>,
    second_ticks: Seq<nat>,
)
    requires
        first.samples == second.samples,
        first.last_played_frame == second.last_played_frame,
        first_ticks.len() == second_ticks.len(),
        forall|i: int|
            0 <= i < first_ticks.len() ==> first.target(first_ticks[i]) == second.target(
                second_ticks[i],
            ),
    ensures
        first.written_through(first_ticks) == second.written_through(second_ticks),
        first.played_through(first_ticks).last_played_frame == second.played_through(
            second_ticks,
        ).last_played_frame,
    decreases first_ticks.len(),
{
    if first_ticks.len() > 0 {
        let first_rest = first_ticks.drop_first();
        let second_rest = second_ticks.drop_first();
        assert forall|i: int| 0 <= i < first_rest.len() implies first.played(
            first_ticks[0],
        ).target(first_rest[i]) == second.played(second_ticks[0]).target(second_rest[i]) by {
            assert(first_rest[i] == first_ticks[i + 1] && second_rest[i] == second_ticks[i + 1]);
        }
        lemma_replay_deterministic(
            first.played(first_ticks[0]),
            second.played(second_ticks[0]),
            first_rest,
            second_rest,
        );
    }
}

} // verus!
