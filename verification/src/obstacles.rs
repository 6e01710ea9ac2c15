//! Obstacles: their placement, their flicker schedule and what a collision
//! with one means.
//!
//! An obstacle starts as a ghost that the user moves about. Committing it
//! makes it the last placed obstacle and, for a laser, times its flicker so
//! that a burst begins on a frame in which the recorded run crosses it.

use vstd::prelude::*;
use vstd::arithmetic::div_mod::{
    lemma_fundamental_div_mod, lemma_mod_add_multiples_vanish, lemma_mod_multiples_basic,
    lemma_mod_pos_bound, lemma_mod_self_0, lemma_small_mod,
};

use crate::modes::GameMode;
use crate::player::record_position::{RecordedPositions, Sample};
use crate::player::PlayerDeath;
use crate::random::random_below;

verus! {

/// Out of how many equally likely draws the kind of a new obstacle is chosen.
pub const DRAW_RANGE: usize = 100;

/// How many of the `DRAW_RANGE` draws give a laser; the others give a spike.
pub const LASER_SHARE: usize = 40;

/// Frames from the start of one burst of a new laser to the start of the next.
pub const LASER_PERIOD: u32 = 120;

/// Frames that a burst of a new laser lasts.
pub const LASER_DURATION: u32 = 20;

/// The delay of a laser for which no frame to strike on is known.
pub const DEFAULT_DELAY: u32 = 120;

#[derive(Clone, Copy, Debug, PartialEq, Eq, Structural)]
pub enum ObstacleType {
    Spike,
    Laser,
}

impl ObstacleType {
    /// The kind that a draw stands for.
    pub open spec fn for_draw(draw: nat) -> ObstacleType {
        if draw < LASER_SHARE {
            ObstacleType::Laser
        } else {
            ObstacleType::Spike
        }
    }

    /// The kind that a draw stands for: the first `LASER_SHARE` draws give a
    /// laser, all others a spike.
    pub fn from_draw(draw: usize) -> (obs_type: ObstacleType)
        ensures
            obs_type == Self::for_draw(draw as nat),
    {
        if draw < LASER_SHARE {
            ObstacleType::Laser
        } else {
            ObstacleType::Spike
        }
    }

    /// Whether a ghost of this kind keeps to the horizontal line while it
    /// follows the pointer. A laser does; a spike follows freely.
    pub fn keeps_to_axis(self) -> (keeps: bool)
        ensures
            keeps == (self == ObstacleType::Laser),
    {
        self == ObstacleType::Laser
    }
}

/// Why a flicker schedule was turned down.
#[derive(Clone, Copy, Debug, PartialEq, Eq, Structural)]
pub enum FlickerError {
    /// A period of no frames has no phase.
    ZeroPeriod,
}

/// The schedule by which an obstacle comes and goes.
#[derive(Clone, Copy, Debug, PartialEq, Eq, Structural)]
pub struct Flicker {
    /// How many frames between each appearance start, in frames.
    pub period: u32,
    /// By how many frames the schedule runs ahead of the clock.
    pub delay: u32,
    /// How long this appears for, in frames.
    pub duration: u32,
}

/// The frames that have passed at `current_frame` since `frame_start`; none
/// before it.
pub open spec fn elapsed_since(frame_start: nat, current_frame: nat) -> nat {
    if current_frame >= frame_start {
        (current_frame - frame_start) as nat
    } else {
        0
    }
}

/// The delay with which a burst begins exactly `frame` frames after the start.
pub open spec fn delay_to_strike(frame: nat, period: nat) -> nat {
    ((period - frame % period) % (period as int)) as nat
}

/// The delay given to a laser when it is placed: timed to `strike` where there
/// is such a frame, `DEFAULT_DELAY` where there is none.
pub open spec fn delay_when_placed(strike: Option<u32>, period: u32) -> nat {
    match strike {
        Some(frame) => delay_to_strike(frame as nat, period as nat),
        None => DEFAULT_DELAY as nat,
    }
}

impl Flicker {
    /// A schedule needs a period.
    pub open spec fn wf(&self) -> bool {
        self.period > 0
    }

    /// Where in its period the schedule stands after `elapsed` frames.
    pub open spec fn phase_at(self, elapsed: nat) -> nat {
        ((elapsed + self.delay) % (self.period as int)) as nat
    }

    /// Whether the obstacle is there after `elapsed` frames.
    pub open spec fn active_at(self, elapsed: nat) -> bool {
        self.phase_at(elapsed) < self.duration
    }

    /// A schedule; turned down if its period is 0.
    pub fn new(period: u32, delay: u32, duration: u32) -> (made: Result<Flicker, FlickerError>)
        ensures
            period == 0 ==> made == Err::<Flicker, FlickerError>(FlickerError::ZeroPeriod),
            period != 0 ==> made == Ok::<Flicker, FlickerError>(
                Flicker { period, delay, duration },
            ),
    {
        if period == 0 {
            Err(FlickerError::ZeroPeriod)
        } else {
            Ok(Flicker { period, delay, duration })
        }
    }

    /// Where in its period the schedule stands after `elapsed` frames.
    pub fn phase(&self, elapsed: u32) -> (phase: u32)
        requires
            self.wf(),
        ensures
            phase == self.phase_at(elapsed as nat),
            phase < self.period,
    {
        ((elapsed as u64 + self.delay as u64) % (self.period as u64)) as u32
    }

    /// Whether the obstacle is there after `elapsed` frames.
    pub fn is_active(&self, elapsed: u32) -> (active: bool)
        requires
            self.wf(),
        ensures
            active == self.active_at(elapsed as nat),
    {
        self.phase(elapsed) < self.duration
    }

    /// The delay with which a burst begins exactly `frame` frames after the
    /// start.
    pub fn delay_for_strike(frame: u32, period: u32) -> (delay: u32)
        requires
            period > 0,
        ensures
            delay == delay_to_strike(frame as nat, period as nat),
            delay < period,
    {
        (period - frame % period) % period
    }
}

/// The frames that have passed at `current_frame` since `frame_start`; none
/// before it.
pub fn elapsed_frames(frame_start: u32, current_frame: u32) -> (elapsed: u32)
    ensures
        elapsed == elapsed_since(frame_start as nat, current_frame as nat),
{
    if current_frame >= frame_start {
        current_frame - frame_start
    } else {
        0
    }
}

/// Request for a new ghost obstacle.
#[derive(Clone, Copy, Debug, PartialEq, Eq, Structural)]
pub struct SpawnGhostObstacleEvent {
    pub obs_type: ObstacleType,
}

impl SpawnGhostObstacleEvent {
    pub fn new(obs_type: ObstacleType) -> (event: Self)
        ensures
            event.obs_type == obs_type,
    {
        SpawnGhostObstacleEvent { obs_type }
    }

    /// The request that a draw stands for.
    pub fn from_draw(draw: usize) -> (event: Self)
        ensures
            event.obs_type == ObstacleType::for_draw(draw as nat),
    {
        SpawnGhostObstacleEvent { obs_type: ObstacleType::from_draw(draw) }
    }

    /// A request for an obstacle of a kind drawn by chance: a laser in
    /// `LASER_SHARE` of `DRAW_RANGE` draws, else a spike.
    pub fn random() -> (event: Self)
        ensures
            exists|draw: nat| draw < DRAW_RANGE && event.obs_type == ObstacleType::for_draw(draw),
    {
        let draw = random_below(DRAW_RANGE);
        let event = Self::from_draw(draw);
        event
    }
}

/// An obstacle of the level.
#[derive(Clone, Copy, Debug, PartialEq, Eq, Structural)]
pub struct Obstacle {
    pub obs_type: ObstacleType,
    /// Not placed yet: the user is still moving it about.
    pub is_ghost: bool,
    /// The obstacle that was placed last.
    pub is_last_placed: bool,
    /// The schedule by which it comes and goes, if it has one.
    pub flicker: Option<Flicker>,
    /// Switched off by its schedule: it neither collides nor shows.
    pub disabled: bool,
}

impl Obstacle {
    /// What holds of every obstacle: only a laser flickers, its schedule has a
    /// period, a ghost is not placed, and only a schedule switches off.
    pub open spec fn wf(&self) -> bool {
        &&& self.flicker matches Some(flicker) ==> flicker.wf()
        &&& self.obs_type == ObstacleType::Spike ==> self.flicker is None
        &&& !(self.is_ghost && self.is_last_placed)
        &&& self.flicker is None ==> !self.disabled
    }

    /// A new ghost of a kind. A laser comes with its schedule.
    pub open spec fn ghost_of(obs_type: ObstacleType) -> Obstacle {
        Obstacle {
            obs_type,
            is_ghost: true,
            is_last_placed: false,
            flicker: if obs_type == ObstacleType::Laser {
                Some(
                    Flicker {
                        period: LASER_PERIOD,
                        delay: DEFAULT_DELAY,
                        duration: LASER_DURATION,
                    },
                )
            } else {
                None
            },
            disabled: false,
        }
    }

    /// The obstacle once placed: no ghost any more, the last placed, and its
    /// schedule, if it has one, timed to `strike`.
    pub open spec fn placed(self, strike: Option<u32>) -> Obstacle {
        Obstacle {
            is_ghost: false,
            is_last_placed: true,
            flicker: match self.flicker {
                Some(flicker) => Some(
                    Flicker {
                        delay: delay_when_placed(strike, flicker.period) as u32,
                        ..flicker
                    },
                ),
                None => None,
            },
            ..self
        }
    }

    /// The obstacle when another one has been placed after it, or the round
    /// is over: not the last placed.
    pub open spec fn retired(self) -> Obstacle {
        Obstacle { is_last_placed: false, ..self }
    }

    /// The obstacle with its schedule overridden: switched off if it has one.
    pub open spec fn forced_off(self) -> Obstacle {
        Obstacle { disabled: self.flicker is Some, ..self }
    }

    /// The obstacle as its schedule has it after `elapsed` frames. Without a
    /// schedule it stays as it is.
    pub open spec fn scheduled(self, elapsed: nat) -> Obstacle {
        match self.flicker {
            Some(flicker) => Obstacle { disabled: !flicker.active_at(elapsed), ..self },
            None => self,
        }
    }

    /// Whether the schedule switches the obstacle on after `elapsed` frames,
    /// having had it off before.
    pub open spec fn switches_on(self, elapsed: nat) -> bool {
        &&& self.disabled
        &&& self.flicker matches Some(flicker)
        &&& flicker.active_at(elapsed)
    }
}

impl Obstacle {
    /// A new ghost of a kind. A laser comes with its schedule.
    pub fn ghost(obs_type: ObstacleType) -> (obstacle: Obstacle)
        ensures
            obstacle == Obstacle::ghost_of(obs_type),
            obstacle.wf(),
    {
        let flicker = match obs_type {
            ObstacleType::Laser => Some(
                Flicker { period: LASER_PERIOD, delay: DEFAULT_DELAY, duration: LASER_DURATION },
            ),
            ObstacleType::Spike => None,
        };
        Obstacle { obs_type, is_ghost: true, is_last_placed: false, flicker, disabled: false }
    }
}

/// No obstacle is a ghost.
pub open spec fn no_ghost(obstacles: Seq<Obstacle>) -> bool {
    forall|i: int| 0 <= i < obstacles.len() ==> !obstacles[i].is_ghost
}

/// No obstacle is marked as the last placed.
pub open spec fn no_last_placed(obstacles: Seq<Obstacle>) -> bool {
    forall|i: int| 0 <= i < obstacles.len() ==> !obstacles[i].is_last_placed
}

/// The obstacles after the ghost at `ghost` was placed: it is the last placed
/// now and no other is.
pub open spec fn committed(obstacles: Seq<Obstacle>, ghost_index: int, strike: Option<u32>) -> Seq<
    Obstacle,
> {
    Seq::new(
        obstacles.len(),
        |i: int|
            if i == ghost_index {
                obstacles[i].placed(strike)
            } else {
                obstacles[i].retired()
            },
    )
}

/// Whether a collision of the player with the obstacle at `obstacle` counts.
///
/// A ghost never counts. During a replay only the last placed obstacle
/// counts, or any one if none is marked so.
pub open spec fn registers_hit(mode: GameMode, obstacles: Seq<Obstacle>, obstacle: int) -> bool {
    &&& 0 <= obstacle < obstacles.len()
    &&& !obstacles[obstacle].is_ghost
    &&& mode == GameMode::Replay ==> obstacles[obstacle].is_last_placed || no_last_placed(
        obstacles,
    )
}

/// Whether the sample at `index` was found to cross the obstacle. A sample
/// that `hits` does not reach counts as a miss.
pub open spec fn is_hit<P>(samples: Seq<Sample<P>>, hits: Seq<bool>, index: int) -> bool {
    0 <= index < samples.len() && index < hits.len() && hits[index]
}

/// Whether some sample taken on `frame` was found to cross the obstacle.
pub open spec fn crosses_on<P>(samples: Seq<Sample<P>>, hits: Seq<bool>, frame: u32) -> bool {
    exists|index: int| is_hit(samples, hits, index) && samples[index].relative_frame == frame
}

/// The relative frames of the samples that were found to cross the obstacle,
/// in the order of the samples.
pub open spec fn crossing_frames<P>(samples: Seq<Sample<P>>, hits: Seq<bool>) -> Seq<u32>
    decreases samples.len(),
{
    if samples.len() == 0 {
        Seq::empty()
    } else {
        let before = crossing_frames(samples.drop_last(), hits);
        if is_hit(samples, hits, samples.len() - 1) {
            before.push(samples.last().relative_frame)
        } else {
            before
        }
    }
}

/// The obstacles of the level. An obstacle is known by its index, which it
/// keeps.
#[derive(Debug)]
pub struct Obstacles {
    items: Vec<Obstacle>,
}

impl View for Obstacles {
    type V = Seq<Obstacle>;

    closed spec fn view(&self) -> Seq<Obstacle> {
        self.items@
    }
}

impl Obstacles {
    /// The invariant of the obstacles: each is well formed, at most one is a
    /// ghost and at most one is the last placed.
    pub open spec fn wf(&self) -> bool {
        &&& forall|i: int| 0 <= i < self@.len() ==> #[trigger] self@[i].wf()
        &&& forall|i: int, j: int|
            0 <= i < self@.len() && 0 <= j < self@.len() && self@[i].is_ghost && self@[j].is_ghost
                ==> i == j
        &&& forall|i: int, j: int|
            0 <= i < self@.len() && 0 <= j < self@.len() && self@[i].is_last_placed
                && self@[j].is_last_placed ==> i == j
    }

    /// No obstacles.
    pub fn new() -> (obstacles: Self)
        ensures
            obstacles.wf(),
            obstacles@.len() == 0,
    {
        Obstacles { items: Vec::new() }
    }

    pub fn len(&self) -> (len: usize)
        ensures
            len == self@.len(),
    {
        self.items.len()
    }

    /// The obstacle at `index`, if there is one.
    pub fn get(&self, index: usize) -> (found: Option<Obstacle>)
        ensures
            index < self@.len() ==> found == Some(self@[index as int]),
            index >= self@.len() ==> found is None,
    {
        if index < self.items.len() {
            Some(self.items[index])
        } else {
            None
        }
    }

    /// The index of the ghost, if there is one.
    pub fn ghost(&self) -> (found: Option<usize>)
        ensures
            match found {
                Some(index) => index < self@.len() && self@[index as int].is_ghost,
                None => no_ghost(self@),
            },
    {
        let n = self.items.len();
        let mut i: usize = 0;
        while i < n
            invariant
                i <= n,
                n == self.items@.len(),
                forall|k: int| 0 <= k < i ==> !self.items@[k].is_ghost,
            decreases n - i,
        {
            if self.items[i].is_ghost {
                return Some(i);
            }
            i += 1;
        }
        None
    }

    /// The index of the obstacle that was placed last, if one is marked so.
    pub fn last_placed(&self) -> (found: Option<usize>)
        ensures
            match found {
                Some(index) => index < self@.len() && self@[index as int].is_last_placed,
                None => no_last_placed(self@),
            },
    {
        let n = self.items.len();
        let mut i: usize = 0;
        while i < n
            invariant
                i <= n,
                n == self.items@.len(),
                forall|k: int| 0 <= k < i ==> !self.items@[k].is_last_placed,
            decreases n - i,
        {
            if self.items[i].is_last_placed {
                return Some(i);
            }
            i += 1;
        }
        None
    }

    /// Takes the mark of the last placed from the obstacle that has it.
    pub(crate) fn retire_last_placed(&mut self)
        requires
            old(self).wf(),
        ensures
            final(self).wf(),
            final(self)@ == old(self)@.map_values(|o: Obstacle| o.retired()),
    {
        match self.last_placed() {
            Some(index) => {
                let mut obstacle = self.items[index];
                obstacle.is_last_placed = false;
                self.items.set(index, obstacle);
            },
            None => {},
        }
        assert forall|i: int| 0 <= i < self@.len() implies #[trigger] self@[i].wf() by {
            assert(old(self)@[i].wf());
        }
    }
}

/// Whether the schedules are overridden: in defend mode, and in the step after
/// the player died, no obstacle with a schedule is there.
pub open spec fn schedules_overridden(mode: GameMode, player_died: bool) -> bool {
    mode == GameMode::Defend || player_died
}

/// The systems of the obstacles.
pub struct ObstaclePlugin;

impl ObstaclePlugin {
    /// Whether the schedules are overridden in this step.
    pub fn overrides_schedules(mode: GameMode, player_died: bool) -> (overridden: bool)
        ensures
            overridden == schedules_overridden(mode, player_died),
    {
        mode == GameMode::Defend || player_died
    }

    /// Switches every obstacle with a schedule off, whatever its phase.
    pub fn force_disable(obstacles: &mut Obstacles)
        requires
            old(obstacles).wf(),
        ensures
            final(obstacles).wf(),
            final(obstacles)@ == old(obstacles)@.map_values(|o: Obstacle| o.forced_off()),
    {
        let n = obstacles.items.len();
        let mut i: usize = 0;
        while i < n
            invariant
                i <= n,
                n == old(obstacles)@.len(),
                obstacles@.len() == n,
                forall|k: int| 0 <= k < i ==> obstacles@[k] == old(obstacles)@[k].forced_off(),
                forall|k: int| i <= k < n ==> obstacles@[k] == old(obstacles)@[k],
            decreases n - i,
        {
            let mut obstacle = obstacles.items[i];
            obstacle.disabled = obstacle.flicker.is_some();
            obstacles.items.set(i, obstacle);
            i += 1;
        }
        assert forall|k: int| 0 <= k < obstacles@.len() implies #[trigger] obstacles@[k].wf() by {
            assert(old(obstacles)@[k].wf());
        }
    }

    /// Brings every obstacle with a schedule to the state that its schedule
    /// has for `current_frame`, counted from the start of the recording, and
    /// hands out the obstacles that it switched on, in the order of their
    /// indices.
    ///
    /// In defend mode, and in the step after the player died, the schedules
    /// are overridden: every obstacle with a schedule is switched off and
    /// none is handed out.
    pub fn flicker_on_frames<P>(
        mode: GameMode,
        player_died: bool,
        recorded_positions: &RecordedPositions<P>,
        obstacles: &mut Obstacles,
        current_frame: u32,
    ) -> (switched_on: Vec<usize>)
        requires
            old(obstacles).wf(),
        ensures
            final(obstacles).wf(),
            schedules_overridden(mode, player_died) ==> {
                &&& switched_on@.len() == 0
                &&& final(obstacles)@ == old(obstacles)@.map_values(|o: Obstacle| o.forced_off())
            },
            !schedules_overridden(mode, player_died) ==> {
                let elapsed = elapsed_since(recorded_positions@.frame_start, current_frame as nat);
                &&& final(obstacles)@ == old(obstacles)@.map_values(
                    |o: Obstacle| o.scheduled(elapsed),
                )
                &&& forall|id: usize|
                    switched_on@.contains(id) <==> {
                        &&& id < old(obstacles)@.len()
                        &&& old(obstacles)@[id as int].switches_on(elapsed)
                    }
                &&& forall|a: int, b: int|
                    0 <= a < b < switched_on@.len() ==> switched_on@[a] < switched_on@[b]
            },
    {
        let mut switched_on: Vec<usize> = Vec::new();
        if Self::overrides_schedules(mode, player_died) {
            Self::force_disable(obstacles);
            return switched_on;
        }
        let elapsed = elapsed_frames(recorded_positions.frame_start(), current_frame);
        let n = obstacles.items.len();
        let mut i: usize = 0;
        while i < n
            invariant
                i <= n,
                n == old(obstacles)@.len(),
                obstacles@.len() == n,
                forall|k: int|
                    0 <= k < i ==> obstacles@[k] == old(obstacles)@[k].scheduled(elapsed as nat),
                forall|k: int| i <= k < n ==> obstacles@[k] == old(obstacles)@[k],
                forall|k: int| 0 <= k < n ==> #[trigger] old(obstacles)@[k].wf(),
                forall|id: usize|
                    switched_on@.contains(id) <==> id < i && old(obstacles)@[id as int].switches_on(
                        elapsed as nat,
                    ),
                forall|a: int, b: int|
                    0 <= a < b < switched_on@.len() ==> switched_on@[a] < switched_on@[b],
            decreases n - i,
        {
            let mut obstacle = obstacles.items[i];
            assert(old(obstacles)@[i as int].wf());
            let ghost handed_out = switched_on@;
            match obstacle.flicker {
                Some(flicker) => {
                    let active = flicker.is_active(elapsed);
                    if active && obstacle.disabled {
                        switched_on.push(i);
                    }
                    obstacle.disabled = !active;
                    obstacles.items.set(i, obstacle);
                },
                None => {},
            }
            proof {
                let switches = old(obstacles)@[i as int].switches_on(elapsed as nat);
                assert(switched_on@ == if switches {
                    handed_out.push(i)
                } else {
                    handed_out
                });
                assert forall|id: usize|
                    switched_on@.contains(id) <==> id < i + 1 && old(
                        obstacles,
                    )@[id as int].switches_on(elapsed as nat) by {
                    if switches {
                        assert(switched_on@[handed_out.len() as int] == i);
                        if handed_out.contains(id) {
                            let at = choose|at: int|
                                0 <= at < handed_out.len() && handed_out[at] == id;
                            assert(switched_on@[at] == id);
                        }
                    }
                }
                assert forall|a: int, b: int|
                    0 <= a < b < switched_on@.len() implies switched_on@[a] < switched_on@[b] by {
                    if b == handed_out.len() {
                        assert(handed_out.contains(handed_out[a]));
                    }
                }
            }
            i += 1;
        }
        assert(obstacles@ =~= old(obstacles)@.map_values(
            |o: Obstacle| o.scheduled(elapsed as nat),
        ));
        assert forall|k: int| 0 <= k < obstacles@.len() implies #[trigger] obstacles@[k].wf() by {
            assert(old(obstacles)@[k].wf());
        }
        switched_on
    }

    /// Puts a new ghost among the obstacles and hands out its index.
    ///
    /// There is only ever one ghost: where one exists already, the new one
    /// takes its place and its index.
    pub fn spawn_obstacle_ghost(
        obstacles: &mut Obstacles,
        event: SpawnGhostObstacleEvent,
    ) -> (id: usize)
        requires
            old(obstacles).wf(),
        ensures
            final(obstacles).wf(),
            no_ghost(old(obstacles)@) ==> {
                &&& id == old(obstacles)@.len()
                &&& final(obstacles)@ == old(obstacles)@.push(Obstacle::ghost_of(event.obs_type))
            },
            !no_ghost(old(obstacles)@) ==> {
                &&& id < old(obstacles)@.len()
                &&& old(obstacles)@[id as int].is_ghost
                &&& final(obstacles)@ == old(obstacles)@.update(
                    id as int,
                    Obstacle::ghost_of(event.obs_type),
                )
            },
            id < final(obstacles)@.len(),
            final(obstacles)@[id as int] == Obstacle::ghost_of(event.obs_type),
    {
        let fresh = Obstacle::ghost(event.obs_type);
        let id = match obstacles.ghost() {
            Some(id) => {
                obstacles.items.set(id, fresh);
                id
            },
            None => {
                obstacles.items.push(fresh);
                obstacles.items.len() - 1
            },
        };
        assert forall|k: int| 0 <= k < obstacles@.len() implies #[trigger] obstacles@[k].wf() by {
            assert(k != id ==> old(obstacles)@[k].wf());
        }
        id
    }

    /// Decides what a collision that started between `obstacle` and another
    /// body means: the player's death where the other body is the player and
    /// the hit counts.
    pub fn on_collision(
        mode: GameMode,
        obstacles: &Obstacles,
        obstacle: usize,
        collider_is_player: bool,
    ) -> (death: Option<PlayerDeath>)
        ensures
            death is Some <==> collider_is_player && registers_hit(
                mode,
                obstacles@,
                obstacle as int,
            ),
    {
        if !collider_is_player {
            return None;
        }
        match obstacles.get(obstacle) {
            None => None,
            Some(hit) => {
                // Still being placed.
                if hit.is_ghost {
                    return None;
                }
                // A replay is only stopped by the obstacle placed against it.

                if mode == GameMode::Replay && !hit.is_last_placed {
                    if obstacles.last_placed().is_some() {
                        return None;
                    }
                }
                Some(PlayerDeath)
            },
        }
    }

    /// Places the ghost: it is no ghost any more and becomes the last placed
    /// obstacle in place of the one before. A schedule that it carries is
    /// timed to start a burst on `strike`, or gets `DEFAULT_DELAY` where there
    /// is no such frame.
    ///
    /// Only in defend mode, and only if there is a ghost. Hands out the index
    /// of the obstacle placed.
    pub fn commit_ghost(mode: GameMode, obstacles: &mut Obstacles, strike: Option<u32>) -> (placed:
        Option<usize>)
        requires
            old(obstacles).wf(),
        ensures
            final(obstacles).wf(),
            placed is Some <==> mode == GameMode::Defend && !no_ghost(old(obstacles)@),
            match placed {
                Some(ghost_index) => {
                    &&& ghost_index < old(obstacles)@.len()
                    &&& old(obstacles)@[ghost_index as int].is_ghost
                    &&& final(obstacles)@ == committed(old(obstacles)@, ghost_index as int, strike)
                    &&& no_ghost(final(obstacles)@)
                    &&& final(obstacles)@[ghost_index as int].is_last_placed
                },
                None => final(obstacles)@ == old(obstacles)@,
            },
    {
        if mode != GameMode::Defend {
            return None;
        }
        let ghost_index = match obstacles.ghost() {
            Some(ghost_index) => ghost_index,
            None => {
                return None;
            },
        };
        obstacles.retire_last_placed();
        let mut obstacle = obstacles.items[ghost_index];
        assert(old(obstacles)@[ghost_index as int].wf());
        obstacle.is_ghost = false;
        obstacle.is_last_placed = true;
        obstacle.flicker = match obstacle.flicker {
            Some(flicker) => {
                let delay = match strike {
                    Some(frame) => Flicker::delay_for_strike(frame, flicker.period),
                    None => DEFAULT_DELAY,
                };
                Some(Flicker { period: flicker.period, delay, duration: flicker.duration })
            },
            None => None,
        };
        obstacles.items.set(ghost_index, obstacle);
        assert forall|k: int| 0 <= k < obstacles@.len() implies #[trigger] obstacles@[k].wf() by {
            assert(old(obstacles)@[k].wf());
        }
        Some(ghost_index)
    }

    /// The relative frames of the recorded samples that were found to cross
    /// the obstacle. `hits` says of each sample, by its index, whether it does.
    pub fn strike_frames<P>(recorded_positions: &RecordedPositions<P>, hits: &Vec<bool>) -> (frames:
        Vec<u32>)
        ensures
            frames@ == crossing_frames(recorded_positions@.samples, hits@),
    {
        let samples = recorded_positions.samples();
        let n = samples.len();
        let mut frames: Vec<u32> = Vec::new();
        let mut i: usize = 0;
        while i < n
            invariant
                i <= n,
                n == samples@.len(),
                frames@ == crossing_frames(samples@.take(i as int), hits@),
            decreases n - i,
        {
            proof {
                let longer = samples@.take(i + 1);
                assert(longer.drop_last() =~= samples@.take(i as int));
            }
            if i < hits.len() && hits[i] {
                frames.push(samples[i].relative_frame);
            }
            i += 1;
        }
        assert(samples@.take(n as int) =~= samples@);
        frames
    }

    /// Places the ghost on a click, and times a schedule that it carries to
    /// the recorded run: to one of the frames on which the run crosses the
    /// obstacle, picked by chance, or to none where the run never does.
    ///
    /// `hits` says of each recorded sample, by its index, whether the player
    /// as recorded there touches the obstacle where it stands.
    pub fn place_ghost_obs<P>(
        mode: GameMode,
        obstacles: &mut Obstacles,
        recorded_positions: &RecordedPositions<P>,
        hits: &Vec<bool>,
    ) -> (placed: Option<usize>)
        requires
            old(obstacles).wf(),
        ensures
            final(obstacles).wf(),
            placed is Some <==> mode == GameMode::Defend && !no_ghost(old(obstacles)@),
            placed is None ==> final(obstacles)@ == old(obstacles)@,
            placed matches Some(ghost_index) ==> {
                let crossing = crossing_frames(recorded_positions@.samples, hits@);
                &&& ghost_index < old(obstacles)@.len()
                &&& old(obstacles)@[ghost_index as int].is_ghost
                &&& no_ghost(final(obstacles)@)
                &&& final(obstacles)@[ghost_index as int].is_last_placed
                &&& crossing.len() == 0 ==> final(obstacles)@ == committed(
                    old(obstacles)@,
                    ghost_index as int,
                    None,
                )
                &&& crossing.len() > 0 ==> exists|pick: int|
                    0 <= pick < crossing.len() && final(obstacles)@ == committed(
                        old(obstacles)@,
                        ghost_index as int,
                        Some(#[trigger] crossing[pick]),
                    )
            },
    {
        if mode != GameMode::Defend {
            return None;
        }
        let carries_schedule = match obstacles.ghost() {
            Some(ghost_index) => obstacles.items[ghost_index].flicker.is_some(),
            None => {
                return None;
            },
        };
        let ghost frames_found = crossing_frames(recorded_positions@.samples, hits@);
        let strike = if carries_schedule {
            let frames = Self::strike_frames(recorded_positions, hits);
            if frames.len() > 0 {
                let pick = random_below(frames.len());
                Some(frames[pick])
            } else {
                None
            }
        } else {
            None
        };
        let placed = Self::commit_ghost(mode, obstacles, strike);
        proof {
            if let Some(ghost_index) = placed {
                if frames_found.len() > 0 && !carries_schedule {
                    assert(committed(old(obstacles)@, ghost_index as int, None) =~= committed(
                        old(obstacles)@,
                        ghost_index as int,
                        Some(frames_found[0]),
                    ));
                }
            }
        }
        placed
    }
}

/// A ghost never kills: no collision with it counts, in any mode.
pub proof fn lemma_ghost_never_kills(mode: GameMode, obstacles: Seq<Obstacle>, obstacle: int)
    requires
        0 <= obstacle < obstacles.len(),
        obstacles[obstacle].is_ghost,
    ensures
        !registers_hit(mode, obstacles, obstacle),
{
}

/// During a replay, while some obstacle is marked as the last placed, a
/// collision counts with that obstacle and with no other.
pub proof fn lemma_replay_hits_are_filtered(
    obstacles: Seq<Obstacle>,
    last_placed: int,
    obstacle: int,
)
    requires
        0 <= last_placed < obstacles.len(),
        0 <= obstacle < obstacles.len(),
        obstacles[last_placed].is_last_placed,
        !obstacles[last_placed].is_ghost,
        forall|i: int| 0 <= i < obstacles.len() && obstacles[i].is_last_placed ==> i == last_placed,
    ensures
        registers_hit(GameMode::Replay, obstacles, obstacle) <==> obstacle == last_placed,
{
}

/// A schedule without delay has the obstacle there on exactly the ticks
/// whose remainder by the period is below the duration.
pub proof fn lemma_flicker_periodicity(flicker: Flicker, tick: nat)
    requires
        flicker.wf(),
        flicker.delay == 0,
    ensures
        flicker.active_at(tick) <==> tick % (flicker.period as nat) < flicker.duration,
{
}

/// Every schedule repeats after its period.
pub proof fn lemma_flicker_repeats(flicker: Flicker, tick: nat)
    requires
        flicker.wf(),
    ensures
        flicker.active_at(tick + flicker.period as nat) == flicker.active_at(tick),
{
    let period = flicker.period as int;
    lemma_mod_add_multiples_vanish(tick + flicker.delay, period);
}

/// A schedule timed to strike on `frame` starts a burst on that very frame:
/// its phase is 0 there, and the obstacle is there if a burst lasts at all.
pub proof fn lemma_strike_starts_burst(flicker: Flicker, frame: u32)
    requires
        flicker.wf(),
    ensures
        delay_to_strike(frame as nat, flicker.period as nat) < flicker.period,
        (Flicker {
            delay: delay_to_strike(frame as nat, flicker.period as nat) as u32,
            ..flicker
        }).phase_at(frame as nat) == 0,
        flicker.duration > 0 ==> (Flicker {
            delay: delay_to_strike(frame as nat, flicker.period as nat) as u32,
            ..flicker
        }).active_at(frame as nat),
{
    let period = flicker.period as int;
    let rest = frame as int % period;
    let delay = (period - rest) % period;
    lemma_fundamental_div_mod(frame as int, period);
    lemma_mod_pos_bound(frame as int, period);
    lemma_mod_pos_bound(period - rest, period);
    let rounds = frame as int / period;
    if rest == 0 {
        lemma_mod_self_0(period);
    } else {
        lemma_small_mod((period - rest) as nat, period as nat);
        assert(frame + delay == (rounds + 1) * period) by (nonlinear_arith)
            requires
                frame == period * rounds + rest,
                delay == period - rest,
        ;
        lemma_mod_multiples_basic(rounds + 1, period);
    }
}

/// The frames that `crossing_frames` gives are those of the samples found to
/// cross the obstacle, and none of these is left out.
pub proof fn lemma_crossing_frames<P>(samples: Seq<Sample<P>>, hits: Seq<bool>)
    ensures
        forall|pick: int|
            0 <= pick < crossing_frames(samples, hits).len() ==> crosses_on(
                samples,
                hits,
                #[trigger] crossing_frames(samples, hits)[pick],
            ),
        forall|index: int| #[trigger]
            is_hit(samples, hits, index) ==> crossing_frames(samples, hits).contains(
                samples[index].relative_frame,
            ),
    decreases samples.len(),
{
    if samples.len() > 0 {
        let shorter = samples.drop_last();
        let last = samples.len() - 1;
        let before = crossing_frames(shorter, hits);
        let all = crossing_frames(samples, hits);
        lemma_crossing_frames(shorter, hits);
        assert forall|pick: int| 0 <= pick < all.len() implies crosses_on(
            samples,
            hits,
            #[trigger] all[pick],
        ) by {
            if pick < before.len() {
                let index = choose|index: int|
                    is_hit(shorter, hits, index) && shorter[index].relative_frame == before[pick];
                assert(is_hit(samples, hits, index) && samples[index].relative_frame == all[pick]);
            } else {
                assert(is_hit(samples, hits, last) && samples[last].relative_frame == all[pick]);
            }
        }
        assert forall|index: int| #[trigger] is_hit(samples, hits, index) implies all.contains(
            samples[index].relative_frame,
        ) by {
            if index < last {
                assert(is_hit(shorter, hits, index));
                let at = choose|at: int|
                    0 <= at < before.len() && before[at] == shorter[index].relative_frame;
                assert(all[at] == samples[index].relative_frame);
            } else {
                assert(all[all.len() - 1] == samples[index].relative_frame);
            }
        }
    }
}

} // verus!
