use gmtk::environment::{EnvironmentPlugin, ResetEnvironment};
use gmtk::modes::{GameMode, GoalReached, ModesManagement, Transition};
use gmtk::obstacles::{ObstaclePlugin, ObstacleType, Obstacles, SpawnGhostObstacleEvent};
use gmtk::player::record_position::{RecordPositionPlugin, RecordedPositions};
use gmtk::player::{PlayerDeath, PlayerPlugin};
use gmtk::GameState;

fn recorded(frames: std::ops::Range<u32>) -> RecordedPositions<i32> {
    let mut track = RecordedPositions::new();
    for frame in frames {
        assert!(RecordPositionPlugin::record_position(
            GameState::Game,
            GameMode::Survive,
            &mut track,
            frame,
            frame as i32,
            false,
        ));
    }
    track
}

fn spike() -> SpawnGhostObstacleEvent {
    SpawnGhostObstacleEvent::new(ObstacleType::Spike)
}

#[test]
fn the_game_starts_on_the_splash_screen_in_survive_mode() {
    assert_eq!(GameState::default(), GameState::Splash);
    assert_eq!(GameMode::default(), GameMode::Survive);
    assert!(GameState::Game.is_playable());
    for state in [GameState::Splash, GameState::Menu, GameState::Paused] {
        assert!(!state.is_playable());
    }
}

#[test]
fn only_the_player_reaches_the_goal() {
    assert_eq!(EnvironmentPlugin::goal_touched(true), Some(GoalReached));
    assert_eq!(EnvironmentPlugin::goal_touched(false), None);
}

#[test]
fn goal_in_survive_mode_leads_to_defend_mode() {
    let mut track = recorded(0..5);
    let mut obstacles = Obstacles::new();
    let laser = SpawnGhostObstacleEvent::new(ObstacleType::Laser);
    let transition =
        ModesManagement::goal_reached(GameMode::Survive, &mut track, &mut obstacles, laser);
    assert_eq!(
        transition,
        Transition {
            next_mode: Some(GameMode::Defend),
            reset_environment: Some(ResetEnvironment),
            spawn_ghost: Some(laser),
        }
    );
    // The run that was recorded stays, for the replay.
    assert_eq!(track.samples().len(), 5);
    assert_eq!(track.frame_start(), 0);
    assert!(!track.is_locked());
    assert_eq!(obstacles.len(), 0);
}

#[test]
fn goal_in_replay_mode_leads_to_the_next_defence() {
    let mut track = recorded(0..5);
    let mut obstacles = Obstacles::new();
    ObstaclePlugin::spawn_obstacle_ghost(&mut obstacles, spike());
    ObstaclePlugin::commit_ghost(GameMode::Defend, &mut obstacles, None);
    assert_eq!(obstacles.last_placed(), Some(0));

    let transition =
        ModesManagement::goal_reached(GameMode::Replay, &mut track, &mut obstacles, spike());
    assert_eq!(
        transition,
        Transition {
            next_mode: Some(GameMode::Defend),
            reset_environment: Some(ResetEnvironment),
            spawn_ghost: Some(spike()),
        }
    );
    // The obstacle stays, as one like any other.
    assert_eq!(obstacles.len(), 1);
    assert_eq!(obstacles.last_placed(), None);
    assert!(!obstacles.get(0).unwrap().is_ghost);
    assert_eq!(track.samples().len(), 5);
}

#[test]
fn goal_in_defend_mode_changes_nothing() {
    let mut track = recorded(0..5);
    PlayerPlugin::handle_death(GameMode::Survive, &mut track);
    let mut obstacles = Obstacles::new();
    ObstaclePlugin::spawn_obstacle_ghost(&mut obstacles, spike());
    ObstaclePlugin::commit_ghost(GameMode::Defend, &mut obstacles, None);

    let transition =
        ModesManagement::goal_reached(GameMode::Defend, &mut track, &mut obstacles, spike());
    assert_eq!(
        transition,
        Transition { next_mode: None, reset_environment: None, spawn_ghost: None }
    );
    assert!(track.is_locked());
    assert_eq!(obstacles.last_placed(), Some(0));

    let transition =
        ModesManagement::handle_flag_reached(GameMode::Defend, &mut track, &mut obstacles);
    assert_eq!(
        transition,
        Transition { next_mode: None, reset_environment: None, spawn_ghost: None }
    );
}

#[test]
fn goal_unlocks_the_recording() {
    for mode in [GameMode::Survive, GameMode::Replay] {
        let mut track = recorded(0..5);
        PlayerPlugin::handle_death(GameMode::Survive, &mut track);
        assert!(track.is_locked());
        let mut obstacles = Obstacles::new();
        ModesManagement::goal_reached(mode, &mut track, &mut obstacles, spike());
        assert!(!track.is_locked());
    }
}

#[test]
fn handle_flag_reached_asks_for_a_ghost_of_some_kind() {
    let mut lasers = 0;
    for _ in 0..500 {
        let mut track = recorded(0..5);
        let mut obstacles = Obstacles::new();
        let transition =
            ModesManagement::handle_flag_reached(GameMode::Survive, &mut track, &mut obstacles);
        assert_eq!(transition.next_mode, Some(GameMode::Defend));
        assert_eq!(transition.reset_environment, Some(ResetEnvironment));
        if transition.spawn_ghost.unwrap().obs_type == ObstacleType::Laser {
            lasers += 1;
        }
    }
    assert!(lasers > 0);
    assert!(lasers < 500);
}

#[test]
fn death_leads_to_survive_mode() {
    for (mode, next_mode) in [
        (GameMode::Survive, None),
        (GameMode::Defend, Some(GameMode::Survive)),
        (GameMode::Replay, Some(GameMode::Survive)),
    ] {
        let mut track = recorded(3..9);
        let transition = PlayerPlugin::handle_death(mode, &mut track);
        assert_eq!(
            transition,
            Transition { next_mode, reset_environment: Some(ResetEnvironment), spawn_ghost: None }
        );
        assert!(track.samples().is_empty());
        assert!(track.is_locked());
        assert_eq!(track.frame_start(), 3);
    }
}

#[test]
fn the_replay_waits_for_the_ghost_to_be_placed() {
    let mut track = recorded(0..5);
    let mut obstacles = Obstacles::new();
    ObstaclePlugin::spawn_obstacle_ghost(&mut obstacles, spike());

    assert_eq!(ModesManagement::handle_replay(GameMode::Defend, &obstacles, &mut track, 77), None);
    assert_eq!(track.frame_start(), 0);

    ObstaclePlugin::commit_ghost(GameMode::Defend, &mut obstacles, None);
    assert_eq!(
        ModesManagement::handle_replay(GameMode::Defend, &obstacles, &mut track, 78),
        Some(GameMode::Replay)
    );
    assert_eq!(track.frame_start(), 78);
    assert_eq!(track.last_played_frame(), 0);
    assert_eq!(track.samples().len(), 5);
}

#[test]
fn the_replay_starts_from_defend_mode_only() {
    for mode in [GameMode::Survive, GameMode::Replay] {
        let mut track = recorded(0..5);
        let obstacles = Obstacles::new();
        assert_eq!(ModesManagement::handle_replay(mode, &obstacles, &mut track, 77), None);
        assert_eq!(track.frame_start(), 0);
    }
}

#[test]
fn round_trip_mode_cycle() {
    let mut mode = GameMode::default();
    let mut obstacles = Obstacles::new();
    let mut track = recorded(10..40);
    let mut rebases = 0;
    let mut start = track.frame_start();

    // Survive: the goal is reached at frame 40.
    let transition = ModesManagement::goal_reached(mode, &mut track, &mut obstacles, spike());
    mode = transition.next_mode.unwrap();
    assert_eq!(mode, GameMode::Defend);
    let ghost =
        ObstaclePlugin::spawn_obstacle_ghost(&mut obstacles, transition.spawn_ghost.unwrap());
    if track.frame_start() != start {
        rebases += 1;
    }

    // Defend: no replay before the ghost is placed.
    assert_eq!(ModesManagement::handle_replay(mode, &obstacles, &mut track, 50), None);
    assert_eq!(
        ObstaclePlugin::place_ghost_obs(mode, &mut obstacles, &track, &vec![false; 30]),
        Some(ghost)
    );
    assert_eq!((track.frame_start(), track.last_played_frame()), (10, 0));
    mode = ModesManagement::handle_replay(mode, &obstacles, &mut track, 60).unwrap();
    assert_eq!(mode, GameMode::Replay);
    if track.frame_start() != start {
        rebases += 1;
        start = track.frame_start();
    }
    assert_eq!((track.frame_start(), track.last_played_frame()), (60, 0));
    assert_eq!(track.samples().len(), 30);

    // Replay: the recording runs to the goal.
    for frame in 60..90 {
        let written = RecordPositionPlugin::play_recorded_position(mode, &mut track, frame);
        assert_eq!(written.last().unwrap().position, (frame - 50) as i32);
        assert!(!RecordPositionPlugin::record_position(
            GameState::Game,
            mode,
            &mut track,
            frame,
            0,
            false
        ));
    }
    assert_eq!(track.last_played_frame(), 29);
    let transition = ModesManagement::goal_reached(mode, &mut track, &mut obstacles, spike());
    mode = transition.next_mode.unwrap();
    assert_eq!(mode, GameMode::Defend);
    if track.frame_start() != start {
        rebases += 1;
    }

    assert_eq!(rebases, 1);
    assert_eq!((track.frame_start(), track.last_played_frame()), (60, 29));
    assert_eq!(obstacles.last_placed(), None);
    assert_eq!(transition.spawn_ghost, Some(spike()));
}

#[test]
fn a_death_in_the_replay_starts_a_new_recording() {
    let mut track = recorded(10..40);
    let mut obstacles = Obstacles::new();
    let mut mode = GameMode::Survive;
    let transition = ModesManagement::goal_reached(mode, &mut track, &mut obstacles, spike());
    mode = transition.next_mode.unwrap();
    let spike_id =
        ObstaclePlugin::spawn_obstacle_ghost(&mut obstacles, transition.spawn_ghost.unwrap());
    ObstaclePlugin::place_ghost_obs(mode, &mut obstacles, &track, &vec![false; 30]);
    mode = ModesManagement::handle_replay(mode, &obstacles, &mut track, 100).unwrap();

    RecordPositionPlugin::play_recorded_position(mode, &mut track, 105);
    assert_eq!(ObstaclePlugin::on_collision(mode, &obstacles, spike_id, true), Some(PlayerDeath));
    let transition = PlayerPlugin::handle_death(mode, &mut track);
    mode = transition.next_mode.unwrap();
    assert_eq!(mode, GameMode::Survive);

    // Locked until the level is back at its start.
    let state = GameState::Game;
    assert!(!RecordPositionPlugin::record_position(state, mode, &mut track, 106, 0, false));
    assert_eq!(transition.reset_environment, Some(ResetEnvironment));
    PlayerPlugin::move_to_start_pos(&mut track);
    assert!(RecordPositionPlugin::record_position(state, mode, &mut track, 107, 0, false));
    assert_eq!(track.frame_start(), 107);
    assert_eq!(track.samples().len(), 1);
}
