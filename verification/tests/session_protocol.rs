// Behavioral tests for the rollback session: prediction, input delay,
// misprediction and resimulation, and the session-fatal conditions.

use rollback_arena::input::Input;
use rollback_arena::session::{RollbackSession, SessionError};
use rollback_arena::step::simulate;
use rollback_arena::world::{Config, Vec2I, WorldState};

fn arena_config() -> Config {
    Config {
        player_step: 1000,
        bullet_step: 1800,
        max_range: 120000,
        player_radius: 3000,
        bullet_radius: 150,
        reload_frames: 30,
        max_health: 99,
        input_delay: 0,
        history_window: 8,
        spawn0: Vec2I { x: -30000, y: 0 },
        spawn1: Vec2I { x: 30000, y: 0 },
    }
}

fn idle() -> Input {
    Input::idle()
}

fn move_to(x: i32, y: i32) -> Input {
    Input { move_flag: true, fire_flag: false, target_x: x, target_y: y }
}

fn fire_at(x: i32, y: i32) -> Input {
    Input { move_flag: false, fire_flag: true, target_x: x, target_y: y }
}

#[test]
fn prediction_defaults_to_idle_and_repeats_last() {
    let cfg = arena_config();
    let mut s = RollbackSession::new(&cfg, 0);
    assert_eq!(s.predicted_input(1, 0), idle());
    assert_eq!(s.predicted_input(1, 7), idle());
    let m = move_to(0, 0);
    assert_eq!(s.receive_remote_input(1, 3, m), Ok(()));
    // Frames after the known one repeat it; earlier frames know nothing.
    assert_eq!(s.predicted_input(1, 4), m);
    assert_eq!(s.predicted_input(1, 9), m);
    assert_eq!(s.predicted_input(1, 3), idle());
}

#[test]
fn session_without_prediction_matches_direct_simulation() {
    let cfg = arena_config();
    let mut s = RollbackSession::new(&cfg, 0);
    let in0 = vec![move_to(0, 0), move_to(0, 0), fire_at(30000, 0), idle(), idle()];
    let in1 = vec![idle(), move_to(0, 0), move_to(0, 0), move_to(0, 0), idle()];
    for f in 0..5 {
        assert_eq!(s.add_local_input(in0[f]), Ok(()));
        assert_eq!(s.receive_remote_input(1, f, in1[f]), Ok(()));
        s.advance();
        assert!(!s.rollback_pending());
    }
    assert_eq!(s.current_frame(), 5);
    assert_eq!(s.confirmed_frames(), 5);
    assert_eq!(s.frames_ahead(), 0);
    let init = WorldState::initial(&cfg);
    let direct = simulate(&cfg, &init, &in0, &in1, 5);
    assert!(s.world().state_eq(&direct));
}

#[test]
fn rollback_reproduces_the_true_timeline() {
    // Simulate three frames predicting the remote player idle, then learn
    // the true frame-0 input. After the next advance the world must equal
    // a from-scratch simulation in which that input was known all along,
    // with frames 1..3 using the repeat-last prediction of it.
    let cfg = arena_config();
    let mut s = RollbackSession::new(&cfg, 0);
    let locals = [move_to(0, 0), move_to(0, 0), move_to(0, 0), idle()];
    for f in 0..3 {
        assert_eq!(s.add_local_input(locals[f]), Ok(()));
        s.advance();
    }
    let truth = move_to(0, 0);
    assert_eq!(s.receive_remote_input(1, 0, truth), Ok(()));
    assert!(s.rollback_pending());
    assert_eq!(s.add_local_input(locals[3]), Ok(()));
    s.advance();
    assert!(!s.rollback_pending());
    assert_eq!(s.current_frame(), 4);
    let in0 = locals.to_vec();
    let in1 = vec![truth, truth, truth, truth];
    let init = WorldState::initial(&cfg);
    let direct = simulate(&cfg, &init, &in0, &in1, 4);
    assert!(s.world().state_eq(&direct));
}

#[test]
fn resimulating_a_hit_deducts_exactly_one_point() {
    // The frame in which a projectile lands is simulated once on
    // prediction and then re-simulated by a rollback: the victim still
    // loses exactly one health point.
    let mut cfg = arena_config();
    cfg.max_health = 2;
    cfg.spawn0 = Vec2I { x: -6000, y: 0 };
    cfg.spawn1 = Vec2I { x: 6000, y: 0 };
    let mut s = RollbackSession::new(&cfg, 0);
    let shot = fire_at(6000, 0);
    for f in 0..6 {
        assert_eq!(s.add_local_input(if f == 0 { shot } else { idle() }), Ok(()));
        s.advance();
    }
    // The hit has landed once, on the predicted timeline.
    assert_eq!(s.world().player1.health.current(), 1);
    // Now the true remote input for frame 0 arrives: the remote player
    // fired back. Every frame including the hit is resimulated.
    let truth = fire_at(-6000, 0);
    assert_eq!(s.receive_remote_input(1, 0, truth), Ok(()));
    assert!(s.rollback_pending());
    assert_eq!(s.add_local_input(idle()), Ok(()));
    s.advance();
    // One point lost on each side, not two on the first victim.
    assert_eq!(s.world().player1.health.current(), 1);
    assert_eq!(s.world().player0.health.current(), 1);
    let init = WorldState::initial(&cfg);
    let mut in0 = vec![shot];
    in0.extend(vec![idle(); 6]);
    let in1 = vec![truth; 7];
    let direct = simulate(&cfg, &init, &in0, &in1, 7);
    assert!(s.world().state_eq(&direct));
}

#[test]
fn late_contradicting_input_desynchronizes() {
    let mut cfg = arena_config();
    cfg.history_window = 2;
    let mut s = RollbackSession::new(&cfg, 0);
    for _ in 0..5 {
        assert_eq!(s.add_local_input(idle()), Ok(()));
        s.advance();
    }
    // Frame 1 was simulated with the idle prediction; its restore snapshot
    // has left the two-frame window, so the contradiction is fatal.
    assert_eq!(
        s.receive_remote_input(1, 1, move_to(0, 0)),
        Err(SessionError::Desynchronized)
    );
    // Frame 0 restores from the initial world, which is always available.
    assert_eq!(s.receive_remote_input(1, 0, move_to(0, 0)), Ok(()));
    assert!(s.rollback_pending());
    assert_eq!(s.add_local_input(idle()), Ok(()));
    s.advance();
    assert!(!s.rollback_pending());
    assert_eq!(s.current_frame(), 6);
}

#[test]
fn matching_late_input_is_not_fatal() {
    let mut cfg = arena_config();
    cfg.history_window = 2;
    let mut s = RollbackSession::new(&cfg, 0);
    for _ in 0..5 {
        assert_eq!(s.add_local_input(idle()), Ok(()));
        s.advance();
    }
    // The prediction for frame 1 was idle; the authoritative input agrees,
    // so nothing needs resimulating however late it is.
    assert_eq!(s.receive_remote_input(1, 1, idle()), Ok(()));
    assert!(!s.rollback_pending());
}

#[test]
fn conflicting_inputs_are_refused() {
    let cfg = arena_config();
    let mut s = RollbackSession::new(&cfg, 0);
    let a = move_to(0, 0);
    let b = move_to(600, 0);
    assert_eq!(s.receive_remote_input(1, 3, a), Ok(()));
    // At-least-once transport: the same record again is accepted idly.
    assert_eq!(s.receive_remote_input(1, 3, a), Ok(()));
    assert_eq!(s.receive_remote_input(1, 3, b), Err(SessionError::ConflictingInput));
    // The slot still holds the first record.
    assert_eq!(s.predicted_input(1, 4), a);
}

#[test]
fn input_delay_buffers_local_inputs() {
    let mut cfg = arena_config();
    cfg.input_delay = 2;
    let mut s = RollbackSession::new(&cfg, 0);
    let m = move_to(0, 0);
    // The input added at frame 0 takes effect on frame 2.
    assert_eq!(s.add_local_input(m), Ok(()));
    s.advance();
    assert_eq!(s.world().player0.pos, Vec2I { x: -30000, y: 0 });
    assert_eq!(s.add_local_input(m), Ok(()));
    s.advance();
    assert_eq!(s.world().player0.pos, Vec2I { x: -30000, y: 0 });
    assert_eq!(s.add_local_input(m), Ok(()));
    s.advance();
    assert_eq!(s.world().player0.pos, Vec2I { x: -29000, y: 0 });
}

#[test]
fn observability_reports_prediction_depth() {
    let cfg = arena_config();
    let mut s = RollbackSession::new(&cfg, 0);
    assert_eq!(s.current_frame(), 0);
    assert_eq!(s.frames_ahead(), 0);
    for f in 0..4 {
        assert_eq!(s.add_local_input(idle()), Ok(()));
        if f < 2 {
            assert_eq!(s.receive_remote_input(1, f, idle()), Ok(()));
        }
        s.advance();
    }
    // Four frames simulated, the first two fully confirmed, the last two
    // still resting on prediction.
    assert_eq!(s.current_frame(), 4);
    assert_eq!(s.confirmed_frames(), 2);
    assert_eq!(s.frames_ahead(), 2);
}
