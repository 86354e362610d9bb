// Scenario tests for the deterministic per-frame simulation. Coordinates
// use 6000 fixed-point units per world unit, so a player speed of 10 units
// per second at a fixed timestep of 1/60 s is a step of 1000 per frame, and
// the radii 0.5 and 0.025 become 3000 and 150.

use rollback_arena::input::Input;
use rollback_arena::step::simulate;
use rollback_arena::world::{Config, Vec2I, WorldState};

fn arena_config() -> Config {
    Config {
        player_step: 1000,
        bullet_step: 1800,
        max_range: 120000,
        player_radius: 3000,
        bullet_radius: 150,
        reload_frames: 30,
        max_health: 99,
        input_delay: 2,
        history_window: 8,
        spawn0: Vec2I { x: -30000, y: 0 },
        spawn1: Vec2I { x: 30000, y: 0 },
    }
}

fn idle() -> Input {
    Input::idle()
}

fn move_to(x: i32, y: i32) -> Input {
    Input { move_flag: true, fire_flag: false, target_x: x, target_y: y }
}

fn fire_at(x: i32, y: i32) -> Input {
    Input { move_flag: false, fire_flag: true, target_x: x, target_y: y }
}

fn run(cfg: &Config, in0: Vec<Input>, in1: Vec<Input>, n: usize) -> WorldState {
    let init = WorldState::initial(cfg);
    simulate(cfg, &init, &in0, &in1, n)
}

#[test]
fn config_is_well_formed() {
    assert!(arena_config().check());
}

#[test]
fn pursuit_converges_and_stops() {
    // Player 0 at (-5, 0) heads for the origin for 50 consecutive frames at
    // speed 10 with a 1/60 timestep: 30000 units away, 1000 per frame.
    let cfg = arena_config();
    let in0 = vec![move_to(0, 0); 50];
    let in1 = vec![idle(); 50];
    let w = run(&cfg, in0.clone(), in1.clone(), 15);
    assert_eq!(w.player0.pos, Vec2I { x: -15000, y: 0 });
    assert!(w.player0.moving);
    assert!(w.player0.facing_right);
    let w = run(&cfg, in0, in1, 50);
    assert_eq!(w.player0.pos, Vec2I { x: 0, y: 0 });
    assert!(!w.player0.moving);
    // The idle opponent never moved.
    assert_eq!(w.player1.pos, Vec2I { x: 30000, y: 0 });
}

#[test]
fn facing_follows_horizontal_direction() {
    let cfg = arena_config();
    let w = run(&cfg, vec![move_to(-60000, 0); 3], vec![idle(); 3], 3);
    assert!(!w.player0.facing_right);
    assert_eq!(w.player0.move_dir, Vec2I { x: -1, y: 0 });
    let w = run(&cfg, vec![move_to(0, 0); 3], vec![idle(); 3], 3);
    assert!(w.player0.facing_right);
    assert_eq!(w.player0.move_dir, Vec2I { x: 1, y: 0 });
}

#[test]
fn fired_projectile_hits_exact_position() {
    // Player 0 fires at player 1's exact position. The projectile starts at
    // the shooter and flies 1800 per frame along x; it first comes strictly
    // within 3150 = player_radius + bullet_radius of (30000, 0) on its 32nd
    // frame of flight (x = 27600), within ceil(60000 / 1800) = 34 frames.
    let cfg = arena_config();
    let mut in0 = vec![fire_at(30000, 0)];
    in0.extend(vec![idle(); 40]);
    let in1 = vec![idle(); 41];
    let w = run(&cfg, in0.clone(), in1.clone(), 31);
    assert_eq!(w.player1.health.current(), 99);
    assert_eq!(w.projectiles.len(), 1);
    let w = run(&cfg, in0.clone(), in1.clone(), 32);
    assert_eq!(w.player1.health.current(), 98);
    assert_eq!(w.player1.health.max(), 99);
    // Despawned the same frame it hit, and the shooter was never harmed by
    // its own projectile.
    assert_eq!(w.projectiles.len(), 0);
    assert_eq!(w.player0.health.current(), 99);
    let w = run(&cfg, in0, in1, 40);
    assert_eq!(w.player1.health.current(), 98);
}

#[test]
fn cooldown_blocks_fire_until_released() {
    // With a 3-frame cooldown: the shot on frame 0 empties the weapon; the
    // timer runs out on frame 2, but the held fire flag keeps the weapon
    // unready through frame 3; releasing on frame 4 readies it; exactly one
    // new projectile spawns when fire is pressed again on frame 5.
    let mut cfg = arena_config();
    cfg.reload_frames = 3;
    let aim = fire_at(-30000, 60000);
    let in0 = vec![aim, aim, aim, aim, idle(), aim, idle()];
    let in1 = vec![idle(); 7];
    let w = run(&cfg, in0.clone(), in1.clone(), 4);
    assert_eq!(w.projectiles.len(), 1);
    assert!(!w.player0.bullet_ready);
    let w = run(&cfg, in0.clone(), in1.clone(), 5);
    assert_eq!(w.projectiles.len(), 1);
    assert!(w.player0.bullet_ready);
    let w = run(&cfg, in0, in1, 6);
    assert_eq!(w.projectiles.len(), 2);
    assert!(w.projectiles.iter().all(|b| b.shooter == 0));
    assert!(!w.player0.bullet_ready);
}

#[test]
fn range_expiry_is_inclusive() {
    // A projectile whose travelled distance reaches max_range exactly is
    // removed on that same frame.
    let mut cfg = arena_config();
    cfg.max_range = 3600;
    let mut in0 = vec![fire_at(-30000, 60000)];
    in0.extend(vec![idle(); 4]);
    let in1 = vec![idle(); 5];
    let w = run(&cfg, in0.clone(), in1.clone(), 1);
    assert_eq!(w.projectiles.len(), 1);
    assert_eq!(w.projectiles[0].distance_traveled, 1800);
    let w = run(&cfg, in0, in1, 2);
    assert_eq!(w.projectiles.len(), 0);
    // With max_range equal to one flight step the projectile dies on the
    // very frame it was fired.
    cfg.max_range = 1800;
    let mut in0 = vec![fire_at(-30000, 60000)];
    in0.extend(vec![idle(); 1]);
    let w = run(&cfg, in0, vec![idle(); 2], 1);
    assert_eq!(w.projectiles.len(), 0);
}

#[test]
fn firing_at_own_position_fizzles() {
    let cfg = arena_config();
    let w = run(&cfg, vec![fire_at(-30000, 0)], vec![idle()], 1);
    assert_eq!(w.projectiles.len(), 0);
    assert!(w.player0.bullet_ready);
}

#[test]
fn health_wraps_to_full_on_fatal_hit() {
    // Two hits against max_health 2: the first leaves 1, the second is
    // fatal and restores full health instead of removing the player.
    let mut cfg = arena_config();
    cfg.max_health = 2;
    cfg.reload_frames = 1;
    cfg.spawn0 = Vec2I { x: -6000, y: 0 };
    cfg.spawn1 = Vec2I { x: 6000, y: 0 };
    let f = fire_at(6000, 0);
    let in0 = vec![f, idle(), f, idle(), idle(), idle(), idle(), idle()];
    let in1 = vec![idle(); 8];
    let w = run(&cfg, in0.clone(), in1.clone(), 5);
    assert_eq!(w.player1.health.current(), 1);
    let w = run(&cfg, in0, in1, 7);
    assert_eq!(w.player1.health.current(), 2);
    assert_eq!(w.projectiles.len(), 0);
}

#[test]
fn simulation_is_deterministic() {
    // The same input histories from the same start give a bit-identical
    // world, however often they are replayed.
    let cfg = arena_config();
    let mut in0 = Vec::new();
    let mut in1 = Vec::new();
    for k in 0..40i32 {
        in0.push(if k % 3 == 0 {
            move_to(6000 * (k % 7), -3000 * (k % 5))
        } else if k % 7 == 1 {
            fire_at(30000, 600 * k)
        } else {
            idle()
        });
        in1.push(if k % 4 == 2 {
            move_to(-2400 * (k % 9), 1200 * (k % 3))
        } else if k % 11 == 3 {
            fire_at(-30000, -900 * k)
        } else {
            idle()
        });
    }
    let init = WorldState::initial(&cfg);
    let a = simulate(&cfg, &init, &in0, &in1, 40);
    let b = simulate(&cfg, &init, &in0, &in1, 40);
    assert!(a.state_eq(&b));
    // And replaying only a prefix agrees with the longer run frame count.
    let c = simulate(&cfg, &init, &in0, &in1, 39);
    let d = simulate(&cfg, &c, &vec![in0[39]], &vec![in1[39]], 1);
    assert!(a.state_eq(&d));
}
