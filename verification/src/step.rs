//! The deterministic per-frame simulation step.
//!
//! One frame applies, in this fixed order: movement, fire, reload, then the
//! combined projectile-advance / collision / damage pass. The order is a
//! correctness contract: reordering would change which positions a
//! projectile is tested against and so change resimulation outcomes. The
//! whole step is a pure function of the previous world and the two players'
//! inputs; the ghost functions here are its mathematical definition, and
//! every executable sub-system is proved equal to its ghost counterpart.
//!
//! Two conventions the rest of the crate relies on:
//! - a projectile advances already on the frame it is spawned;
//! - a projectile that expires or hits is removed in the same pass that
//!   detects it, so a frame range can be resimulated any number of times
//!   without double-counting damage.

use vstd::prelude::*;

verus! {

use crate::input::{COORD_LIMIT, Input};
use crate::math::{isqrt, lemma_isqrt_at_least, lemma_isqrt_at_most, lemma_scale_bounds, scale_i64,
    spec_isqrt, spec_scale};
use crate::world::{in_bounds, spec_dist2, Config, ConfigV, DIR_UNIT, Player, PlayerV, Projectile,
    ProjV, Vec2I, Vec2V, WorldState, WorldV};

/// Absorbing this frame's movement order: a set move flag retargets the
/// player and starts it moving.
pub open spec fn spec_retarget(p: PlayerV, i: Input) -> PlayerV {
    if i.move_flag {
        PlayerV { target: Vec2V { x: i.target_x as int, y: i.target_y as int }, moving: true, ..p }
    } else {
        p
    }
}

/// Facing follows the sign of the horizontal distance to the target, and is
/// left alone while that distance is negligible.
pub open spec fn spec_face(p: PlayerV, dx: int) -> PlayerV {
    if dx > 0 {
        PlayerV { facing_right: true, move_dir: Vec2V { x: 1, y: 0 }, ..p }
    } else if dx < 0 {
        PlayerV { facing_right: false, move_dir: Vec2V { x: -1, y: 0 }, ..p }
    } else {
        p
    }
}

/// The movement sub-system for one player: head toward the target by one
/// step of `cfg.player_step`, snapping to the target (and stopping) when it
/// is within one step.
pub open spec fn spec_move_player(cfg: ConfigV, p0: PlayerV, i: Input) -> PlayerV {
    let p = spec_retarget(p0, i);
    if !p.moving {
        p
    } else {
        let dx = p.target.x - p.pos.x;
        let dy = p.target.y - p.pos.y;
        let dist = spec_isqrt((dx * dx + dy * dy) as nat) as int;
        let q = spec_face(p, dx);
        if dist > cfg.player_step {
            PlayerV {
                pos: Vec2V {
                    x: p.pos.x + spec_scale(dx, cfg.player_step, dist),
                    y: p.pos.y + spec_scale(dy, cfg.player_step, dist),
                },
                ..q
            }
        } else {
            PlayerV { pos: p.target, moving: false, ..q }
        }
    }
}

/// The fire sub-system for one player: a fire order with a ready weapon
/// spawns one projectile aimed from the player's position at the target,
/// empties the weapon and starts the cooldown. A fire order while the
/// weapon is not ready is silently dropped, and an order aimed exactly at
/// the player's own position fizzles (it has no direction), leaving the
/// weapon ready.
pub open spec fn spec_fire_player(cfg: ConfigV, p: PlayerV, i: Input) -> (PlayerV, Option<ProjV>) {
    if i.fire_flag && p.bullet_ready {
        let dx = i.target_x - p.pos.x;
        let dy = i.target_y - p.pos.y;
        if dx == 0 && dy == 0 {
            (p, None)
        } else {
            let dist = spec_isqrt((dx * dx + dy * dy) as nat) as int;
            let q = spec_face(p, dx);
            let armed = PlayerV { bullet_ready: false, reload_timer: cfg.reload_frames, ..q };
            let b = ProjV {
                shooter: p.handle,
                pos: p.pos,
                dir: Vec2V {
                    x: spec_scale(dx, DIR_UNIT as int, dist),
                    y: spec_scale(dy, DIR_UNIT as int, dist),
                },
                traveled: 0,
            };
            (armed, Some(b))
        }
    } else {
        (p, None)
    }
}

/// The reload sub-system for one player: the cooldown timer counts down one
/// frame; once it has run out the weapon becomes ready again on the first
/// frame the fire flag is released.
pub open spec fn spec_reload_player(p: PlayerV, i: Input) -> PlayerV {
    let t = if p.reload_timer > 0 {
        p.reload_timer - 1
    } else {
        0
    };
    PlayerV {
        reload_timer: t,
        bullet_ready: p.bullet_ready || (t == 0 && !i.fire_flag),
        ..p
    }
}

/// One projectile advanced by one frame of flight.
pub open spec fn spec_advance_proj(cfg: ConfigV, b: ProjV) -> ProjV {
    ProjV {
        pos: Vec2V {
            x: b.pos.x + spec_scale(b.dir.x, cfg.bullet_step, DIR_UNIT as int),
            y: b.pos.y + spec_scale(b.dir.y, cfg.bullet_step, DIR_UNIT as int),
        },
        traveled: b.traveled + cfg.bullet_step,
        ..b
    }
}

/// Whether a projectile at `b.pos` touches the player: strictly closer than
/// the two radii combined. Comparing squares keeps the test exact.
pub open spec fn spec_hits(cfg: ConfigV, target: PlayerV, b: ProjV) -> bool {
    spec_dist2(b.pos, target.pos) < (cfg.player_radius + cfg.bullet_radius) * (cfg.player_radius
        + cfg.bullet_radius)
}

/// One damage point, with the canonical death policy: a fatal hit restores
/// full health instead of removing the player, keeping the two-player
/// invariant for the rest of the match.
pub open spec fn spec_damage(p: PlayerV) -> PlayerV {
    if p.health_current <= 1 {
        PlayerV { health_current: p.health_max, ..p }
    } else {
        PlayerV { health_current: p.health_current - 1, ..p }
    }
}

/// Running state of the combat pass: the two players and the projectiles
/// kept so far.
#[verifier::ext_equal]
pub ghost struct CombatState {
    pub p0: PlayerV,
    pub p1: PlayerV,
    pub kept: Seq<ProjV>,
}

/// The combat pass applied to one projectile: advance it; if its travelled
/// distance has reached the maximum range it is removed on this very frame;
/// otherwise, if it touches the player that did not shoot it, that player
/// takes exactly one damage point and the projectile is removed; otherwise
/// it stays in flight. Removal happens in the same pass that detects it, so
/// a projectile can never act twice.
pub open spec fn spec_combat_one(cfg: ConfigV, st: CombatState, b: ProjV) -> CombatState {
    let a = spec_advance_proj(cfg, b);
    if a.traveled >= cfg.max_range {
        st
    } else if a.shooter == 0 && spec_hits(cfg, st.p1, a) {
        CombatState { p1: spec_damage(st.p1), ..st }
    } else if a.shooter == 1 && spec_hits(cfg, st.p0, a) {
        CombatState { p0: spec_damage(st.p0), ..st }
    } else {
        CombatState { kept: st.kept.push(a), ..st }
    }
}

/// The combat pass over all projectiles, in spawn order.
pub open spec fn spec_combat(cfg: ConfigV, p0: PlayerV, p1: PlayerV, projs: Seq<ProjV>)
    -> CombatState
    decreases projs.len(),
{
    if projs.len() == 0 {
        CombatState { p0, p1, kept: Seq::empty() }
    } else {
        spec_combat_one(cfg, spec_combat(cfg, p0, p1, projs.drop_last()), projs.last())
    }
}

/// The projectiles entering the combat pass: the ones already in flight,
/// then whatever the two players fired this frame, in handle order.
pub open spec fn spec_with_fresh(projs: Seq<ProjV>, s0: Option<ProjV>, s1: Option<ProjV>)
    -> Seq<ProjV> {
    let w0 = if s0 is Some {
        projs.push(s0->0)
    } else {
        projs
    };
    if s1 is Some {
        w0.push(s1->0)
    } else {
        w0
    }
}

/// One whole frame: movement, fire, reload for both players in handle
/// order, then the combat pass, then the frame counter advances.
pub open spec fn spec_step(cfg: ConfigV, w: WorldV, i0: Input, i1: Input) -> WorldV {
    let m0 = spec_move_player(cfg, w.player0, i0);
    let m1 = spec_move_player(cfg, w.player1, i1);
    let f0 = spec_fire_player(cfg, m0, i0);
    let f1 = spec_fire_player(cfg, m1, i1);
    let r0 = spec_reload_player(f0.0, i0);
    let r1 = spec_reload_player(f1.0, i1);
    let c = spec_combat(cfg, r0, r1, spec_with_fresh(w.projectiles, f0.1, f1.1));
    WorldV { frame: w.frame + 1, player0: c.p0, player1: c.p1, projectiles: c.kept }
}

/// Ghost image of an optional fresh projectile.
pub open spec fn opt_view(o: Option<Projectile>) -> Option<ProjV> {
    match o {
        Some(b) => Some(b@),
        None => None,
    }
}

/// Executable movement sub-system for one player.
pub fn move_system(cfg: &Config, p: &Player, i: &Input) -> (r: Player)
    requires
        cfg@.wf(),
        p@.wf(cfg@),
        i.wf(),
    ensures
        r@ == spec_move_player(cfg@, p@, *i),
        r@.wf(cfg@),
{
    let mut q = *p;
    if i.move_flag {
        q.target = Vec2I { x: i.target_x, y: i.target_y };
        q.moving = true;
    }
    if !q.moving {
        return q;
    }
    let dx: i64 = q.target.x as i64 - q.pos.x as i64;
    let dy: i64 = q.target.y as i64 - q.pos.y as i64;
    proof {
        assert(dx * dx + dy * dy <= 2 * (2 * COORD_LIMIT as int) * (2 * COORD_LIMIT as int))
            by (nonlinear_arith)
            requires
                -2 * COORD_LIMIT as int <= dx <= 2 * COORD_LIMIT as int,
                -2 * COORD_LIMIT as int <= dy <= 2 * COORD_LIMIT as int,
        ;
        assert(dx * dx >= 0) by (nonlinear_arith);
        assert(dy * dy >= 0) by (nonlinear_arith);
    }
    let d2: i64 = dx * dx + dy * dy;
    let dist: u64 = isqrt(d2 as u64);
    proof {
        lemma_isqrt_at_most(d2 as nat, 0x400000);
        assert(0x400000int * 0x400000int == 0x1000_0000_0000int) by (nonlinear_arith);
    }
    if dist > cfg.player_step as u64 {
        let mx = scale_i64(dx, cfg.player_step as i64, dist as i64);
        let my = scale_i64(dy, cfg.player_step as i64, dist as i64);
        proof {
            lemma_scale_bounds(dx as int, cfg.player_step as int, dist as int);
            lemma_scale_bounds(dy as int, cfg.player_step as int, dist as int);
        }
        q.pos = Vec2I { x: (q.pos.x as i64 + mx) as i32, y: (q.pos.y as i64 + my) as i32 };
    } else {
        q.pos = q.target;
        q.moving = false;
    }
    if dx > 0 {
        q.facing_right = true;
        q.move_dir = Vec2I { x: 1, y: 0 };
    } else if dx < 0 {
        q.facing_right = false;
        q.move_dir = Vec2I { x: -1, y: 0 };
    }
    q
}

/// Executable fire sub-system for one player: the possibly spawned
/// projectile is returned beside the player rather than pushed into a
/// global registry.
pub fn fire_bullets(cfg: &Config, p: &Player, i: &Input) -> (r: (Player, Option<Projectile>))
    requires
        cfg@.wf(),
        p@.wf(cfg@),
        i.wf(),
    ensures
        r.0@ == spec_fire_player(cfg@, p@, *i).0,
        opt_view(r.1) == spec_fire_player(cfg@, p@, *i).1,
        r.0@.wf(cfg@),
        r.1 matches Some(b) ==> b@.wf(cfg@) && b@.traveled == 0,
{
    if !(i.fire_flag && p.bullet_ready) {
        return (*p, None);
    }
    let dx: i64 = i.target_x as i64 - p.pos.x as i64;
    let dy: i64 = i.target_y as i64 - p.pos.y as i64;
    if dx == 0 && dy == 0 {
        return (*p, None);
    }
    proof {
        assert(dx * dx + dy * dy <= 2 * (2 * COORD_LIMIT as int) * (2 * COORD_LIMIT as int))
            by (nonlinear_arith)
            requires
                -2 * COORD_LIMIT as int <= dx <= 2 * COORD_LIMIT as int,
                -2 * COORD_LIMIT as int <= dy <= 2 * COORD_LIMIT as int,
        ;
        assert(dx * dx >= 0) by (nonlinear_arith);
        assert(dy * dy >= 0) by (nonlinear_arith);
    }
    let d2: i64 = dx * dx + dy * dy;
    let dist: u64 = isqrt(d2 as u64);
    proof {
        lemma_isqrt_at_most(d2 as nat, 0x400000);
        assert(0x400000int * 0x400000int == 0x1000_0000_0000int) by (nonlinear_arith);
        let adx = if dx >= 0 { dx as int } else { -dx as int };
        let ady = if dy >= 0 { dy as int } else { -dy as int };
        let m = if adx >= ady { adx } else { ady };
        assert(adx * adx <= m * m && ady * ady <= m * m) by (nonlinear_arith)
            requires
                0 <= adx <= m,
                0 <= ady <= m,
        ;
        assert(d2 <= (2 * m) * (2 * m)) by (nonlinear_arith)
            requires
                d2 == dx * dx + dy * dy,
                adx == (if dx >= 0 { dx as int } else { -dx as int }),
                ady == (if dy >= 0 { dy as int } else { -dy as int }),
                adx * adx <= m * m,
                ady * ady <= m * m,
        ;
        lemma_isqrt_at_most(d2 as nat, (2 * m) as nat);
        assert(dist <= 2 * m);
        assert(adx * adx <= d2 && ady * ady <= d2) by (nonlinear_arith)
            requires
                d2 == dx * dx + dy * dy,
                adx == (if dx >= 0 { dx as int } else { -dx as int }),
                ady == (if dy >= 0 { dy as int } else { -dy as int }),
        ;
        lemma_isqrt_at_least(d2 as nat, adx as nat);
        lemma_isqrt_at_least(d2 as nat, ady as nat);
        assert(dist >= 1) by {
            assert(d2 >= 1);
            assert(m >= 1);
            if adx >= 1 {
                assert(adx <= dist);
            } else {
                assert(ady <= dist);
            }
        }
        assert(m * (DIR_UNIT as int) >= m * 2 >= dist) by (nonlinear_arith)
            requires
                m >= 1,
                dist <= 2 * m,
        ;
        lemma_scale_bounds(dx as int, DIR_UNIT as int, dist as int);
        lemma_scale_bounds(dy as int, DIR_UNIT as int, dist as int);
        // The larger component of the direction cannot scale to zero.
        vstd::arithmetic::div_mod::lemma_div_is_ordered(
            dist as int,
            m * (DIR_UNIT as int),
            dist as int,
        );
        vstd::arithmetic::div_mod::lemma_div_by_self(dist as int);
    }
    let ux = scale_i64(dx, DIR_UNIT as i64, dist as i64);
    let uy = scale_i64(dy, DIR_UNIT as i64, dist as i64);
    let mut q = *p;
    if dx > 0 {
        q.facing_right = true;
        q.move_dir = Vec2I { x: 1, y: 0 };
    } else if dx < 0 {
        q.facing_right = false;
        q.move_dir = Vec2I { x: -1, y: 0 };
    }
    q.bullet_ready = false;
    q.reload_timer = cfg.reload_frames;
    let b = Projectile {
        shooter: p.handle,
        pos: p.pos,
        dir: Vec2I { x: ux as i32, y: uy as i32 },
        distance_traveled: 0,
    };
    (q, Some(b))
}

/// Executable reload sub-system for one player.
pub fn reload_bullet(cfg: &Config, p: &Player, i: &Input) -> (r: Player)
    requires
        cfg@.wf(),
        p@.wf(cfg@),
    ensures
        r@ == spec_reload_player(p@, *i),
        r@.wf(cfg@),
{
    let mut q = *p;
    if q.reload_timer > 0 {
        q.reload_timer = q.reload_timer - 1;
    }
    if q.reload_timer == 0 && !i.fire_flag {
        q.bullet_ready = true;
    }
    q
}

/// Advancing a live projectile keeps its identity, grows its travelled
/// distance by one flight step, and keeps its position within the spawn
/// bound plus the distance flown; if it is still in range it is again a
/// well-formed projectile.
pub proof fn lemma_advance_wf(cfg: ConfigV, b: ProjV)
    requires
        cfg.wf(),
        b.wf(cfg),
    ensures
        ({
            let a = spec_advance_proj(cfg, b);
            &&& a.shooter == b.shooter
            &&& a.dir == b.dir
            &&& a.traveled == b.traveled + cfg.bullet_step
            &&& in_bounds(a.pos, COORD_LIMIT + a.traveled)
            &&& a.traveled < cfg.max_range ==> a.wf(cfg)
        }),
{
    lemma_scale_bounds(b.dir.x, cfg.bullet_step, DIR_UNIT as int);
    lemma_scale_bounds(b.dir.y, cfg.bullet_step, DIR_UNIT as int);
}

/// Executable flight advance for one projectile.
pub fn move_bullet(cfg: &Config, b: &Projectile) -> (r: Projectile)
    requires
        cfg@.wf(),
        b@.wf(cfg@),
    ensures
        r@ == spec_advance_proj(cfg@, b@),
{
    let mx = scale_i64(b.dir.x as i64, cfg.bullet_step as i64, DIR_UNIT as i64);
    let my = scale_i64(b.dir.y as i64, cfg.bullet_step as i64, DIR_UNIT as i64);
    proof {
        lemma_scale_bounds(b.dir.x as int, cfg.bullet_step as int, DIR_UNIT as int);
        lemma_scale_bounds(b.dir.y as int, cfg.bullet_step as int, DIR_UNIT as int);
    }
    Projectile {
        shooter: b.shooter,
        pos: Vec2I { x: (b.pos.x as i64 + mx) as i32, y: (b.pos.y as i64 + my) as i32 },
        dir: b.dir,
        distance_traveled: b.distance_traveled + cfg.bullet_step,
    }
}

/// Executable hit test between a player and an in-flight projectile.
pub fn hit_test(cfg: &Config, target: &Player, b: &Projectile) -> (r: bool)
    requires
        cfg@.wf(),
        target@.wf(cfg@),
        b@.wf(cfg@),
    ensures
        r == spec_hits(cfg@, target@, b@),
{
    let ddx: i64 = b.pos.x as i64 - target.pos.x as i64;
    let ddy: i64 = b.pos.y as i64 - target.pos.y as i64;
    proof {
        assert(ddx * ddx + ddy * ddy <= 2 * (4 * COORD_LIMIT as int) * (4 * COORD_LIMIT as int)
            && ddx * ddx >= 0 && ddy * ddy >= 0) by (nonlinear_arith)
            requires
                -4 * COORD_LIMIT as int <= ddx <= 4 * COORD_LIMIT as int,
                -4 * COORD_LIMIT as int <= ddy <= 4 * COORD_LIMIT as int,
        ;
    }
    let d2: i64 = ddx * ddx + ddy * ddy;
    let rad: i64 = cfg.player_radius as i64 + cfg.bullet_radius as i64;
    proof {
        assert(rad * rad <= (COORD_LIMIT as int) * (COORD_LIMIT as int)) by (nonlinear_arith)
            requires
                0 <= rad <= COORD_LIMIT as int,
        ;
    }
    d2 < rad * rad
}

/// Executable damage application: one point, wrapping a fatal hit back to
/// full health.
pub fn update_health(p: &Player) -> (r: Player)
    ensures
        r@ == spec_damage(p@),
{
    let mut q = *p;
    if q.health.current <= 1 {
        q.health.current = q.health.max;
    } else {
        q.health.current = q.health.current - 1;
    }
    q
}

/// Executable combat pass: advances every projectile, removes expired ones,
/// resolves hits and applies damage, all in one sweep so that nothing can
/// be counted twice.
pub fn kill_players(cfg: &Config, p0: &Player, p1: &Player, projs: &Vec<Projectile>) -> (r: (
    Player,
    Player,
    Vec<Projectile>,
))
    requires
        cfg@.wf(),
        p0@.wf(cfg@),
        p1@.wf(cfg@),
        forall|j: int|
            0 <= j < projs@.len() ==> (#[trigger] projs@[j])@.wf(cfg@),
    ensures
        ({
            let c = spec_combat(cfg@, p0@, p1@, projs@.map_values(|b: Projectile| b@));
            &&& r.0@ == c.p0
            &&& r.1@ == c.p1
            &&& r.2@.map_values(|b: Projectile| b@) == c.kept
        }),
        r.0@.wf(cfg@),
        r.1@.wf(cfg@),
        r.0@.handle == p0@.handle,
        r.1@.handle == p1@.handle,
        forall|k: int|
            0 <= k < r.2@.len() ==> (#[trigger] r.2@[k])@.wf(cfg@),
{
    let ghost pv = projs@.map_values(|b: Projectile| b@);
    let mut q0 = *p0;
    let mut q1 = *p1;
    let mut kept: Vec<Projectile> = Vec::new();
    let n = projs.len();
    let mut j: usize = 0;
    proof {
        assert(pv.take(0) =~= Seq::<ProjV>::empty());
    }
    while j < n
        invariant
            cfg@.wf(),
            p0@.wf(cfg@),
            p1@.wf(cfg@),
            n == projs@.len(),
            j <= n,
            pv == projs@.map_values(|b: Projectile| b@),
            forall|k: int| 0 <= k < n ==> (#[trigger] projs@[k])@.wf(cfg@),
            ({
                let c = spec_combat(cfg@, p0@, p1@, pv.take(j as int));
                &&& q0@ == c.p0
                &&& q1@ == c.p1
                &&& kept@.map_values(|b: Projectile| b@) == c.kept
            }),
            q0@.wf(cfg@),
            q1@.wf(cfg@),
            q0@.handle == p0@.handle,
            q1@.handle == p1@.handle,
            forall|k: int| 0 <= k < kept@.len() ==> (#[trigger] kept@[k])@.wf(cfg@),
        decreases n - j,
    {
        let ghost c_prev = spec_combat(cfg@, p0@, p1@, pv.take(j as int));
        let a = move_bullet(cfg, &projs[j]);
        if a.distance_traveled >= cfg.max_range {
            // expired this frame: removed, no effect
        } else {
            proof {
                lemma_advance_wf(cfg@, projs@[j as int]@);
                assert(a@.wf(cfg@));
            }
            if a.shooter == 0 {
                if hit_test(cfg, &q1, &a) {
                    q1 = update_health(&q1);
                }
                else {
                    kept.push(a);
                }
            } else {
                if hit_test(cfg, &q0, &a) {
                    q0 = update_health(&q0);
                }
                else {
                    kept.push(a);
                }
            }
        }
        proof {
            assert(pv.take(j + 1).drop_last() =~= pv.take(j as int));
            assert(pv.take(j + 1).last() == pv[j as int]);
            assert(pv[j as int] == projs@[j as int]@);
            let c_next = spec_combat(cfg@, p0@, p1@, pv.take(j + 1));
            assert(c_next == spec_combat_one(cfg@, c_prev, pv[j as int]));
            assert(kept@.map_values(|b: Projectile| b@) =~= c_next.kept);
        }
        j += 1;
    }
    proof {
        assert(pv.take(n as int) =~= pv);
    }
    (q0, q1, kept)
}

/// One whole executable frame in the fixed sub-system order. This is the
/// function the rollback session re-runs during resimulation; its result is
/// a pure function of its arguments, which is the determinism the whole
/// protocol rests on.
pub fn step(cfg: &Config, w: &WorldState, i0: &Input, i1: &Input) -> (r: WorldState)
    requires
        cfg@.wf(),
        w@.wf(cfg@),
        i0.wf(),
        i1.wf(),
        w.frame < u64::MAX,
    ensures
        r@ == spec_step(cfg@, w@, *i0, *i1),
        r@.wf(cfg@),
{
    let m0 = move_system(cfg, &w.player0, i0);
    let m1 = move_system(cfg, &w.player1, i1);
    let (f0, s0) = fire_bullets(cfg, &m0, i0);
    let (f1, s1) = fire_bullets(cfg, &m1, i1);
    let r0 = reload_bullet(cfg, &f0, i0);
    let r1 = reload_bullet(cfg, &f1, i1);
    let mut projs: Vec<Projectile> = Vec::new();
    let n = w.projectiles.len();
    let mut j: usize = 0;
    while j < n
        invariant
            n == w.projectiles@.len(),
            j <= n,
            projs@ =~= w.projectiles@.take(j as int),
        decreases n - j,
    {
        projs.push(w.projectiles[j]);
        j += 1;
    }
    proof {
        assert(projs@ =~= w.projectiles@);
    }
    if let Some(b) = s0 {
        projs.push(b);
    }
    if let Some(b) = s1 {
        projs.push(b);
    }
    proof {
        assert(projs@.map_values(|b: Projectile| b@) =~= spec_with_fresh(
            w@.projectiles,
            opt_view(s0),
            opt_view(s1),
        ));
        assert forall|k: int| 0 <= k < projs@.len() implies (#[trigger] projs@[k])@.wf(cfg@) by {
            if k < w.projectiles@.len() {
                assert(w@.projectiles[k].wf(cfg@));
                assert(w@.projectiles[k] == w.projectiles@[k]@);
            }
        }
        assert(r0@.handle == 0);
        assert(r1@.handle == 1);
    }
    let c = kill_players(cfg, &r0, &r1, &projs);
    let out = WorldState { frame: w.frame + 1, player0: c.0, player1: c.1, projectiles: c.2 };
    proof {
        assert(out@ =~= spec_step(cfg@, w@, *i0, *i1));
        assert forall|k: int|
            0 <= k < out@.projectiles.len() implies (#[trigger] out@.projectiles[k]).wf(cfg@) by {
            assert(out@.projectiles[k] == c.2@[k]@);
        }
    }
    out
}

/// The world after `n` frames simulated from `init` with the given input
/// histories (one record per frame and player).
pub open spec fn spec_sim(
    cfg: ConfigV,
    init: WorldV,
    in0: Seq<Input>,
    in1: Seq<Input>,
    n: int,
) -> WorldV
    decreases n,
{
    if n <= 0 {
        init
    } else {
        spec_step(cfg, spec_sim(cfg, init, in0, in1, n - 1), in0[n - 1], in1[n - 1])
    }
}

/// Simulation reads only the first `n` records of each history: histories
/// that agree up to `n` simulate to the same world.
pub proof fn lemma_sim_prefix_agree(
    cfg: ConfigV,
    init: WorldV,
    a0: Seq<Input>,
    a1: Seq<Input>,
    b0: Seq<Input>,
    b1: Seq<Input>,
    n: int,
)
    requires
        forall|k: int| 0 <= k < n ==> a0[k] == b0[k] && a1[k] == b1[k],
    ensures
        spec_sim(cfg, init, a0, a1, n) == spec_sim(cfg, init, b0, b1, n),
    decreases n,
{
    if n > 0 {
        lemma_sim_prefix_agree(cfg, init, a0, a1, b0, b1, n - 1);
    }
}

/// Determinism: the simulated world is a mathematical function of the
/// starting world and the input histories alone. Two runs over the same
/// data — every executable run is pinned to `spec_sim` by the contract of
/// [`simulate`] — therefore produce the same world, bit for bit.
pub proof fn lemma_determinism(
    cfg: ConfigV,
    init: WorldV,
    in0: Seq<Input>,
    in1: Seq<Input>,
    n: int,
    w1: WorldV,
    w2: WorldV,
)
    requires
        w1 == spec_sim(cfg, init, in0, in1, n),
        w2 == spec_sim(cfg, init, in0, in1, n),
    ensures
        w1 == w2,
{
}

/// Runs `n` frames from `init`. Every frame `k` consumes `in0[k]` and
/// `in1[k]`.
pub fn simulate(cfg: &Config, init: &WorldState, in0: &Vec<Input>, in1: &Vec<Input>, n: usize)
    -> (r: WorldState)
    requires
        cfg@.wf(),
        init@.wf(cfg@),
        n <= in0@.len(),
        n <= in1@.len(),
        forall|k: int| 0 <= k < n ==> (#[trigger] in0@[k]).wf() && in1@[k].wf(),
        init.frame + n <= u64::MAX,
    ensures
        r@ == spec_sim(cfg@, init@, in0@, in1@, n as int),
        r@.wf(cfg@),
{
    let mut s = init.duplicate();
    let mut j: usize = 0;
    while j < n
        invariant
            cfg@.wf(),
            init@.wf(cfg@),
            n <= in0@.len(),
            n <= in1@.len(),
            forall|k: int| 0 <= k < n ==> (#[trigger] in0@[k]).wf() && in1@[k].wf(),
            init.frame + n <= u64::MAX,
            j <= n,
            s@ == spec_sim(cfg@, init@, in0@, in1@, j as int),
            s@.wf(cfg@),
            s@.frame == init@.frame + j,
        decreases n - j,
    {
        let a = in0[j];
        let b = in1[j];
        s = step(cfg, &s, &a, &b);
        j += 1;
    }
    s
}

/// Idempotent damage, per projectile: the combat pass gives each projectile
/// exactly one of four fates — expire silently, stay in flight, or deal one
/// single damage point to the one player that did not shoot it, being
/// removed from flight on that very frame. A projectile that stays in
/// flight harms nobody, and none can harm its own shooter. Resimulating a
/// frame re-runs this same function on the same data (see
/// [`lemma_determinism`]), so the one fate can never be applied twice.
pub proof fn lemma_projectile_damage_once(cfg: ConfigV, st: CombatState, b: ProjV)
    ensures
        ({
            let a = spec_advance_proj(cfg, b);
            let st2 = spec_combat_one(cfg, st, b);
            &&& (st2 == st || st2 == CombatState { kept: st.kept.push(a), ..st } || st2
                == CombatState { p0: spec_damage(st.p0), ..st } || st2 == CombatState {
                p1: spec_damage(st.p1),
                ..st
            })
            &&& st2.kept != st.kept ==> st2.p0 == st.p0 && st2.p1 == st.p1
            &&& st2.p0 != st.p0 || st2.p1 != st.p1 ==> st2.kept == st.kept
            &&& b.shooter == 0 ==> st2.p0 == st.p0
            &&& b.shooter == 1 ==> st2.p1 == st.p1
            &&& a.traveled >= cfg.max_range ==> st2 == st
        }),
{
    let a = spec_advance_proj(cfg, b);
    let st2 = spec_combat_one(cfg, st, b);
    if st2.kept != st.kept {
        assert(st2.kept == st.kept.push(a));
    }
}

/// Cooldown boundary: while the weapon is not ready a fire order changes
/// nothing and spawns nothing; on a frame where the weapon is ready — in
/// particular the first fire-able frame after the cooldown ran out — a held
/// fire flag aimed anywhere but the player's own position spawns exactly
/// one projectile, owned by this player and with no distance flown, and
/// empties the weapon; and the weapon can only have become ready again on a
/// frame where the cooldown had fully elapsed and the fire flag was
/// released. The single optional value here is the whole contribution the
/// player makes to the frame's combat pass (see [`spec_step`] and
/// [`spec_with_fresh`]): one projectile, never two.
pub proof fn lemma_cooldown_boundary(cfg: ConfigV, p: PlayerV, i: Input)
    ensures
        !p.bullet_ready ==> spec_fire_player(cfg, p, i).1 is None && spec_fire_player(
            cfg,
            p,
            i,
        ).0 == p,
        !i.fire_flag ==> spec_fire_player(cfg, p, i).1 is None,
        p.bullet_ready && i.fire_flag && !(i.target_x == p.pos.x && i.target_y == p.pos.y) ==> {
            let (shooter, spawned) = spec_fire_player(cfg, p, i);
            &&& spawned is Some
            &&& spawned->0.shooter == p.handle
            &&& spawned->0.pos == p.pos
            &&& spawned->0.traveled == 0
            &&& !shooter.bullet_ready
            &&& shooter.reload_timer == cfg.reload_frames
        },
        !p.bullet_ready && spec_reload_player(spec_fire_player(cfg, p, i).0, i).bullet_ready
            ==> p.reload_timer <= 1 && !i.fire_flag,
{
}

/// No projectile kept by the combat pass has reached the maximum range.
pub proof fn lemma_combat_kept_range(cfg: ConfigV, p0: PlayerV, p1: PlayerV, projs: Seq<ProjV>)
    ensures
        forall|k: int|
            0 <= k < spec_combat(cfg, p0, p1, projs).kept.len() ==> (#[trigger] spec_combat(
                cfg,
                p0,
                p1,
                projs,
            ).kept[k]).traveled < cfg.max_range,
    decreases projs.len(),
{
    if projs.len() > 0 {
        lemma_combat_kept_range(cfg, p0, p1, projs.drop_last());
        let prev = spec_combat(cfg, p0, p1, projs.drop_last());
        let st2 = spec_combat(cfg, p0, p1, projs);
        let a = spec_advance_proj(cfg, projs.last());
        assert forall|k: int| 0 <= k < st2.kept.len() implies (#[trigger] st2.kept[k]).traveled
            < cfg.max_range by {
            if st2.kept == prev.kept.push(a) && k == prev.kept.len() {
                assert(st2.kept[k] == a);
            } else {
                assert(st2.kept[k] == prev.kept[k]);
            }
        }
    }
}

/// Range expiry, inclusive boundary: after a frame, every projectile still
/// in flight is strictly inside the maximum range; one whose travelled
/// distance reached `max_range` this frame was removed this same frame and
/// is never seen again.
pub proof fn lemma_range_expiry(cfg: ConfigV, w: WorldV, i0: Input, i1: Input)
    ensures
        forall|k: int|
            0 <= k < spec_step(cfg, w, i0, i1).projectiles.len() ==> (#[trigger] spec_step(
                cfg,
                w,
                i0,
                i1,
            ).projectiles[k]).traveled < cfg.max_range,
{
    let m0 = spec_move_player(cfg, w.player0, i0);
    let m1 = spec_move_player(cfg, w.player1, i1);
    let f0 = spec_fire_player(cfg, m0, i0);
    let f1 = spec_fire_player(cfg, m1, i1);
    let r0 = spec_reload_player(f0.0, i0);
    let r1 = spec_reload_player(f1.0, i1);
    lemma_combat_kept_range(cfg, r0, r1, spec_with_fresh(w.projectiles, f0.1, f1.1));
}

} // verus!
