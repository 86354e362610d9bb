//! The deterministic simulation state: players, projectiles, health,
//! cooldown timers, and the constants both peers must share.
//!
//! Everything here is plain data with value semantics, so a frame snapshot
//! is a cheap clone and restoring one cannot drag hidden state along. Each
//! executable type has a ghost view over unbounded integers; the simulation
//! contracts are stated over those views.

use vstd::prelude::*;

verus! {

use crate::input::COORD_LIMIT;

/// Machine bound on the number of frames a session can run (about 50 days
/// of play at 60 frames per second) and on the input delay; it keeps every
/// frame index comfortably inside a machine word.
pub const FRAME_LIMIT: usize = 0x1000_0000;

/// Fixed-point scale of a projectile's direction vector: a direction is a
/// pair of components in `-DIR_UNIT ..= DIR_UNIT`, play the role of a unit
/// vector.
pub const DIR_UNIT: i32 = 65536;

/// A fixed-point 2-D vector.
#[derive(Clone, Copy, PartialEq, Eq, Structural, Debug)]
pub struct Vec2I {
    pub x: i32,
    pub y: i32,
}

/// Ghost image of a vector, over unbounded integers.
pub ghost struct Vec2V {
    pub x: int,
    pub y: int,
}

impl View for Vec2I {
    type V = Vec2V;

    open spec fn view(&self) -> Vec2V {
        Vec2V { x: self.x as int, y: self.y as int }
    }
}

/// Both components at most `bound` in magnitude.
pub open spec fn in_bounds(v: Vec2V, bound: int) -> bool {
    &&& -bound <= v.x <= bound
    &&& -bound <= v.y <= bound
}

/// Squared Euclidean distance. Comparing it against a squared radius is
/// exact in integers, where comparing rounded roots would not be.
pub open spec fn spec_dist2(a: Vec2V, b: Vec2V) -> int {
    (a.x - b.x) * (a.x - b.x) + (a.y - b.y) * (a.y - b.y)
}

/// A player's hit points.
#[derive(Clone, Copy, PartialEq, Eq, Structural, Debug)]
pub struct Health {
    pub current: u32,
    pub max: u32,
}

impl Health {
    /// Current hit points.
    pub fn current(&self) -> (r: u32)
        ensures
            r == self.current,
    {
        self.current
    }

    /// Maximum hit points.
    pub fn max(&self) -> (r: u32)
        ensures
            r == self.max,
    {
        self.max
    }
}

/// One combatant. Owned by the world state and mutated only by the
/// simulation step.
#[derive(Clone, Copy, PartialEq, Eq, Structural, Debug)]
pub struct Player {
    /// 0 or 1; also the index of this player's input in a frame's input pair.
    pub handle: usize,
    pub pos: Vec2I,
    pub facing_right: bool,
    pub moving: bool,
    /// Where the player is heading while `moving`.
    pub target: Vec2I,
    /// Unit x vector of the side the sprite faces: `(1, 0)` or `(-1, 0)`.
    pub move_dir: Vec2I,
    pub health: Health,
    pub bullet_ready: bool,
    /// Frames left until the weapon can become ready again.
    pub reload_timer: u32,
}

/// Ghost image of a player.
pub ghost struct PlayerV {
    pub handle: int,
    pub pos: Vec2V,
    pub facing_right: bool,
    pub moving: bool,
    pub target: Vec2V,
    pub move_dir: Vec2V,
    pub health_current: int,
    pub health_max: int,
    pub bullet_ready: bool,
    pub reload_timer: int,
}

impl View for Player {
    type V = PlayerV;

    open spec fn view(&self) -> PlayerV {
        PlayerV {
            handle: self.handle as int,
            pos: self.pos@,
            facing_right: self.facing_right,
            moving: self.moving,
            target: self.target@,
            move_dir: self.move_dir@,
            health_current: self.health.current as int,
            health_max: self.health.max as int,
            bullet_ready: self.bullet_ready,
            reload_timer: self.reload_timer as int,
        }
    }
}

/// One projectile in flight. The shooter handle is set at spawn and never
/// changes; it is the sole discriminator preventing self-damage.
#[derive(Clone, Copy, PartialEq, Eq, Structural, Debug)]
pub struct Projectile {
    pub shooter: usize,
    pub pos: Vec2I,
    /// Fixed-point direction, components scaled by `DIR_UNIT`.
    pub dir: Vec2I,
    pub distance_traveled: i32,
}

/// Ghost image of a projectile.
pub ghost struct ProjV {
    pub shooter: int,
    pub pos: Vec2V,
    pub dir: Vec2V,
    pub traveled: int,
}

impl View for Projectile {
    type V = ProjV;

    open spec fn view(&self) -> ProjV {
        ProjV {
            shooter: self.shooter as int,
            pos: self.pos@,
            dir: self.dir@,
            traveled: self.distance_traveled as int,
        }
    }
}

/// The whole simulation state for one frame: the two players, the live
/// projectiles, and the frame number. Copies are taken with
/// [`WorldState::duplicate`], whose contract pins the copy to the view.
#[derive(Debug)]
pub struct WorldState {
    pub frame: u64,
    pub player0: Player,
    pub player1: Player,
    pub projectiles: Vec<Projectile>,
}

/// Ghost image of the world.
#[verifier::ext_equal]
pub ghost struct WorldV {
    pub frame: int,
    pub player0: PlayerV,
    pub player1: PlayerV,
    pub projectiles: Seq<ProjV>,
}

impl View for WorldState {
    type V = WorldV;

    open spec fn view(&self) -> WorldV {
        WorldV {
            frame: self.frame as int,
            player0: self.player0@,
            player1: self.player1@,
            projectiles: self.projectiles@.map_values(|p: Projectile| p@),
        }
    }
}

/// The constants surface. Both peers must run with identical values; a
/// mismatch is a silent-desync hazard, so hosts should exchange and compare
/// them out of band.
#[derive(Clone, Copy, PartialEq, Eq, Structural, Debug)]
pub struct Config {
    /// Distance a player covers per frame: speed times the fixed timestep.
    pub player_step: i32,
    /// Distance a projectile covers per frame.
    pub bullet_step: i32,
    /// A projectile whose travelled distance reaches this is removed.
    pub max_range: i32,
    pub player_radius: i32,
    pub bullet_radius: i32,
    /// Frames of weapon cooldown started by each shot.
    pub reload_frames: u32,
    pub max_health: u32,
    /// Frames a local input is buffered before it takes effect.
    pub input_delay: usize,
    /// Number of frame snapshots kept for rollback.
    pub history_window: usize,
    pub spawn0: Vec2I,
    pub spawn1: Vec2I,
}

/// Ghost image of the constants.
pub ghost struct ConfigV {
    pub player_step: int,
    pub bullet_step: int,
    pub max_range: int,
    pub player_radius: int,
    pub bullet_radius: int,
    pub reload_frames: int,
    pub max_health: int,
    pub input_delay: int,
    pub history_window: int,
    pub spawn0: Vec2V,
    pub spawn1: Vec2V,
}

impl View for Config {
    type V = ConfigV;

    open spec fn view(&self) -> ConfigV {
        ConfigV {
            player_step: self.player_step as int,
            bullet_step: self.bullet_step as int,
            max_range: self.max_range as int,
            player_radius: self.player_radius as int,
            bullet_radius: self.bullet_radius as int,
            reload_frames: self.reload_frames as int,
            max_health: self.max_health as int,
            input_delay: self.input_delay as int,
            history_window: self.history_window as int,
            spawn0: self.spawn0@,
            spawn1: self.spawn1@,
        }
    }
}

impl ConfigV {
    /// Sane constants: everything positive where the rules need progress,
    /// and small enough that no squared distance can overflow.
    pub open spec fn wf(self) -> bool {
        &&& 0 < self.player_step <= COORD_LIMIT
        &&& 0 < self.bullet_step <= COORD_LIMIT
        &&& 0 < self.max_range <= COORD_LIMIT
        &&& 0 <= self.player_radius
        &&& 0 <= self.bullet_radius
        &&& self.player_radius + self.bullet_radius <= COORD_LIMIT
        &&& 1 <= self.reload_frames
        &&& 1 <= self.max_health
        &&& 1 <= self.history_window
        &&& 0 <= self.input_delay <= FRAME_LIMIT
        &&& in_bounds(self.spawn0, COORD_LIMIT as int)
        &&& in_bounds(self.spawn1, COORD_LIMIT as int)
    }
}

impl Config {
    /// Executable form of the well-formedness test, for hosts validating a
    /// configuration before starting a session.
    pub fn check(&self) -> (r: bool)
        ensures
            r == self@.wf(),
    {
        0 < self.player_step && self.player_step <= COORD_LIMIT && 0 < self.bullet_step
            && self.bullet_step <= COORD_LIMIT && 0 < self.max_range && self.max_range
            <= COORD_LIMIT && 0 <= self.player_radius && 0 <= self.bullet_radius
            && self.player_radius <= COORD_LIMIT - self.bullet_radius && 1 <= self.reload_frames
            && 1 <= self.max_health && 1 <= self.history_window && self.input_delay <= FRAME_LIMIT
            && -COORD_LIMIT <= self.spawn0.x
            && self.spawn0.x <= COORD_LIMIT && -COORD_LIMIT <= self.spawn0.y && self.spawn0.y
            <= COORD_LIMIT && -COORD_LIMIT <= self.spawn1.x && self.spawn1.x <= COORD_LIMIT
            && -COORD_LIMIT <= self.spawn1.y && self.spawn1.y <= COORD_LIMIT
    }
}

impl PlayerV {
    /// Invariant of a live player. Health wraps back to full on a fatal hit,
    /// so current hit points never rest at zero.
    pub open spec fn wf(self, cfg: ConfigV) -> bool {
        &&& self.handle == 0 || self.handle == 1
        &&& in_bounds(self.pos, COORD_LIMIT as int)
        &&& in_bounds(self.target, COORD_LIMIT as int)
        &&& (self.move_dir == Vec2V { x: 1, y: 0 } || self.move_dir == Vec2V { x: -1, y: 0 })
        &&& self.facing_right == (self.move_dir.x == 1)
        &&& 1 <= self.health_current <= self.health_max
        &&& self.health_max == cfg.max_health
        &&& 0 <= self.reload_timer <= cfg.reload_frames
        &&& self.bullet_ready ==> self.reload_timer == 0
    }
}

impl ProjV {
    /// Invariant of a live projectile: still in range, direction a non-zero
    /// fixed-point unit vector, position within spawn bound plus distance
    /// flown.
    pub open spec fn wf(self, cfg: ConfigV) -> bool {
        &&& self.shooter == 0 || self.shooter == 1
        &&& 0 <= self.traveled < cfg.max_range
        &&& in_bounds(self.dir, DIR_UNIT as int)
        &&& !(self.dir == Vec2V { x: 0, y: 0 })
        &&& in_bounds(self.pos, COORD_LIMIT + self.traveled)
    }
}

impl WorldV {
    /// Invariant of the whole world.
    pub open spec fn wf(self, cfg: ConfigV) -> bool {
        &&& self.player0.wf(cfg)
        &&& self.player0.handle == 0
        &&& self.player1.wf(cfg)
        &&& self.player1.handle == 1
        &&& forall|j: int| 0 <= j < self.projectiles.len() ==> #[trigger] self.projectiles[j].wf(
            cfg,
        )
    }

    /// The player with the given handle.
    pub open spec fn player(self, handle: int) -> PlayerV {
        if handle == 0 {
            self.player0
        } else {
            self.player1
        }
    }
}

/// The world both peers start from: players at their spawn points, facing
/// each other, at full health with a ready weapon, no projectiles, frame 0.
pub open spec fn spec_initial_world(cfg: ConfigV) -> WorldV {
    WorldV {
        frame: 0,
        player0: PlayerV {
            handle: 0,
            pos: cfg.spawn0,
            facing_right: true,
            moving: false,
            target: Vec2V { x: 0, y: 0 },
            move_dir: Vec2V { x: 1, y: 0 },
            health_current: cfg.max_health,
            health_max: cfg.max_health,
            bullet_ready: true,
            reload_timer: 0,
        },
        player1: PlayerV {
            handle: 1,
            pos: cfg.spawn1,
            facing_right: false,
            moving: false,
            target: Vec2V { x: 0, y: 0 },
            move_dir: Vec2V { x: -1, y: 0 },
            health_current: cfg.max_health,
            health_max: cfg.max_health,
            bullet_ready: true,
            reload_timer: 0,
        },
        projectiles: Seq::empty(),
    }
}

impl WorldState {
    /// Builds the shared starting world.
    pub fn initial(cfg: &Config) -> (r: WorldState)
        requires
            cfg@.wf(),
        ensures
            r@ == spec_initial_world(cfg@),
            r@.wf(cfg@),
    {
        let p0 = Player {
            handle: 0,
            pos: cfg.spawn0,
            facing_right: true,
            moving: false,
            target: Vec2I { x: 0, y: 0 },
            move_dir: Vec2I { x: 1, y: 0 },
            health: Health { current: cfg.max_health, max: cfg.max_health },
            bullet_ready: true,
            reload_timer: 0,
        };
        let p1 = Player {
            handle: 1,
            pos: cfg.spawn1,
            facing_right: false,
            moving: false,
            target: Vec2I { x: 0, y: 0 },
            move_dir: Vec2I { x: -1, y: 0 },
            health: Health { current: cfg.max_health, max: cfg.max_health },
            bullet_ready: true,
            reload_timer: 0,
        };
        let w = WorldState { frame: 0, player0: p0, player1: p1, projectiles: Vec::new() };
        proof {
            assert(w@ =~= spec_initial_world(cfg@));
        }
        w
    }

    /// A value-identical copy. Snapshots and resimulation start states are
    /// taken with this; the contract pins the copy down to the view, which
    /// a derived clone would not.
    pub fn duplicate(&self) -> (r: WorldState)
        ensures
            r@ == self@,
    {
        let mut projectiles: Vec<Projectile> = Vec::new();
        let n = self.projectiles.len();
        let mut j: usize = 0;
        while j < n
            invariant
                n == self.projectiles@.len(),
                j <= n,
                projectiles@ =~= self.projectiles@.take(j as int),
            decreases n - j,
        {
            projectiles.push(self.projectiles[j]);
            j += 1;
        }
        proof {
            assert(projectiles@ =~= self.projectiles@);
        }
        let r = WorldState {
            frame: self.frame,
            player0: self.player0,
            player1: self.player1,
            projectiles,
        };
        proof {
            assert(r@ =~= self@);
        }
        r
    }

    /// Deep equality of two worlds, the relation the determinism and
    /// rollback guarantees are stated over.
    pub fn state_eq(&self, other: &WorldState) -> (r: bool)
        ensures
            r == (self@ == other@),
    {
        if !(self.frame == other.frame && self.player0 == other.player0 && self.player1
            == other.player1) {
            proof {
                if self@ == other@ {
                    assert(self.player0 == other.player0);
                    assert(self.player1 == other.player1);
                }
            }
            return false;
        }
        if self.projectiles.len() != other.projectiles.len() {
            proof {
                if self@ == other@ {
                    assert(self@.projectiles.len() == other@.projectiles.len());
                }
            }
            return false;
        }
        let n = self.projectiles.len();
        let mut j: usize = 0;
        while j < n
            invariant
                n == self.projectiles.len() == other.projectiles.len(),
                j <= n,
                forall|k: int| 0 <= k < j ==> self.projectiles@[k] == other.projectiles@[k],
            decreases n - j,
        {
            if self.projectiles[j] != other.projectiles[j] {
                proof {
                    if self@ == other@ {
                        assert(self@.projectiles[j as int] == other@.projectiles[j as int]);
                        assert(self.projectiles@[j as int]@ == other.projectiles@[j as int]@);
                    }
                }
                return false;
            }
            j += 1;
        }
        proof {
            assert(self@.projectiles =~= other@.projectiles);
            assert(self@ =~= other@);
        }
        true
    }
}

} // verus!
