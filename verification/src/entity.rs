//! The entities the simulation advances: players, enemies, and the trigger
//! zones (doors and mud puddles), with their colliders and render transforms.

use vstd::prelude::*;
use crate::anim::AnimationState;
use crate::geom::{Dir, Rect, Vec2};

verus! {

/// Bound on any entity coordinate, in sub-pixels; far beyond any level's
/// pixel bounds, yet small enough that every product with a tick length fits
/// in an `i64`.
pub const POS_LIMIT: i64 = 10_000_000_000;

/// Bound on a vertical velocity, in sub-pixels per second. A fall fast enough
/// to cross `POS_LIMIT` in one tick is clamped to the level floor and zeroed
/// the same tick, so speeds never reach this bound in play.
pub const VEL_Y_LIMIT: i64 = 20_000_000_000_000;

/// Bound on a horizontal velocity, in sub-pixels per second.
pub const VEL_X_LIMIT: i64 = 1_000_000_000;

/// Bound on any configured timer length, in milliseconds.
pub const TIMER_LIMIT: i64 = 1_000_000;

/// Ceiling at which an attack-cooldown timer saturates while counting up, in
/// milliseconds; above every admissible cooldown threshold, so saturation is
/// unobservable through the cooldown gate.
pub const ATTACK_TIMER_CAP: i64 = 2_000_000;

/// Largest tick length the simulation accepts, in milliseconds.
pub const DT_MAX: i64 = 1000;

/// Render transform of an entity: position, size, rotation (always 0 here),
/// in sub-pixels.
#[derive(Clone, Copy, Debug, PartialEq, Eq, Structural)]
pub struct Transform {
    pub x: i64,
    pub y: i64,
    pub w: i64,
    pub h: i64,
    pub rot: i64,
}

/// A player: position and velocity, facing, trigger-debounce flags, animation
/// state, jump state, grounded flag, attack-cooldown timer, and the height at
/// or below which a cheap pre-check counts it as grounded.
#[derive(Clone, Copy, Debug, PartialEq, Eq, Structural)]
pub struct Player {
    pub pos: Vec2,
    pub vel: Vec2,
    pub dir: Dir,
    pub touching_door: bool,
    pub touching_mud: bool,
    pub anim: AnimationState,
    pub jumping: bool,
    pub jump_timer: i64,
    pub grounded: bool,
    pub attack_timer: i64,
    pub ground_threshold: i64,
}

/// A wandering enemy: dead enemies stay in storage with zero-size collider
/// and transform until attack resolution removes them.
#[derive(Clone, Copy, Debug, PartialEq, Eq, Structural)]
pub struct Enemy {
    pub pos: Vec2,
    pub vel: Vec2,
    pub dir: Dir,
    pub dead: bool,
    pub change_dir_timer: i64,
    pub anim: AnimationState,
}

/// A mud puddle: a fixed-size trigger zone that slows a touching player.
#[derive(Clone, Copy, Debug, PartialEq, Eq, Structural)]
pub struct Mud {
    pub pos: Vec2,
}

/// A door: a fixed-size trigger zone that teleports the player to a target
/// cell of a target level.
#[derive(Clone, Debug)]
pub struct Door {
    pub target_level: String,
    pub target_col: u16,
    pub target_row: u16,
    pub pos: Vec2,
}

/// The collider `Player::rect` returns.
pub open spec fn player_rect_spec(p: Player) -> Rect {
    Rect {
        x: (p.pos.x + if p.dir is E {
            8_000int
        } else {
            12_000int
        }) as i64,
        y: (p.pos.y - 12_000) as i64,
        w: 16_000,
        h: 24_000,
    }
}

/// The render transform `Player::trf` returns.
pub open spec fn player_trf_spec(p: Player) -> Transform {
    Transform {
        w: 36_000,
        h: 36_000,
        x: (p.pos.x + p.dir.sign() * 8_000 + 18_000) as i64,
        y: (p.pos.y - 12_000 + 18_000) as i64,
        rot: 0,
    }
}

/// The hitbox `Player::attack_rect` returns: zero-size while the cooldown
/// timer has not yet passed the threshold.
pub open spec fn attack_rect_spec(p: Player, attack_cooldown: i64) -> Rect {
    Rect {
        x: (p.pos.x + if p.dir is E {
            16_000int
        } else {
            0int
        }) as i64,
        y: (p.pos.y - 12_000) as i64,
        w: if p.attack_timer > attack_cooldown {
            18_000
        } else {
            0
        },
        h: if p.attack_timer > attack_cooldown {
            24_000
        } else {
            0
        },
    }
}

impl Player {
    pub open spec fn wf(self) -> bool {
        &&& -POS_LIMIT <= self.pos.x <= POS_LIMIT
        &&& -POS_LIMIT <= self.pos.y <= POS_LIMIT
        &&& -VEL_X_LIMIT <= self.vel.x <= VEL_X_LIMIT
        &&& -VEL_Y_LIMIT <= self.vel.y <= VEL_Y_LIMIT
        &&& -DT_MAX <= self.jump_timer <= TIMER_LIMIT
        &&& (self.jumping ==> self.jump_timer >= 1)
        &&& 0 <= self.attack_timer <= ATTACK_TIMER_CAP
        &&& 0 <= self.ground_threshold <= POS_LIMIT
        &&& self.anim.wf()
    }

    /// The collider: a 16 by 24 pixel box hung off the position, shifted by
    /// the facing.
    pub fn rect(&self) -> (r: Rect)
        requires
            self.wf(),
        ensures
            r == player_rect_spec(*self),
            r.wf(),
    {
        Rect {
            x: self.pos.x + match self.dir {
                Dir::E => 8_000,
                Dir::W => 12_000,
            },
            y: self.pos.y - 12_000,
            w: 16_000,
            h: 24_000,
        }
    }

    /// The render transform: a 36 by 36 pixel sprite centred over the
    /// collider, shifted by the facing.
    pub fn trf(&self) -> (r: Transform)
        requires
            self.wf(),
        ensures
            r == player_trf_spec(*self),
    {
        let sign = self.dir.to_vec2();
        Transform {
            w: 36_000,
            h: 36_000,
            x: self.pos.x + sign.x * 8_000 + 18_000,
            y: self.pos.y - 12_000 + 18_000,
            rot: 0,
        }
    }

    /// The attack hitbox: an 18 by 24 pixel box in front of the facing,
    /// zero-size (inactive) until the cooldown timer exceeds the threshold.
    pub fn attack_rect(&self, attack_cooldown: i64) -> (r: Rect)
        requires
            self.wf(),
            0 <= attack_cooldown <= TIMER_LIMIT,
        ensures
            r == attack_rect_spec(*self, attack_cooldown),
            r.wf(),
    {
        Rect {
            x: self.pos.x + match self.dir {
                Dir::E => 16_000,
                Dir::W => 0,
            },
            y: self.pos.y - 12_000,
            w: if self.attack_timer > attack_cooldown {
                18_000
            } else {
                0
            },
            h: if self.attack_timer > attack_cooldown {
                24_000
            } else {
                0
            },
        }
    }
}

/// The render transform `Enemy::trf` returns: zero for a dead enemy.
pub open spec fn enemy_trf_spec(e: Enemy) -> Transform {
    if e.dead {
        Transform { x: 0, y: 0, w: 0, h: 0, rot: 0 }
    } else {
        Transform { w: 36_000, h: 16_000, x: e.pos.x, y: e.pos.y, rot: 0 }
    }
}

/// The collider `Enemy::rect` returns: zero for a dead enemy.
pub open spec fn enemy_rect_spec(e: Enemy) -> Rect {
    if e.dead {
        Rect { x: 0, y: 0, w: 0, h: 0 }
    } else {
        Rect { x: (e.pos.x - 12_000) as i64, y: (e.pos.y - 8_000) as i64, w: 24_000, h: 8_000 }
    }
}

/// The 16 by 16 pixel query box used for an enemy's tile contacts and for
/// attack hits, hung directly on the position; zero-size for a dead enemy,
/// which is inert.
pub open spec fn enemy_query_rect_spec(e: Enemy) -> Rect {
    if e.dead {
        Rect { x: 0, y: 0, w: 0, h: 0 }
    } else {
        Rect { x: e.pos.x, y: e.pos.y, w: 16_000, h: 16_000 }
    }
}

impl Enemy {
    pub open spec fn wf(self) -> bool {
        &&& -POS_LIMIT <= self.pos.x <= POS_LIMIT
        &&& -POS_LIMIT <= self.pos.y <= POS_LIMIT
        &&& -VEL_X_LIMIT <= self.vel.x <= VEL_X_LIMIT
        &&& self.vel.y == 0
        &&& -DT_MAX <= self.change_dir_timer <= 5_000
        &&& self.anim.wf()
    }

    /// Mark the enemy dead; it keeps its storage slot but yields zero-size
    /// collider and transform until attack resolution removes it.
    pub fn die(&mut self)
        ensures
            *final(self) == (Enemy { dead: true, ..*old(self) }),
    {
        self.dead = true;
    }

    /// The collider: a 24 by 8 pixel box at the feet; zero when dead.
    pub fn rect(&self) -> (r: Rect)
        requires
            self.wf(),
        ensures
            r == enemy_rect_spec(*self),
            r.wf(),
    {
        if self.dead {
            return Rect::zero();
        }
        Rect { x: self.pos.x - 18_000 + 6_000, y: self.pos.y - 8_000, w: 24_000, h: 8_000 }
    }

    /// The render transform: a 36 by 16 pixel sprite at the position; zero
    /// when dead.
    pub fn trf(&self) -> (r: Transform)
        requires
            self.wf(),
        ensures
            r == enemy_trf_spec(*self),
    {
        if self.dead {
            return Transform { x: 0, y: 0, w: 0, h: 0, rot: 0 };
        }
        Transform { w: 36_000, h: 16_000, x: self.pos.x, y: self.pos.y, rot: 0 }
    }

    /// The 16 by 16 query box used for tile contacts and attack hits;
    /// zero-size for a dead enemy, which is inert.
    pub fn query_rect(&self) -> (r: Rect)
        requires
            self.wf(),
        ensures
            r == enemy_query_rect_spec(*self),
            r.wf(),
    {
        if self.dead {
            return Rect::zero();
        }
        Rect { x: self.pos.x, y: self.pos.y, w: 16_000, h: 16_000 }
    }
}

/// The 16 by 16 pixel trigger collider of a door or mud puddle centred on
/// `pos`.
pub open spec fn trigger_rect_spec(pos: Vec2) -> Rect {
    Rect { x: (pos.x - 8_000) as i64, y: (pos.y - 8_000) as i64, w: 16_000, h: 16_000 }
}

/// The trigger collider centred on a world position.
pub fn trigger_rect(pos: Vec2) -> (r: Rect)
    requires
        -POS_LIMIT <= pos.x <= POS_LIMIT,
        -POS_LIMIT <= pos.y <= POS_LIMIT,
    ensures
        r == trigger_rect_spec(pos),
        r.wf(),
{
    Rect { x: pos.x - 8_000, y: pos.y - 8_000, w: 16_000, h: 16_000 }
}

} // verus!
