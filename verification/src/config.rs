//! The capability configuration a game is built with, and the per-tick input
//! snapshot the simulation consumes.

use vstd::prelude::*;
use crate::entity::TIMER_LIMIT;
use crate::geom::Vec2;

verus! {

/// How horizontal motion is driven: by the input axis with acceleration,
/// braking and clamping, or by a forced walk velocity managed by the trigger
/// zones.
#[derive(Clone, Copy, Debug, PartialEq, Eq, Structural)]
pub enum ControlScheme {
    Axis,
    Forced,
}

/// The capabilities and tuning constants one game variant is built with,
/// chosen at construction. Velocities are in sub-pixels per second,
/// accelerations in sub-pixels per second squared, times in milliseconds,
/// positions and sizes in sub-pixels.
#[derive(Clone, Debug)]
pub struct GameConfig {
    pub scheme: ControlScheme,
    pub has_enemies: bool,
    pub has_doors: bool,
    pub has_mud: bool,
    pub has_attack: bool,
    pub player_count: usize,
    pub grav_acc: i64,
    pub walk_acc: i64,
    pub walk_vel: i64,
    pub max_speed: i64,
    pub jump_vel: i64,
    pub jump_time_max: i64,
    pub attack_cooldown: i64,
    pub mud_coeff_milli: i64,
    pub viewport_w: i64,
    pub viewport_h: i64,
    pub screen_margin: i64,
    pub spawn_offsets: Vec<Vec2>,
    pub ground_thresholds: Vec<i64>,
}

impl GameConfig {
    pub open spec fn wf(self) -> bool {
        &&& 1 <= self.player_count <= 8
        &&& self.spawn_offsets@.len() == self.player_count
        &&& forall|i: int|
            0 <= i < self.spawn_offsets@.len() ==> -1_000_000
                <= (#[trigger] self.spawn_offsets@[i]).x <= 1_000_000 && -1_000_000
                <= self.spawn_offsets@[i].y <= 1_000_000
        &&& self.ground_thresholds@.len() == self.player_count
        &&& forall|i: int|
            0 <= i < self.ground_thresholds@.len() ==> 0 <= #[trigger] self.ground_thresholds@[i]
                <= 1_000_000_000
        &&& 0 <= self.grav_acc <= 10_000_000
        &&& 0 <= self.walk_acc <= 10_000_000
        &&& 0 <= self.walk_vel <= self.max_speed
        &&& 1 <= self.max_speed <= 1_000_000
        &&& 0 <= self.jump_vel <= 1_000_000
        &&& 0 <= self.jump_time_max <= TIMER_LIMIT
        &&& 0 <= self.attack_cooldown <= TIMER_LIMIT
        &&& 0 <= self.mud_coeff_milli <= 1000
        &&& 1 <= self.viewport_w <= 100_000_000
        &&& 1 <= self.viewport_h <= 100_000_000
        &&& 0 <= self.screen_margin <= 100_000_000
    }
}

/// One player's share of the input snapshot: the key-down states the bound
/// keys map to, and the blended left/right axis in thousandths (-1000 for
/// full left, +1000 for full right).
#[derive(Clone, Copy, Debug, PartialEq, Eq, Structural)]
pub struct PlayerInput {
    pub jump: bool,
    pub left: bool,
    pub right: bool,
    pub attack: bool,
    pub axis: i64,
}

impl PlayerInput {
    pub open spec fn wf(self) -> bool {
        -1000 <= self.axis <= 1000
    }

    /// A snapshot with nothing pressed.
    pub fn idle() -> (r: PlayerInput)
        ensures
            r == (PlayerInput { jump: false, left: false, right: false, attack: false, axis: 0i64 }),
    {
        PlayerInput { jump: false, left: false, right: false, attack: false, axis: 0 }
    }
}

/// The per-tick input snapshot: one entry per player, sampled once per tick.
#[derive(Clone, Debug)]
pub struct InputSnapshot {
    pub players: Vec<PlayerInput>,
}

impl InputSnapshot {
    pub open spec fn wf(self) -> bool {
        forall|i: int| 0 <= i < self.players@.len() ==> (#[trigger] self.players@[i]).wf()
    }
}

} // verus!
