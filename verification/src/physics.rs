//! The fixed-timestep motion of players and enemies: input-driven
//! acceleration, gravity, braking, speed clamping, integration, level-bound
//! clamping, the provisional grounded check, and enemy wandering.

use vstd::prelude::*;
use crate::anim::{play_spec, AnimationKey, AnimationState, ANIM_TIME_CAP};
use crate::config::{ControlScheme, GameConfig, PlayerInput};
use crate::entity::{Enemy, Player, DT_MAX};
use crate::geom::Dir;

verus! {

/// Truncating division (rounding toward zero): the meaning of the `/`
/// operator on the signed machine integers the physics runs on.
pub open spec fn div_trunc(a: int, b: int) -> int {
    if a >= 0 {
        a / b
    } else {
        -((-a) / b)
    }
}

/// `v` limited to `[lo, hi]`.
pub open spec fn clamp_spec(v: int, lo: int, hi: int) -> int {
    if v < lo {
        lo
    } else if v > hi {
        hi
    } else {
        v
    }
}

/// `v` limited to `[lo, hi]`.
pub fn clamp_i64(v: i64, lo: i64, hi: i64) -> (r: i64)
    requires
        lo <= hi,
    ensures
        r == clamp_spec(v as int, lo as int, hi as int),
        lo <= r <= hi,
{
    if v < lo {
        lo
    } else if v > hi {
        hi
    } else {
        v
    }
}

/// Truncating division is monotone in the dividend.
pub proof fn lemma_div_trunc_ordered(a: int, b: int, d: int)
    requires
        a <= b,
        0 < d,
    ensures
        div_trunc(a, d) <= div_trunc(b, d),
{
    if a >= 0 {
        vstd::arithmetic::div_mod::lemma_div_is_ordered(a, b, d);
    } else if b < 0 {
        vstd::arithmetic::div_mod::lemma_div_is_ordered(-b, -a, d);
    } else {
        vstd::arithmetic::div_mod::lemma_div_is_ordered(0, -a, d);
        vstd::arithmetic::div_mod::lemma_div_is_ordered(0, b, d);
        assert(0int / d == 0) by {
            vstd::arithmetic::div_mod::lemma_div_of0(d);
        }
    }
}

/// `a * dt / 1000` with truncation: the per-tick share of a per-second rate.
/// The result never exceeds `a` in magnitude, because `dt` never exceeds one
/// second.
pub fn scale_by_dt(a: i64, dt: i64) -> (r: i64)
    requires
        -30_000_000_000_000 <= a <= 30_000_000_000_000,
        1 <= dt <= 1000,
    ensures
        r == div_trunc(a * dt, 1000),
        a >= 0 ==> 0 <= r <= a,
        a < 0 ==> a <= r <= 0,
{
    proof {
        if a >= 0 {
            assert(0 <= a * dt <= a * 1000) by (nonlinear_arith)
                requires
                    a >= 0,
                    1 <= dt <= 1000,
            ;
            vstd::arithmetic::div_mod::lemma_div_is_ordered(a * dt, a * 1000, 1000);
            vstd::arithmetic::div_mod::lemma_div_by_multiple(a as int, 1000);
            assert(a * 1000 == 1000 * a) by (nonlinear_arith);
            vstd::arithmetic::div_mod::lemma_div_is_ordered(0, a * dt, 1000);
            assert(0int / 1000int == 0) by {
                vstd::arithmetic::div_mod::lemma_div_of0(1000);
            }
        } else {
            assert(0 <= (-a) * dt <= (-a) * 1000) by (nonlinear_arith)
                requires
                    a < 0,
                    1 <= dt <= 1000,
            ;
            vstd::arithmetic::div_mod::lemma_div_is_ordered((-a) * dt, (-a) * 1000, 1000);
            vstd::arithmetic::div_mod::lemma_div_by_multiple(-a as int, 1000);
            vstd::arithmetic::div_mod::lemma_div_is_ordered(0, (-a) * dt, 1000);
            assert(0int / 1000int == 0) by {
                vstd::arithmetic::div_mod::lemma_div_of0(1000);
            }
            assert(-(a * dt) == (-a) * dt) by (nonlinear_arith);
        }
    }
    (a * dt) / 1000
}

/// Input-axis acceleration: `walk_acc * axis / 1000`, the walk acceleration
/// scaled by the blended axis value.
pub fn axis_accel(walk_acc: i64, axis: i64) -> (r: i64)
    requires
        0 <= walk_acc <= 10_000_000,
        -1000 <= axis <= 1000,
    ensures
        r == div_trunc(walk_acc * axis, 1000),
        -walk_acc <= r <= walk_acc,
{
    proof {
        if axis >= 0 {
            assert(0 <= walk_acc * axis <= walk_acc * 1000) by (nonlinear_arith)
                requires
                    walk_acc >= 0,
                    0 <= axis <= 1000,
            ;
            vstd::arithmetic::div_mod::lemma_div_is_ordered(walk_acc * axis, walk_acc * 1000, 1000);
            vstd::arithmetic::div_mod::lemma_div_by_multiple(walk_acc as int, 1000);
            assert(walk_acc * 1000 == 1000 * walk_acc) by (nonlinear_arith);
            vstd::arithmetic::div_mod::lemma_div_is_ordered(0, walk_acc * axis, 1000);
            assert(0int / 1000int == 0) by {
                vstd::arithmetic::div_mod::lemma_div_of0(1000);
            }
        } else {
            assert(0 <= walk_acc * (-axis) <= walk_acc * 1000) by (nonlinear_arith)
                requires
                    walk_acc >= 0,
                    0 < -axis <= 1000,
            ;
            vstd::arithmetic::div_mod::lemma_div_is_ordered(
                walk_acc * (-axis),
                walk_acc * 1000,
                1000,
            );
            vstd::arithmetic::div_mod::lemma_div_by_multiple(walk_acc as int, 1000);
            vstd::arithmetic::div_mod::lemma_div_is_ordered(0, walk_acc * (-axis), 1000);
            assert(0int / 1000int == 0) by {
                vstd::arithmetic::div_mod::lemma_div_of0(1000);
            }
            assert(-(walk_acc * axis) == walk_acc * (-axis)) by (nonlinear_arith);
        }
    }
    (walk_acc * axis) / 1000
}

/// The per-tick braking damp: `v * 9 / 10` with truncation (exponential
/// decay toward 0, not a hard stop).
pub fn damp_brake(v: i64) -> (r: i64)
    requires
        -2_000_000_000 <= v <= 2_000_000_000,
    ensures
        r == div_trunc(v * 9, 10),
        v >= 0 ==> 0 <= r <= v,
        v < 0 ==> v <= r <= 0,
{
    proof {
        if v >= 0 {
            assert(0 <= v * 9 <= v * 10) by (nonlinear_arith)
                requires
                    v >= 0,
            ;
            vstd::arithmetic::div_mod::lemma_div_is_ordered(v * 9, v * 10, 10);
            vstd::arithmetic::div_mod::lemma_div_by_multiple(v as int, 10);
            assert(v * 10 == 10 * v) by (nonlinear_arith);
            vstd::arithmetic::div_mod::lemma_div_is_ordered(0, v * 9, 10);
            assert(0int / 10int == 0) by {
                vstd::arithmetic::div_mod::lemma_div_of0(10);
            }
        } else {
            assert(0 <= (-v) * 9 <= (-v) * 10) by (nonlinear_arith)
                requires
                    v < 0,
            ;
            vstd::arithmetic::div_mod::lemma_div_is_ordered((-v) * 9, (-v) * 10, 10);
            vstd::arithmetic::div_mod::lemma_div_by_multiple(-v as int, 10);
            vstd::arithmetic::div_mod::lemma_div_is_ordered(0, (-v) * 9, 10);
            assert(0int / 10int == 0) by {
                vstd::arithmetic::div_mod::lemma_div_of0(10);
            }
            assert(-(v * 9) == (-v) * 9) by (nonlinear_arith);
        }
    }
    (v * 9) / 10
}

/// The idle or jump-rise animation key for a facing.
pub open spec fn stance_key(jumping: bool, dir: Dir) -> AnimationKey {
    if jumping {
        if dir is E {
            AnimationKey::PlayerRightJumpRise
        } else {
            AnimationKey::PlayerLeftJumpRise
        }
    } else {
        if dir is E {
            AnimationKey::PlayerRightIdle
        } else {
            AnimationKey::PlayerLeftIdle
        }
    }
}

/// Elapsed animation time advanced by `dt`, saturating at the cap.
pub open spec fn anim_tick_spec(a: AnimationState, dt: int) -> AnimationState {
    AnimationState {
        animation: a.animation,
        t: (if a.t + dt <= ANIM_TIME_CAP {
            a.t + dt
        } else {
            ANIM_TIME_CAP as int
        }) as i64,
    }
}

/// One tick of a player's own motion, before tile resolution: facing and walk
/// animation from the axis keys (axis-driven control only), jump start on a
/// grounded jump press, the jump-sustain countdown, gravity, axis
/// acceleration with braking and the speed clamp (axis-driven control only),
/// semi-implicit Euler integration, the clamp into level pixel bounds, the
/// provisional grounded check against the player's floor threshold, and the
/// jump-rise or idle animation selection.
pub open spec fn player_advance_rel(
    p: Player,
    p2: Player,
    inp: PlayerInput,
    dt: int,
    lw_sub: int,
    lh_sub: int,
    cfg: GameConfig,
) -> bool {
    let axis_drive = cfg.scheme is Axis;
    let dir1 = if axis_drive && inp.right {
        Dir::E
    } else if axis_drive && inp.left {
        Dir::W
    } else {
        p.dir
    };
    let anim1 = if axis_drive && inp.right {
        play_spec(p.anim, AnimationKey::PlayerRightWalk, false)
    } else if axis_drive && inp.left {
        play_spec(p.anim, AnimationKey::PlayerLeftWalk, false)
    } else {
        p.anim
    };
    let jumps = inp.jump && p.grounded;
    let jumping1 = jumps || p.jumping;
    let jt1 = if jumps {
        cfg.jump_time_max as int
    } else {
        p.jump_timer as int
    };
    let vy1 = if jumps {
        cfg.jump_vel as int
    } else {
        p.vel.y as int
    };
    let jt2 = if jumping1 {
        jt1 - dt
    } else {
        jt1
    };
    let jumping2 = jumping1 && jt2 > 0;
    let vy2 = vy1 - (cfg.grav_acc * dt) / 1000;
    let acc_x = div_trunc(cfg.walk_acc * inp.axis, 1000);
    let vx2 = if axis_drive {
        let vx1 = p.vel.x + div_trunc(acc_x * dt, 1000);
        let vxb = if -100 < acc_x < 100 {
            div_trunc(vx1 * 9, 10)
        } else {
            vx1
        };
        clamp_spec(vxb, -cfg.max_speed as int, cfg.max_speed as int)
    } else {
        p.vel.x as int
    };
    let px2 = clamp_spec(p.pos.x + div_trunc(vx2 * dt, 1000), 0, lw_sub - 8_000);
    let py2 = clamp_spec(p.pos.y + div_trunc(vy2 * dt, 1000), 0, lh_sub - 24_000);
    let grounded2 = py2 <= p.ground_threshold;
    let vy3: int = if grounded2 {
        0
    } else {
        vy2
    };
    let anim3 = anim_tick_spec(play_spec(anim1, stance_key(jumping2, dir1), false), dt);
    &&& p2.pos.x == px2
    &&& p2.pos.y == py2
    &&& p2.vel.x == vx2
    &&& p2.vel.y == vy3
    &&& p2.dir == dir1
    &&& p2.jumping == jumping2
    &&& p2.jump_timer == jt2
    &&& p2.grounded == grounded2
    &&& p2.anim == anim3
    &&& p2.attack_timer == p.attack_timer
    &&& p2.touching_door == p.touching_door
    &&& p2.touching_mud == p.touching_mud
    &&& p2.ground_threshold == p.ground_threshold
}

/// Advance a player's own motion by one tick (see `player_advance_rel`).
#[verifier::rlimit(60)]
pub fn player_advance(
    p: &mut Player,
    inp: PlayerInput,
    dt: i64,
    lw_sub: i64,
    lh_sub: i64,
    cfg: &GameConfig,
)
    requires
        old(p).wf(),
        inp.wf(),
        cfg.wf(),
        1 <= dt <= DT_MAX,
        32_000 <= lw_sub <= 70_000_000,
        32_000 <= lh_sub <= 70_000_000,
        -cfg.max_speed <= old(p).vel.x <= cfg.max_speed,
    ensures
        player_advance_rel(*old(p), *final(p), inp, dt as int, lw_sub as int, lh_sub as int, *cfg),
        final(p).wf(),
        -cfg.max_speed <= final(p).vel.x <= cfg.max_speed,
        0 <= final(p).pos.x <= lw_sub - 8_000,
        0 <= final(p).pos.y <= lh_sub - 24_000,
        final(p).ground_threshold == old(p).ground_threshold,
        final(p).attack_timer == old(p).attack_timer,
        final(p).touching_door == old(p).touching_door,
        final(p).touching_mud == old(p).touching_mud,
{
    let axis_drive = cfg.scheme == ControlScheme::Axis;
    // facing and walk animation from the axis keys
    if axis_drive && inp.right {
        p.dir = Dir::E;
        p.anim.play(AnimationKey::PlayerRightWalk, false);
    } else if axis_drive && inp.left {
        p.dir = Dir::W;
        p.anim.play(AnimationKey::PlayerLeftWalk, false);
    }
    // jump start on a grounded jump press
    if inp.jump && p.grounded {
        p.jumping = true;
        p.jump_timer = cfg.jump_time_max;
        p.vel.y = cfg.jump_vel;
    }
    // jump-sustain countdown
    if p.jumping {
        p.jump_timer = p.jump_timer - dt;
        if p.jump_timer <= 0 {
            p.jumping = false;
        }
    }
    // gravity
    proof {
        assert(0 <= cfg.grav_acc * dt <= 10_000_000_000) by (nonlinear_arith)
            requires
                0 <= cfg.grav_acc <= 10_000_000,
                1 <= dt <= 1000,
        ;
        vstd::arithmetic::div_mod::lemma_div_is_ordered(0, cfg.grav_acc * dt, 1000);
        vstd::arithmetic::div_mod::lemma_div_is_ordered(cfg.grav_acc * dt, 10_000_000_000, 1000);
        assert(0int / 1000int == 0) by {
            vstd::arithmetic::div_mod::lemma_div_of0(1000);
        }
        assert(10_000_000_000int / 1000int == 10_000_000) by {
            vstd::arithmetic::div_mod::lemma_div_by_multiple(10_000_000, 1000);
        }
    }
    let g_step = (cfg.grav_acc * dt) / 1000;
    p.vel.y = p.vel.y - g_step;
    // axis acceleration, braking, speed clamp
    if axis_drive {
        let acc_x = axis_accel(cfg.walk_acc, inp.axis);
        let dv = scale_by_dt(acc_x, dt);
        p.vel.x = p.vel.x + dv;
        if -100 < acc_x && acc_x < 100 {
            p.vel.x = damp_brake(p.vel.x);
        }
        p.vel.x = clamp_i64(p.vel.x, -cfg.max_speed, cfg.max_speed);
    }
    // semi-implicit Euler integration
    let dx = scale_by_dt(p.vel.x, dt);
    p.pos.x = p.pos.x + dx;
    let dy = scale_by_dt(p.vel.y, dt);
    let ghost py1: int = p.pos.y + dy;
    p.pos.y = p.pos.y + dy;
    // clamp into level pixel bounds
    p.pos.x = clamp_i64(p.pos.x, 0, lw_sub - 8_000);
    p.pos.y = clamp_i64(p.pos.y, 0, lh_sub - 24_000);
    // provisional grounded check
    p.grounded = p.pos.y <= p.ground_threshold;
    if p.grounded {
        p.vel.y = 0;
    }
    proof {
        // a fall fast enough to escape the vertical velocity bound would have
        // crossed the level floor this tick and been grounded and zeroed
        if !p.grounded {
            if p.vel.y < -(10_000_000_001_000int) {
                assert(p.vel.y * dt <= p.vel.y * 1) by (nonlinear_arith)
                    requires
                        p.vel.y < 0,
                        1 <= dt,
                ;
                lemma_div_trunc_ordered(p.vel.y * dt, p.vel.y as int, 1000);
                lemma_div_trunc_ordered(p.vel.y as int, -(10_000_000_001_000int), 1000);
                assert(div_trunc(-(10_000_000_001_000int), 1000) == -10_000_000_001int);
                assert(py1 < 0);
                assert(false);
            }
        }
    }
    // jump-rise or idle animation
    if p.jumping {
        match p.dir {
            Dir::E => p.anim.play(AnimationKey::PlayerRightJumpRise, false),
            Dir::W => p.anim.play(AnimationKey::PlayerLeftJumpRise, false),
        }
    } else {
        match p.dir {
            Dir::E => p.anim.play(AnimationKey::PlayerRightIdle, false),
            Dir::W => p.anim.play(AnimationKey::PlayerLeftIdle, false),
        }
    }
    p.anim.tick(dt);
}

/// One tick of an enemy's wandering, skipped entirely for a dead enemy: the
/// direction-change countdown (flipping the facing and re-arming the timer
/// with the fresh roll on expiry), the full-speed walk in the facing, the
/// clamp into level pixel bounds, and the walk animation for the facing.
pub open spec fn enemy_wander_rel(
    e: Enemy,
    e2: Enemy,
    dt: int,
    lw_sub: int,
    lh_sub: int,
    max_speed: int,
    roll: int,
) -> bool {
    if e.dead {
        e2 == e
    } else {
        let t1 = e.change_dir_timer - dt;
        let flip = t1 <= 0;
        let dir1 = if flip {
            e.dir.flip_spec()
        } else {
            e.dir
        };
        let t2 = if flip {
            roll
        } else {
            t1
        };
        let vx = max_speed * dir1.sign();
        let px2 = clamp_spec(e.pos.x + div_trunc(vx * dt, 1000), 0, lw_sub - 12_000);
        let py2 = clamp_spec(e.pos.y as int, 0, lh_sub - 4_000);
        let walk_key = if dir1 is E {
            AnimationKey::EnemyRightWalk
        } else {
            AnimationKey::EnemyLeftWalk
        };
        let anim2 = anim_tick_spec(play_spec(e.anim, walk_key, false), dt);
        &&& e2.pos.x == px2
        &&& e2.pos.y == py2
        &&& e2.vel.x == vx
        &&& e2.vel.y == 0
        &&& e2.dir == dir1
        &&& e2.dead == false
        &&& e2.change_dir_timer == t2
        &&& e2.anim == anim2
    }
}

/// The wandering outcomes possible in one enemy tick, with the fresh
/// countdown constrained to the re-roll window instead of given: what holds
/// of the enemy whatever the roll came out as.
pub open spec fn enemy_wander_outcome(
    e: Enemy,
    e2: Enemy,
    dt: int,
    lw_sub: int,
    lh_sub: int,
    max_speed: int,
) -> bool {
    if e.dead {
        e2 == e
    } else {
        let t1 = e.change_dir_timer - dt;
        let flip = t1 <= 0;
        let dir1 = if flip {
            e.dir.flip_spec()
        } else {
            e.dir
        };
        let vx = max_speed * dir1.sign();
        let px2 = clamp_spec(e.pos.x + div_trunc(vx * dt, 1000), 0, lw_sub - 12_000);
        let py2 = clamp_spec(e.pos.y as int, 0, lh_sub - 4_000);
        let walk_key = if dir1 is E {
            AnimationKey::EnemyRightWalk
        } else {
            AnimationKey::EnemyLeftWalk
        };
        let anim2 = anim_tick_spec(play_spec(e.anim, walk_key, false), dt);
        &&& e2.pos.x == px2
        &&& e2.pos.y == py2
        &&& e2.vel.x == vx
        &&& e2.vel.y == 0
        &&& e2.dir == dir1
        &&& e2.dead == false
        &&& (if flip {
            3000 <= e2.change_dir_timer < 5000
        } else {
            e2.change_dir_timer == t1
        })
        &&& e2.anim == anim2
    }
}

/// A wander step with a roll from the re-roll window is one of the wandering
/// outcomes.
pub proof fn lemma_wander_outcome(
    e: Enemy,
    e2: Enemy,
    dt: int,
    lw_sub: int,
    lh_sub: int,
    max_speed: int,
    roll: int,
)
    requires
        enemy_wander_rel(e, e2, dt, lw_sub, lh_sub, max_speed, roll),
        3000 <= roll < 5000,
    ensures
        enemy_wander_outcome(e, e2, dt, lw_sub, lh_sub, max_speed),
{
}

/// Advance one enemy's wandering by one tick (see `enemy_wander_rel`);
/// `fresh_timer` is the uniformly drawn replacement countdown, used only if
/// the running countdown expires this tick.
pub fn enemy_wander_tick(
    e: &mut Enemy,
    dt: i64,
    lw_sub: i64,
    lh_sub: i64,
    max_speed: i64,
    fresh_timer: i64,
)
    requires
        old(e).wf(),
        1 <= dt <= DT_MAX,
        32_000 <= lw_sub <= 70_000_000,
        32_000 <= lh_sub <= 70_000_000,
        1 <= max_speed <= 1_000_000,
        3000 <= fresh_timer < 5000,
    ensures
        enemy_wander_rel(
            *old(e),
            *final(e),
            dt as int,
            lw_sub as int,
            lh_sub as int,
            max_speed as int,
            fresh_timer as int,
        ),
        final(e).wf(),
        final(e).dead == old(e).dead,
        -max_speed <= final(e).vel.x <= max_speed || *final(e) == *old(e),
        !old(e).dead ==> 0 <= final(e).pos.x <= lw_sub - 12_000 && 0 <= final(e).pos.y <= lh_sub
            - 4_000,
        old(e).dead ==> *final(e) == *old(e),
{
    if e.dead {
        return ;
    }
    e.change_dir_timer = e.change_dir_timer - dt;
    if e.change_dir_timer <= 0 {
        e.dir = e.dir.flip();
        e.change_dir_timer = fresh_timer;
    }
    e.vel.x = match e.dir {
        Dir::E => max_speed,
        Dir::W => -max_speed,
    };
    e.vel.y = 0;
    proof {
        assert(e.vel.x == max_speed * e.dir.sign()) by (nonlinear_arith)
            requires
                e.vel.x == (if e.dir is E { max_speed as int } else { -max_speed as int }),
        ;
    }
    let dx = scale_by_dt(e.vel.x, dt);
    e.pos.x = e.pos.x + dx;
    e.pos.x = clamp_i64(e.pos.x, 0, lw_sub - 12_000);
    e.pos.y = clamp_i64(e.pos.y, 0, lh_sub - 4_000);
    match e.dir {
        Dir::E => e.anim.play(AnimationKey::EnemyRightWalk, false),
        Dir::W => e.anim.play(AnimationKey::EnemyLeftWalk, false),
    }
    e.anim.tick(dt);
}

/// Horizontal speed never exceeds the configured maximum after a tick of
/// motion, whatever the input: under axis control the advance clamps it, and
/// under forced walk it is left as it was.
pub proof fn law_speed_clamp(
    p: Player,
    p2: Player,
    inp: PlayerInput,
    dt: int,
    lw_sub: int,
    lh_sub: int,
    cfg: GameConfig,
)
    requires
        cfg.wf(),
        -cfg.max_speed <= p.vel.x <= cfg.max_speed,
        player_advance_rel(p, p2, inp, dt, lw_sub, lh_sub, cfg),
    ensures
        -cfg.max_speed <= p2.vel.x <= cfg.max_speed,
{
}

/// A grounded jump press starts the jump that very tick: the sustain window
/// is armed, and the vertical velocity is set to the configured jump velocity
/// before gravity's share of the tick is taken back off it.
pub proof fn law_jump_impulse(
    p: Player,
    p2: Player,
    inp: PlayerInput,
    dt: int,
    lw_sub: int,
    lh_sub: int,
    cfg: GameConfig,
)
    requires
        cfg.wf(),
        player_advance_rel(p, p2, inp, dt, lw_sub, lh_sub, cfg),
        inp.jump,
        p.grounded,
        0 < dt < cfg.jump_time_max,
    ensures
        p2.jumping,
        p2.jump_timer == cfg.jump_time_max - dt,
        !p2.grounded ==> p2.vel.y == cfg.jump_vel - (cfg.grav_acc * dt) / 1000,
{
}

/// An enemy whose direction-change countdown expires this tick flips its
/// facing exactly once and re-arms the countdown with the fresh roll, which
/// lies in the configured window.
pub proof fn law_enemy_flip(
    e: Enemy,
    e2: Enemy,
    dt: int,
    lw_sub: int,
    lh_sub: int,
    max_speed: int,
    roll: int,
)
    requires
        enemy_wander_rel(e, e2, dt, lw_sub, lh_sub, max_speed, roll),
        !e.dead,
        e.change_dir_timer - dt <= 0,
        3000 <= roll < 5000,
    ensures
        e2.dir == e.dir.flip_spec(),
        3000 <= e2.change_dir_timer < 5000,
{
}

} // verus!
