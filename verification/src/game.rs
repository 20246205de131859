//! The simulation state and its fixed tick: players, enemies and trigger
//! zones advanced against the current level, attack resolution, door and mud
//! triggers with their entry debounce, level transitions, and the camera
//! follow.

use vstd::prelude::*;
use crate::anim::{
    key_index, play_spec, registry_wf, AnimationClip, AnimationKey, AnimationState, SampledSprite,
};
use crate::camera::{follow_axis_spec, Camera};
use crate::collision::{
    all_tile_contacts, row_contacts, gather_contacts, gather_contacts_tiles, lemma_all_tile_contacts_len,
    lemma_all_tile_contacts_sound, lemma_pair_contacts_sound, pair_contacts, resolve_enemy_tiles,
    resolve_player_fold, resolve_player_tiles, Contact, ResolveState,
};
use crate::config::{ControlScheme, GameConfig, InputSnapshot, PlayerInput};
use crate::entity::{
    attack_rect_spec, enemy_query_rect_spec, player_rect_spec, trigger_rect, trigger_rect_spec,
    Door, Enemy, Mud, Player, Transform, ATTACK_TIMER_CAP, DT_MAX,
};
use crate::geom::{rects_intersect, Dir, Rect, Vec2};
use crate::level::{EntityType, Level, TILE_SUB, STARTS_MAX};
use crate::physics::{enemy_wander_tick, player_advance, player_advance_rel};

verus! {

/// The two unrecoverable start-up conditions: a first level without a player
/// placement, and a door whose target level name or target cell matches no
/// loaded level.
#[derive(Clone, Copy, Debug, PartialEq, Eq, Structural)]
pub enum GameError {
    NoPlayerStart,
    BrokenDoorTarget,
}

/// The whole simulation state: the loaded levels and the current one, the
/// entities, the camera, the immutable animation registry, and the capability
/// configuration.
#[derive(Debug)]
pub struct Game {
    pub current_level: usize,
    pub levels: Vec<Level>,
    pub players: Vec<Player>,
    pub enemies: Vec<Enemy>,
    pub mud_puddles: Vec<Mud>,
    pub doors: Vec<Door>,
    pub camera: Camera,
    pub animations: Vec<AnimationClip>,
    pub config: GameConfig,
}

/// Index of the first loaded level with the given name, or -1.
pub open spec fn find_level(levels: Seq<Level>, name: Seq<char>) -> int
    decreases levels.len(),
{
    if levels.len() == 0 {
        -1
    } else if levels.first().name@ == name {
        0
    } else {
        let r = find_level(levels.skip(1), name);
        if r < 0 {
            -1
        } else {
            1 + r
        }
    }
}

/// A found level index is in range and names the level searched for.
pub proof fn lemma_find_level_found(levels: Seq<Level>, name: Seq<char>)
    requires
        find_level(levels, name) >= 0,
    ensures
        0 <= find_level(levels, name) < levels.len(),
        levels[find_level(levels, name)].name@ == name,
    decreases levels.len(),
{
    if levels.len() > 0 && levels.first().name@ != name {
        lemma_find_level_found(levels.skip(1), name);
    }
}

/// Skipping a prefix with no match shifts the search by the prefix length.
proof fn lemma_find_level_skip(levels: Seq<Level>, name: Seq<char>, i: int)
    requires
        0 <= i <= levels.len(),
        forall|k: int| 0 <= k < i ==> (#[trigger] levels[k]).name@ != name,
    ensures
        find_level(levels, name) == (if find_level(levels.skip(i), name) < 0 {
            -1
        } else {
            i + find_level(levels.skip(i), name)
        }),
    decreases i,
{
    if i == 0 {
        assert(levels.skip(0) =~= levels);
    } else {
        assert(levels.first() == levels[0]);
        lemma_find_level_skip(levels.skip(1), name, i - 1);
        assert(levels.skip(1).skip(i - 1) =~= levels.skip(i));
        assert(forall|k: int|
            0 <= k < i - 1 ==> (#[trigger] levels.skip(1)[k]).name@ == levels[k + 1].name@);
    }
}

/// The doors a level's spawn points declare, in order.
pub open spec fn doors_of(starts: Seq<(EntityType, Vec2)>) -> Seq<Door>
    decreases starts.len(),
{
    if starts.len() == 0 {
        Seq::empty()
    } else {
        let rest = doors_of(starts.drop_last());
        match starts.last().0 {
            EntityType::Door(t, c, r) => rest + seq![
                Door { target_level: t, target_col: c, target_row: r, pos: starts.last().1 },
            ],
            _ => rest,
        }
    }
}

/// The mud puddles a level's spawn points declare, in order.
pub open spec fn muds_of(starts: Seq<(EntityType, Vec2)>) -> Seq<Mud>
    decreases starts.len(),
{
    if starts.len() == 0 {
        Seq::empty()
    } else {
        let rest = muds_of(starts.drop_last());
        match starts.last().0 {
            EntityType::Enemy => rest,
            EntityType::Mud => rest + seq![Mud { pos: starts.last().1 }],
            _ => rest,
        }
    }
}

/// The enemy spawn positions a level's spawn points declare, in order.
pub open spec fn enemy_starts(starts: Seq<(EntityType, Vec2)>) -> Seq<Vec2>
    decreases starts.len(),
{
    if starts.len() == 0 {
        Seq::empty()
    } else {
        let rest = enemy_starts(starts.drop_last());
        match starts.last().0 {
            EntityType::Enemy => rest + seq![starts.last().1],
            _ => rest,
        }
    }
}

/// Index of the first spawn point of kind player, or -1.
pub open spec fn first_player_start(starts: Seq<(EntityType, Vec2)>) -> int
    decreases starts.len(),
{
    if starts.len() == 0 {
        -1
    } else if starts.first().0 is Player {
        0
    } else {
        let r = first_player_start(starts.skip(1));
        if r < 0 {
            -1
        } else {
            1 + r
        }
    }
}

/// A found first player start is in range and is of kind player.
pub proof fn lemma_first_player_start_found(starts: Seq<(EntityType, Vec2)>)
    requires
        first_player_start(starts) >= 0,
    ensures
        0 <= first_player_start(starts) < starts.len(),
        starts[first_player_start(starts)].0 is Player,
    decreases starts.len(),
{
    if starts.len() > 0 && !(starts.first().0 is Player) {
        lemma_first_player_start_found(starts.skip(1));
    }
}

/// Skipping a prefix with no player start shifts the search.
proof fn lemma_first_player_start_skip(starts: Seq<(EntityType, Vec2)>, i: int)
    requires
        0 <= i <= starts.len(),
        forall|k: int| 0 <= k < i ==> !((#[trigger] starts[k]).0 is Player),
    ensures
        first_player_start(starts) == (if first_player_start(starts.skip(i)) < 0 {
            -1
        } else {
            i + first_player_start(starts.skip(i))
        }),
    decreases i,
{
    if i == 0 {
        assert(starts.skip(0) =~= starts);
    } else {
        assert(starts.first() == starts[0]);
        lemma_first_player_start_skip(starts.skip(1), i - 1);
        assert(starts.skip(1).skip(i - 1) =~= starts.skip(i));
        assert(forall|k: int| 0 <= k < i - 1 ==> starts.skip(1)[k] == #[trigger] starts[k + 1]);
    }
}

/// There are never more declared doors, mud puddles or enemies than spawn
/// points, and each declared door repeats the data of one door spawn point.
pub proof fn lemma_starts_projections(starts: Seq<(EntityType, Vec2)>)
    ensures
        doors_of(starts).len() <= starts.len(),
        muds_of(starts).len() <= starts.len(),
        enemy_starts(starts).len() <= starts.len(),
        forall|k: int|
            0 <= k < doors_of(starts).len() ==> exists|si: int|
                0 <= si < starts.len() && starts[si].0 == EntityType::Door(
                    (#[trigger] doors_of(starts)[k]).target_level,
                    doors_of(starts)[k].target_col,
                    doors_of(starts)[k].target_row,
                ) && starts[si].1 == doors_of(starts)[k].pos,
        forall|k: int|
            0 <= k < muds_of(starts).len() ==> exists|si: int|
                0 <= si < starts.len() && starts[si].1 == (#[trigger] muds_of(starts)[k]).pos,
        forall|k: int|
            0 <= k < enemy_starts(starts).len() ==> exists|si: int|
                0 <= si < starts.len() && starts[si].1 == #[trigger] enemy_starts(starts)[k],
    decreases starts.len(),
{
    if starts.len() > 0 {
        lemma_starts_projections(starts.drop_last());
        assert(starts.last() == starts[starts.len() - 1]);
        assert(forall|si: int|
            0 <= si < starts.len() - 1 ==> #[trigger] starts.drop_last()[si] == starts[si]);
    }
}

/// A freshly spawned enemy: at its spawn point, at rest, alive, with the
/// walk animation from time 0 and a direction-change countdown drawn from
/// the re-roll window. The facing is whatever the coin toss gave.
pub open spec fn enemy_spawn_ok(e: Enemy, pos: Vec2) -> bool {
    &&& e.pos == pos
    &&& e.vel == (Vec2 { x: 0i64, y: 0i64 })
    &&& !e.dead
    &&& 3000 <= e.change_dir_timer < 5000
    &&& e.anim == (AnimationState { animation: AnimationKey::EnemyLeftWalk, t: 0i64 })
}

/// What entering a level does: the trigger and enemy collections are rebuilt
/// from the level's spawn points, and each player is placed at its given
/// position with the door debounce armed (a level is usually entered through
/// a door) and the mud debounce cleared.
pub open spec fn enter_level_rel(
    level: Level,
    ps: Seq<Player>,
    positions: Seq<Vec2>,
    ps2: Seq<Player>,
    doors2: Seq<Door>,
    muds2: Seq<Mud>,
    es2: Seq<Enemy>,
) -> bool {
    &&& doors2 == doors_of(level.starts@)
    &&& muds2 == muds_of(level.starts@)
    &&& es2.len() == enemy_starts(level.starts@).len()
    &&& forall|i: int|
        0 <= i < es2.len() ==> enemy_spawn_ok(#[trigger] es2[i], enemy_starts(level.starts@)[i])
    &&& ps2.len() == ps.len()
    &&& forall|i: int|
        0 <= i < ps2.len() ==> #[trigger] ps2[i] == (Player {
            pos: positions[i],
            touching_door: true,
            touching_mud: false,
            ..ps[i]
        })
}

impl Game {
    /// Every door anywhere in the loaded levels resolves: its target name
    /// names a loaded level (the first match is taken) and its target cell
    /// lies inside that level's grid.
    pub open spec fn door_targets_ok(levels: Seq<Level>) -> bool {
        forall|li: int, si: int|
            0 <= li < levels.len() && 0 <= si < levels[li].starts@.len() ==> ((
            #[trigger] levels[li].starts@[si]).0 matches EntityType::Door(t, c, r) ==> {
                let j = find_level(levels, t@);
                &&& 0 <= j < levels.len()
                &&& c < levels[j].width
                &&& r < levels[j].height
            })
    }

    /// The same, for an already-extracted door list.
    pub open spec fn doors_resolve(levels: Seq<Level>, doors: Seq<Door>) -> bool {
        forall|k: int|
            0 <= k < doors.len() ==> {
                let d = #[trigger] doors[k];
                let j = find_level(levels, d.target_level@);
                &&& 0 <= j < levels.len()
                &&& d.target_col < levels[j].width
                &&& d.target_row < levels[j].height
            }
    }

    pub open spec fn cur_level(self) -> Level {
        self.levels@[self.current_level as int]
    }

    /// Everything `wf` asks except the camera lying inside the current
    /// level's bounds; the tick phases before the camera follow preserve
    /// this, and the follow restores the full invariant.
    pub open spec fn wf_base(self) -> bool {
        &&& self.config.wf()
        &&& 1 <= self.levels@.len() <= 1000
        &&& self.current_level < self.levels@.len()
        &&& forall|i: int| 0 <= i < self.levels@.len() ==> (#[trigger] self.levels@[i]).wf()
        &&& Self::door_targets_ok(self.levels@)
        &&& self.players@.len() == self.config.player_count
        &&& forall|i: int|
            0 <= i < self.players@.len() ==> (#[trigger] self.players@[i]).wf()
                && -self.config.max_speed <= self.players@[i].vel.x <= self.config.max_speed
                && -1_000_000_000 <= self.players@[i].pos.x <= 1_000_000_000 && -1_000_000_000
                <= self.players@[i].pos.y <= 1_000_000_000
        &&& self.enemies@.len() <= STARTS_MAX
        &&& forall|i: int|
            0 <= i < self.enemies@.len() ==> (#[trigger] self.enemies@[i]).wf()
                && -self.config.max_speed <= self.enemies@[i].vel.x <= self.config.max_speed
                && -2_000_000_000 <= self.enemies@[i].pos.x <= 2_000_000_000 && -2_000_000_000
                <= self.enemies@[i].pos.y <= 2_000_000_000
        &&& self.mud_puddles@.len() <= STARTS_MAX
        &&& forall|i: int|
            0 <= i < self.mud_puddles@.len() ==> -100_000_000 <= (
            #[trigger] self.mud_puddles@[i]).pos.x <= 100_000_000 && -100_000_000
                <= self.mud_puddles@[i].pos.y <= 100_000_000
        &&& self.doors@.len() <= STARTS_MAX
        &&& forall|i: int|
            0 <= i < self.doors@.len() ==> -100_000_000 <= (#[trigger] self.doors@[i]).pos.x
                <= 100_000_000 && -100_000_000 <= self.doors@[i].pos.y <= 100_000_000
        &&& Self::doors_resolve(self.levels@, self.doors@)
        &&& self.camera.wf()
        &&& self.camera.screen_size.x == self.config.viewport_w
        &&& self.camera.screen_size.y == self.config.viewport_h
        &&& registry_wf(self.animations@)
    }

    pub open spec fn wf(self) -> bool {
        &&& self.wf_base()
        &&& 0 <= self.camera.screen_pos.x <= (if self.cur_level().pixel_w()
            >= self.config.viewport_w {
            self.cur_level().pixel_w() - self.config.viewport_w
        } else {
            0
        })
        &&& 0 <= self.camera.screen_pos.y <= (if self.cur_level().pixel_h()
            >= self.config.viewport_h {
            self.cur_level().pixel_h() - self.config.viewport_h
        } else {
            0
        })
    }

    /// The level the simulation is currently running in.
    pub fn level(&self) -> (r: &Level)
        requires
            self.wf(),
        ensures
            *r == self.cur_level(),
    {
        &self.levels[self.current_level]
    }

    /// First loaded level whose name matches, as the door resolution uses it.
    fn find_level_index(levels: &Vec<Level>, name: &String) -> (r: Option<usize>)
        ensures
            r is Some <==> find_level(levels@, name@) >= 0,
            r matches Some(i) ==> i == find_level(levels@, name@),
    {
        let mut i: usize = 0;
        while i < levels.len()
            invariant
                0 <= i <= levels@.len(),
                forall|k: int| 0 <= k < i ==> (#[trigger] levels@[k]).name@ != name@,
            decreases levels@.len() - i,
        {
            if levels[i].name.eq(name) {
                proof {
                    lemma_find_level_skip(levels@, name@, i as int);
                    assert(levels@.skip(i as int).first() == levels@[i as int]);
                }
                return Some(i);
            }
            i += 1;
        }
        proof {
            lemma_find_level_skip(levels@, name@, levels@.len() as int);
            assert(levels@.skip(levels@.len() as int) =~= Seq::<Level>::empty());
        }
        None
    }

    /// First player spawn point of the current first level, as construction
    /// uses it.
    fn find_player_start(starts: &Vec<(EntityType, Vec2)>) -> (r: Option<usize>)
        ensures
            r is Some <==> first_player_start(starts@) >= 0,
            r matches Some(i) ==> i == first_player_start(starts@),
    {
        let mut i: usize = 0;
        while i < starts.len()
            invariant
                0 <= i <= starts@.len(),
                forall|k: int| 0 <= k < i ==> !((#[trigger] starts@[k]).0 is Player),
            decreases starts@.len() - i,
        {
            let hit = match &starts[i].0 {
                EntityType::Player => true,
                _ => false,
            };
            if hit {
                proof {
                    lemma_first_player_start_skip(starts@, i as int);
                    assert(starts@.skip(i as int).first() == starts@[i as int]);
                }
                return Some(i);
            }
            i += 1;
        }
        proof {
            lemma_first_player_start_skip(starts@, starts@.len() as int);
            assert(starts@.skip(starts@.len() as int) =~= Seq::<(EntityType, Vec2)>::empty());
        }
        None
    }

    /// Rebuild the trigger and enemy collections from the current level's
    /// spawn points and place each player at its given position, arming the
    /// door debounce and clearing the mud debounce (see `enter_level_rel`).
    /// Each spawned enemy faces a coin-tossed way with a countdown drawn
    /// uniformly from the re-roll window.
    pub fn enter_level(&mut self, positions: &Vec<Vec2>)
        requires
            old(self).wf_base(),
            positions@.len() == old(self).players@.len(),
            forall|i: int|
                0 <= i < positions@.len() ==> -100_000_000 <= (#[trigger] positions@[i]).x
                    <= 100_000_000 && -100_000_000 <= positions@[i].y <= 100_000_000,
        ensures
            enter_level_rel(
                old(self).cur_level(),
                old(self).players@,
                positions@,
                final(self).players@,
                final(self).doors@,
                final(self).mud_puddles@,
                final(self).enemies@,
            ),
            final(self).levels == old(self).levels,
            final(self).current_level == old(self).current_level,
            final(self).camera == old(self).camera,
            final(self).animations == old(self).animations,
            final(self).config == old(self).config,
            final(self).wf_base(),
    {
        self.mud_puddles.clear();
        self.enemies.clear();
        self.doors.clear();
        let mut i: usize = 0;
        while i < self.players.len()
            invariant
                0 <= i <= self.players@.len(),
                self.players@.len() == old(self).players@.len(),
                positions@.len() == old(self).players@.len(),
                forall|k: int|
                    0 <= k < positions@.len() ==> -100_000_000 <= (#[trigger] positions@[k]).x
                        <= 100_000_000 && -100_000_000 <= positions@[k].y <= 100_000_000,
                forall|k: int|
                    0 <= k < i ==> #[trigger] self.players@[k] == (Player {
                        pos: positions@[k],
                        touching_door: true,
                        touching_mud: false,
                        ..old(self).players@[k]
                    }),
                forall|k: int|
                    i <= k < self.players@.len() ==> #[trigger] self.players@[k] == old(
                    self).players@[k],
                self.levels == old(self).levels,
                self.current_level == old(self).current_level,
                self.camera == old(self).camera,
                self.animations == old(self).animations,
                self.config == old(self).config,
                self.enemies@.len() == 0,
                self.doors@.len() == 0,
                self.mud_puddles@.len() == 0,
            decreases self.players@.len() - i,
        {
            let mut p = self.players[i];
            p.pos = positions[i];
            p.touching_door = true;
            p.touching_mud = false;
            self.players[i] = p;
            i += 1;
        }
        let nstarts = self.levels[self.current_level].starts.len();
        let mut s: usize = 0;
        while s < nstarts
            invariant
                old(self).wf_base(),
                0 <= s <= nstarts,
                nstarts == self.cur_level().starts@.len(),
                self.levels == old(self).levels,
                self.current_level == old(self).current_level,
                self.camera == old(self).camera,
                self.animations == old(self).animations,
                self.config == old(self).config,
                self.players@.len() == old(self).players@.len(),
                forall|k: int|
                    0 <= k < self.players@.len() ==> #[trigger] self.players@[k] == (Player {
                        pos: positions@[k],
                        touching_door: true,
                        touching_mud: false,
                        ..old(self).players@[k]
                    }),
                self.doors@ == doors_of(self.cur_level().starts@.subrange(0, s as int)),
                self.mud_puddles@ == muds_of(self.cur_level().starts@.subrange(0, s as int)),
                self.enemies@.len() == enemy_starts(
                    self.cur_level().starts@.subrange(0, s as int),
                ).len(),
                forall|k: int|
                    0 <= k < self.enemies@.len() ==> enemy_spawn_ok(
                        #[trigger] self.enemies@[k],
                        enemy_starts(self.cur_level().starts@.subrange(0, s as int))[k],
                    ),
            decreases nstarts - s,
        {
            let ghost pre = self.cur_level().starts@.subrange(0, s as int);
            let start_pos = self.levels[self.current_level].starts[s].1;
            match &self.levels[self.current_level].starts[s].0 {
                EntityType::Player => {},
                EntityType::Door(t, c, r) => {
                    let target = t.clone();
                    let col: u16 = *c;
                    let row: u16 = *r;
                    self.doors.push(
                        Door { target_level: target, target_col: col, target_row: row, pos: start_pos },
                    );
                },
                EntityType::Mud => {
                    self.mud_puddles.push(Mud { pos: start_pos });
                },
                EntityType::Enemy => {
                    let dir = if crate::rng::coin() {
                        Dir::E
                    } else {
                        Dir::W
                    };
                    let timer = crate::rng::roll_range(3000, 5000);
                    self.enemies.push(
                        Enemy {
                            pos: start_pos,
                            vel: Vec2 { x: 0, y: 0 },
                            dir,
                            dead: false,
                            change_dir_timer: timer,
                            anim: AnimationState { animation: AnimationKey::EnemyLeftWalk, t: 0 },
                        },
                    );
                },
            }
            proof {
                let full = self.cur_level().starts@;
                assert(full.subrange(0, s + 1).drop_last() =~= pre);
                assert(full.subrange(0, s + 1).last() == full[s as int]);
            }
            s += 1;
        }
        proof {
            let full = self.cur_level().starts@;
            assert(full.subrange(0, full.len() as int) =~= full);
            lemma_starts_projections(full);
            assert forall|k: int| 0 <= k < self.doors@.len() implies -100_000_000 <= (
            #[trigger] self.doors@[k]).pos.x <= 100_000_000 && -100_000_000 <= final(
            self).doors@[k].pos.y <= 100_000_000 by {
                let si = choose|si: int|
                    0 <= si < full.len() && full[si].0 == EntityType::Door(
                        self.doors@[k].target_level,
                        self.doors@[k].target_col,
                        self.doors@[k].target_row,
                    ) && full[si].1 == self.doors@[k].pos;
                assert(full[si].1 == self.doors@[k].pos);
            }
            assert(Self::doors_resolve(self.levels@, self.doors@)) by {
                assert forall|k: int| 0 <= k < self.doors@.len() implies {
                    let d = #[trigger] self.doors@[k];
                    let j = find_level(self.levels@, d.target_level@);
                    &&& 0 <= j < self.levels@.len()
                    &&& d.target_col < self.levels@[j].width
                    &&& d.target_row < self.levels@[j].height
                } by {
                    let d = self.doors@[k];
                    let si = choose|si: int|
                        0 <= si < full.len() && full[si].0 == EntityType::Door(
                            d.target_level,
                            d.target_col,
                            d.target_row,
                        ) && full[si].1 == d.pos;
                    assert(full[si].0 matches EntityType::Door(t, c, r) ==> t == d.target_level
                        && c == d.target_col && r == d.target_row);
                }
            }
        }
    }
}

/// What the renderer reads after a tick: one transform and sampled sprite
/// per live entity (enemies first, then players), and the camera viewport.
pub struct RenderSnapshot {
    pub sprites: Vec<(Transform, SampledSprite)>,
    pub camera: Camera,
}

/// The player a freshly constructed game places: at the first player spawn
/// point plus its configured offset, facing east with the idle animation,
/// grounded, with the forced walk velocity under forced control and at rest
/// under axis control, and a warm attack-cooldown timer.
pub open spec fn initial_player(base: Vec2, off: Vec2, threshold: i64, cfg: GameConfig) -> Player {
    Player {
        pos: Vec2 { x: (base.x + off.x) as i64, y: (base.y + off.y) as i64 },
        vel: Vec2 {
            x: if cfg.scheme is Forced {
                cfg.walk_vel
            } else {
                0
            },
            y: 0,
        },
        dir: Dir::E,
        touching_door: true,
        touching_mud: false,
        anim: AnimationState { animation: AnimationKey::PlayerRightIdle, t: 0 },
        jumping: false,
        jump_timer: 0,
        grounded: true,
        attack_timer: 200,
        ground_threshold: threshold,
    }
}

impl Game {
    /// Assemble a game from loaded levels, a configuration and the animation
    /// registry, and enter the first level. Fails when the first level places
    /// no player, or when any door's target level name or target cell matches
    /// no loaded level; these are the unrecoverable level-data faults.
    pub fn new(levels: Vec<Level>, config: GameConfig, animations: Vec<AnimationClip>) -> (r:
        Result<Game, GameError>)
        requires
            1 <= levels@.len() <= 1000,
            forall|i: int| 0 <= i < levels@.len() ==> (#[trigger] levels@[i]).wf(),
            config.wf(),
            registry_wf(animations@),
        ensures
            r is Ok <==> first_player_start(levels@[0].starts@) >= 0 && Game::door_targets_ok(
                levels@,
            ),
            r == Result::<Game, GameError>::Err(GameError::NoPlayerStart) <==> first_player_start(
                levels@[0].starts@,
            ) < 0,
            r matches Ok(g) ==> {
                &&& g.wf()
                &&& g.levels == levels
                &&& g.config == config
                &&& g.animations == animations
                &&& g.current_level == 0
                &&& g.camera == (Camera {
                    screen_pos: Vec2 { x: 0i64, y: 0i64 },
                    screen_size: Vec2 { x: config.viewport_w, y: config.viewport_h },
                })
                &&& g.players@.len() == config.player_count
                &&& ({
                    let base = levels@[0].starts@[first_player_start(levels@[0].starts@)].1;
                    forall|i: int|
                        0 <= i < g.players@.len() ==> #[trigger] g.players@[i] == initial_player(
                            base,
                            config.spawn_offsets@[i],
                            config.ground_thresholds@[i],
                            config,
                        )
                })
                &&& g.doors@ == doors_of(levels@[0].starts@)
                &&& g.mud_puddles@ == muds_of(levels@[0].starts@)
                &&& g.enemies@.len() == enemy_starts(levels@[0].starts@).len()
                &&& forall|i: int|
                    0 <= i < g.enemies@.len() ==> enemy_spawn_ok(
                        #[trigger] g.enemies@[i],
                        enemy_starts(levels@[0].starts@)[i],
                    )
            },
    {
        // the first unrecoverable fault: no player placement at game start
        let start_idx = match Self::find_player_start(&levels[0].starts) {
            Some(i) => i,
            None => {
                return Err(GameError::NoPlayerStart);
            },
        };
        proof {
            lemma_first_player_start_found(levels@[0].starts@);
        }
        // the second: a door that resolves to no loaded level or cell
        let mut li: usize = 0;
        while li < levels.len()
            invariant
                1 <= levels@.len() <= 1000,
                first_player_start(levels@[0].starts@) >= 0,
                forall|i: int| 0 <= i < levels@.len() ==> (#[trigger] levels@[i]).wf(),
                0 <= li <= levels@.len(),
                forall|l: int, si: int|
                    0 <= l < li && 0 <= si < levels@[l].starts@.len() ==> ((
                    #[trigger] levels@[l].starts@[si]).0 matches EntityType::Door(t, c, r) ==> {
                        let j = find_level(levels@, t@);
                        &&& 0 <= j < levels@.len()
                        &&& c < levels@[j].width
                        &&& r < levels@[j].height
                    }),
            decreases levels@.len() - li,
        {
            let nstarts = levels[li].starts.len();
            let mut si: usize = 0;
            while si < nstarts
                invariant
                    1 <= levels@.len() <= 1000,
                    first_player_start(levels@[0].starts@) >= 0,
                    forall|i: int| 0 <= i < levels@.len() ==> (#[trigger] levels@[i]).wf(),
                    0 <= li < levels@.len(),
                    nstarts == levels@[li as int].starts@.len(),
                    0 <= si <= nstarts,
                    forall|l: int, sj: int|
                        0 <= l < li && 0 <= sj < levels@[l].starts@.len() ==> ((
                        #[trigger] levels@[l].starts@[sj]).0 matches EntityType::Door(t, c, r)
                            ==> {
                            let j = find_level(levels@, t@);
                            &&& 0 <= j < levels@.len()
                            &&& c < levels@[j].width
                            &&& r < levels@[j].height
                        }),
                    forall|sj: int|
                        0 <= sj < si ==> ((#[trigger] levels@[li as int].starts@[sj]).0 matches
                        EntityType::Door(t, c, r) ==> {
                            let j = find_level(levels@, t@);
                            &&& 0 <= j < levels@.len()
                            &&& c < levels@[j].width
                            &&& r < levels@[j].height
                        }),
                decreases nstarts - si,
            {
                match &levels[li].starts[si].0 {
                    EntityType::Door(t, c, r) => {
                        match Self::find_level_index(&levels, t) {
                            None => {
                                proof {
                                    assert(!Game::door_targets_ok(levels@)) by {
                                        if Game::door_targets_ok(levels@) {
                                            assert((#[trigger] levels@[li as int].starts@[
                                                si as int
                                            ]).0 matches EntityType::Door(tt, cc, rr) ==> {
                                                let j = find_level(levels@, tt@);
                                                &&& 0 <= j < levels@.len()
                                                &&& cc < levels@[j].width
                                                &&& rr < levels@[j].height
                                            });
                                            assert(false);
                                        }
                                    }
                                }
                                return Err(GameError::BrokenDoorTarget);
                            },
                            Some(j) => {
                                proof {
                                    lemma_find_level_found(levels@, t@);
                                }
                                if (*c as usize) >= levels[j].width || (*r as usize)
                                    >= levels[j].height {
                                    proof {
                                        assert(!Game::door_targets_ok(levels@)) by {
                                            if Game::door_targets_ok(levels@) {
                                                assert((#[trigger] levels@[li as int].starts@[
                                                    si as int
                                                ]).0 matches EntityType::Door(tt, cc, rr) ==> {
                                                    let jj = find_level(levels@, tt@);
                                                    &&& 0 <= jj < levels@.len()
                                                    &&& cc < levels@[jj].width
                                                    &&& rr < levels@[jj].height
                                                });
                                                assert(false);
                                            }
                                        }
                                    }
                                    return Err(GameError::BrokenDoorTarget);
                                }
                            },
                        }
                    },
                    _ => {},
                }
                si += 1;
            }
            li += 1;
        }
        let base = levels[0].starts[start_idx].1;
        let mut players: Vec<Player> = Vec::new();
        let mut positions: Vec<Vec2> = Vec::new();
        let init_vx: i64 = match config.scheme {
            ControlScheme::Forced => config.walk_vel,
            ControlScheme::Axis => 0,
        };
        let mut i: usize = 0;
        while i < config.player_count
            invariant
                config.wf(),
                forall|k: int| 0 <= k < levels@.len() ==> (#[trigger] levels@[k]).wf(),
                levels@.len() >= 1,
                0 <= start_idx < levels@[0].starts@.len(),
                base == levels@[0].starts@[start_idx as int].1,
                init_vx == (if config.scheme is Forced {
                    config.walk_vel
                } else {
                    0
                }),
                0 <= i <= config.player_count,
                players@.len() == i,
                positions@.len() == i,
                forall|k: int|
                    0 <= k < i ==> #[trigger] players@[k] == initial_player(
                        base,
                        config.spawn_offsets@[k],
                        config.ground_thresholds@[k],
                        config,
                    ),
                forall|k: int|
                    0 <= k < i ==> #[trigger] positions@[k] == (Vec2 {
                        x: (base.x + config.spawn_offsets@[k].x) as i64,
                        y: (base.y + config.spawn_offsets@[k].y) as i64,
                    }),
            decreases config.player_count - i,
        {
            let off = config.spawn_offsets[i];
            let pos = Vec2 { x: base.x + off.x, y: base.y + off.y };
            positions.push(pos);
            players.push(
                Player {
                    pos,
                    vel: Vec2 { x: init_vx, y: 0 },
                    dir: Dir::E,
                    touching_door: true,
                    touching_mud: false,
                    anim: AnimationState { animation: AnimationKey::PlayerRightIdle, t: 0 },
                    jumping: false,
                    jump_timer: 0,
                    grounded: true,
                    attack_timer: 200,
                    ground_threshold: config.ground_thresholds[i],
                },
            );
            i += 1;
        }
        let camera = Camera {
            screen_pos: Vec2 { x: 0, y: 0 },
            screen_size: Vec2 { x: config.viewport_w, y: config.viewport_h },
        };
        let mut game = Game {
            current_level: 0,
            levels,
            players,
            enemies: Vec::new(),
            mud_puddles: Vec::new(),
            doors: Vec::new(),
            camera,
            animations,
            config,
        };
        game.enter_level(&positions);
        Ok(game)
    }

    /// Sprite slots one frame needs: the level's tiles plus one per enemy and
    /// one per player.
    pub fn sprite_count(&self) -> (r: usize)
        requires
            self.wf(),
        ensures
            r == self.cur_level().width * self.cur_level().height + self.enemies@.len()
                + self.players@.len(),
    {
        proof {
            assert(self.cur_level().width * self.cur_level().height <= 4096 * 4096)
                by (nonlinear_arith)
                requires
                    0 <= self.cur_level().width <= 4096,
                    0 <= self.cur_level().height <= 4096,
            ;
        }
        self.levels[self.current_level].sprite_count() + self.enemies.len() + self.players.len()
    }

    /// The post-tick snapshot the renderer reads: a transform and a sampled
    /// sprite per enemy (dead ones yield the zero transform) and per player,
    /// and the camera viewport. Enemies are drawn with the walking frame at
    /// time 0; players sample their own animation state.
    pub fn render(&self) -> (r: RenderSnapshot)
        requires
            self.wf(),
        ensures
            r.camera == self.camera,
            r.sprites@.len() == self.enemies@.len() + self.players@.len(),
            forall|i: int|
                0 <= i < self.enemies@.len() ==> #[trigger] r.sprites@[i] == (
                crate::entity::enemy_trf_spec(self.enemies@[i]),
                self.animations@[
                    crate::anim::key_index_spec(AnimationKey::EnemyLeftWalk)
                ].sample_spec(0).unwrap(),
            ),
            forall|j: int|
                0 <= j < self.players@.len() ==> #[trigger] r.sprites@[self.enemies@.len() + j]
                    == (
                crate::entity::player_trf_spec(self.players@[j]),
                self.players@[j].anim.sample_state_spec(self.animations@),
            ),
    {
        let mut sprites: Vec<(Transform, SampledSprite)> = Vec::new();
        let walk_clip = &self.animations[key_index(AnimationKey::EnemyLeftWalk)];
        proof {
            crate::anim::lemma_total_duration_bounds(walk_clip.frames@);
        }
        let enemy_sprite = walk_clip.sample(0).unwrap();
        let mut i: usize = 0;
        while i < self.enemies.len()
            invariant
                self.wf(),
                0 <= i <= self.enemies@.len(),
                sprites@.len() == i,
                enemy_sprite == self.animations@[
                    crate::anim::key_index_spec(AnimationKey::EnemyLeftWalk)
                ].sample_spec(0).unwrap(),
                forall|k: int|
                    0 <= k < i ==> #[trigger] sprites@[k] == (
                    crate::entity::enemy_trf_spec(self.enemies@[k]),
                    self.animations@[
                        crate::anim::key_index_spec(AnimationKey::EnemyLeftWalk)
                    ].sample_spec(0).unwrap(),
                ),
            decreases self.enemies@.len() - i,
        {
            sprites.push((self.enemies[i].trf(), enemy_sprite));
            i += 1;
        }
        let mut j: usize = 0;
        while j < self.players.len()
            invariant
                self.wf(),
                0 <= j <= self.players@.len(),
                sprites@.len() == self.enemies@.len() + j,
                forall|k: int|
                    0 <= k < self.enemies@.len() ==> #[trigger] sprites@[k] == (
                    crate::entity::enemy_trf_spec(self.enemies@[k]),
                    self.animations@[
                        crate::anim::key_index_spec(AnimationKey::EnemyLeftWalk)
                    ].sample_spec(0).unwrap(),
                ),
                forall|k: int|
                    0 <= k < j ==> #[trigger] sprites@[self.enemies@.len() + k] == (
                    crate::entity::player_trf_spec(self.players@[k]),
                    self.players@[k].anim.sample_state_spec(self.animations@),
                ),
            decreases self.players@.len() - j,
        {
            let p = &self.players[j];
            sprites.push((p.trf(), p.anim.sample(&self.animations)));
            j += 1;
        }
        RenderSnapshot { sprites, camera: self.camera }
    }
}

/// The enemies' 16 by 16 query boxes, in order (zero-size for the dead).
pub open spec fn equery_rects(es: Seq<Enemy>) -> Seq<Rect> {
    es.map(|i: int, e: Enemy| enemy_query_rect_spec(e))
}

/// The doors' trigger colliders, in order.
pub open spec fn door_rects_spec(ds: Seq<Door>) -> Seq<Rect> {
    ds.map(|i: int, d: Door| trigger_rect_spec(d.pos))
}

/// The mud puddles' trigger colliders, in order.
pub open spec fn mud_rects_spec(ms: Seq<Mud>) -> Seq<Rect> {
    ms.map(|i: int, m: Mud| trigger_rect_spec(m.pos))
}

/// The fields no tick phase but a level transition touches.
pub open spec fn same_core(g: Game, g2: Game) -> bool {
    &&& g2.levels@ == g.levels@
    &&& g2.animations@ == g.animations@
    &&& g2.config == g.config
}

/// Phase one of a tick: each player advances its own motion
/// (`player_advance_rel`) against the current level's pixel bounds; nothing
/// else changes.
pub open spec fn players_advance_rel(g: Game, g2: Game, input: InputSnapshot, dt: int) -> bool {
    &&& same_core(g, g2)
    &&& g2.current_level == g.current_level
    &&& g2.enemies@ == g.enemies@
    &&& g2.mud_puddles@ == g.mud_puddles@
    &&& g2.doors@ == g.doors@
    &&& g2.camera == g.camera
    &&& g2.players@.len() == g.players@.len()
    &&& forall|i: int|
        0 <= i < g.players@.len() ==> player_advance_rel(
            g.players@[i],
            #[trigger] g2.players@[i],
            input.players@[i],
            dt,
            g.cur_level().pixel_w(),
            g.cur_level().pixel_h(),
            g.config,
        )
}

/// Phase two: each enemy wanders (`enemy_wander_outcome`); nothing else
/// changes.
pub open spec fn enemies_wander_rel(g: Game, g2: Game, dt: int) -> bool {
    &&& same_core(g, g2)
    &&& g2.current_level == g.current_level
    &&& g2.players@ == g.players@
    &&& g2.mud_puddles@ == g.mud_puddles@
    &&& g2.doors@ == g.doors@
    &&& g2.camera == g.camera
    &&& g2.enemies@.len() == g.enemies@.len()
    &&& forall|i: int|
        0 <= i < g.enemies@.len() ==> crate::physics::enemy_wander_outcome(
            g.enemies@[i],
            #[trigger] g2.enemies@[i],
            dt,
            g.cur_level().pixel_w(),
            g.cur_level().pixel_h(),
            g.config.max_speed as int,
        )
}

/// Phase three: each player is resolved against the solid tiles its collider
/// overlaps, sequentially (`resolve_player_fold`); nothing else changes.
pub open spec fn players_resolve_rel(g: Game, g2: Game) -> bool {
    &&& same_core(g, g2)
    &&& g2.current_level == g.current_level
    &&& g2.enemies@ == g.enemies@
    &&& g2.mud_puddles@ == g.mud_puddles@
    &&& g2.doors@ == g.doors@
    &&& g2.camera == g.camera
    &&& g2.players@.len() == g.players@.len()
    &&& forall|i: int|
        0 <= i < g.players@.len() ==> {
            let p = g.players@[i];
            let cs = crate::collision::tile_contacts_spec(g.cur_level(), player_rect_spec(p), 0);
            let st = resolve_player_fold(
                p.dir,
                ResolveState {
                    px: p.pos.x as int,
                    py: p.pos.y as int,
                    vy: p.vel.y as int,
                    grounded: false,
                },
                cs,
            );
            #[trigger] g2.players@[i] == (Player {
                pos: Vec2 { x: st.px as i64, y: st.py as i64 },
                vel: Vec2 { x: p.vel.x, y: st.vy as i64 },
                grounded: st.grounded,
                ..p
            })
        }
}

/// Phase four: the enemies are resolved against the tiles their query boxes
/// overlap, one gathered contact at a time (`enemy_positions_fold`); nothing
/// else changes.
pub open spec fn enemies_resolve_rel(g: Game, g2: Game) -> bool {
    &&& same_core(g, g2)
    &&& g2.current_level == g.current_level
    &&& g2.players@ == g.players@
    &&& g2.mud_puddles@ == g.mud_puddles@
    &&& g2.doors@ == g.doors@
    &&& g2.camera == g.camera
    &&& g2.enemies@.len() == g.enemies@.len()
    &&& ({
        let cs = all_tile_contacts(g.cur_level(), equery_rects(g.enemies@));
        let ps = crate::collision::enemy_positions_fold(
            crate::collision::enemy_positions(g.enemies@),
            cs,
        );
        forall|i: int|
            0 <= i < g.enemies@.len() ==> #[trigger] g2.enemies@[i] == (Enemy {
                pos: Vec2 { x: ps[i].0 as i64, y: ps[i].1 as i64 },
                ..g.enemies@[i]
            })
    })
}

/// Whether this player's attack fires this tick: attack key down and the
/// cooldown timer past the threshold.
pub open spec fn attack_triggered(p: Player, inp: PlayerInput, cooldown: i64) -> bool {
    inp.attack && p.attack_timer > cooldown
}

/// The attack animation for a facing.
pub open spec fn attack_key(dir: Dir) -> AnimationKey {
    if dir is E {
        AnimationKey::PlayerRightAttack
    } else {
        AnimationKey::PlayerLeftAttack
    }
}

/// A player after the attack phase: the attack animation plays on a trigger,
/// the cooldown timer resets to 0 on a trigger, and the timer then counts up
/// by the tick, saturating at its cap.
pub open spec fn attack_player_after(p: Player, inp: PlayerInput, dt: int, cfg: GameConfig) -> Player {
    let trig = attack_triggered(p, inp, cfg.attack_cooldown);
    let anim1 = if trig {
        play_spec(p.anim, attack_key(p.dir), false)
    } else {
        p.anim
    };
    let t1: int = if trig {
        0
    } else {
        p.attack_timer as int
    };
    let t2: int = if t1 + dt <= ATTACK_TIMER_CAP {
        t1 + dt
    } else {
        ATTACK_TIMER_CAP as int
    };
    Player { anim: anim1, attack_timer: t2 as i64, ..p }
}

/// The contacts the triggered attacks gather: for each player whose attack
/// fires, its hitbox against every enemy query box, in player order.
pub open spec fn attack_contacts_spec(
    ps: Seq<Player>,
    inputs: Seq<PlayerInput>,
    es: Seq<Enemy>,
    cfg: GameConfig,
) -> Seq<Contact>
    decreases ps.len(),
{
    if ps.len() == 0 {
        Seq::empty()
    } else {
        let rest = attack_contacts_spec(ps.drop_last(), inputs.take(ps.len() - 1), es, cfg);
        if attack_triggered(ps.last(), inputs[ps.len() - 1], cfg.attack_cooldown) {
            rest + pair_contacts(
                seq![attack_rect_spec(ps.last(), cfg.attack_cooldown)],
                equery_rects(es),
            )
        } else {
            rest
        }
    }
}

/// Whether any gathered contact points at enemy slot `j`.
pub open spec fn targets_index(contacts: Seq<Contact>, j: int) -> bool {
    exists|k: int| 0 <= k < contacts.len() && (#[trigger] contacts[k]).b_index == j
}

/// The enemies from slot `i` on that no gathered contact points at, in
/// order: what is left of the collection after the one-pass removal.
pub open spec fn enemies_kept_from(es: Seq<Enemy>, contacts: Seq<Contact>, i: int) -> Seq<Enemy>
    decreases es.len() - i,
{
    if i < 0 || i >= es.len() {
        Seq::empty()
    } else {
        (if targets_index(contacts, i) {
            Seq::empty()
        } else {
            seq![es[i]]
        }) + enemies_kept_from(es, contacts, i + 1)
    }
}

/// Phase five: with the attack capability on, triggered attacks play their
/// animation, reset their cooldown, and every enemy overlapped by a
/// triggered hitbox leaves the collection in a single pass at tick end; all
/// cooldown timers count up by the tick. With the capability off the phase
/// is skipped (but the state is pinned to be unchanged).
pub open spec fn attack_rel(g: Game, g2: Game, input: InputSnapshot, dt: int) -> bool {
    &&& same_core(g, g2)
    &&& g2.current_level == g.current_level
    &&& g2.mud_puddles@ == g.mud_puddles@
    &&& g2.doors@ == g.doors@
    &&& g2.camera == g.camera
    &&& (if !g.config.has_attack {
        g2.players@ == g.players@ && g2.enemies@ == g.enemies@
    } else {
        &&& g2.players@.len() == g.players@.len()
        &&& forall|i: int|
            0 <= i < g.players@.len() ==> #[trigger] g2.players@[i] == attack_player_after(
                g.players@[i],
                input.players@[i],
                dt,
                g.config,
            )
        &&& g2.enemies@ == enemies_kept_from(
            g.enemies@,
            attack_contacts_spec(g.players@, input.players@, g.enemies@, g.config),
            0,
        )
    })
}

/// Phase six: the door triggers, edge-triggered on the lead player. An empty
/// contact set clears the debounce; a fresh entry fires the first contact's
/// door once - a same-level teleport, or a level switch that re-enters the
/// target level; staying inside fires nothing.
pub open spec fn door_rel(g: Game, g2: Game) -> bool {
    &&& same_core(g, g2)
    &&& g2.camera == g.camera
    &&& g2.players@.len() == g.players@.len()
    &&& (if !g.config.has_doors || g.players@.len() == 0 {
        &&& g2.current_level == g.current_level
        &&& g2.players@ == g.players@
        &&& g2.enemies@ == g.enemies@
        &&& g2.mud_puddles@ == g.mud_puddles@
        &&& g2.doors@ == g.doors@
    } else {
        let p0 = g.players@[0];
        let cs = pair_contacts(seq![player_rect_spec(p0)], door_rects_spec(g.doors@));
        if cs.len() == 0 {
            &&& g2.current_level == g.current_level
            &&& g2.players@ == g.players@.update(
                0,
                (Player { touching_door: false, ..p0 }),
            )
            &&& g2.enemies@ == g.enemies@
            &&& g2.mud_puddles@ == g.mud_puddles@
            &&& g2.doors@ == g.doors@
        } else if p0.touching_door {
            &&& g2.current_level == g.current_level
            &&& g2.players@ == g.players@
            &&& g2.enemies@ == g.enemies@
            &&& g2.mud_puddles@ == g.mud_puddles@
            &&& g2.doors@ == g.doors@
        } else {
            let d = g.doors@[cs[0].b_index as int];
            let j = find_level(g.levels@, d.target_level@);
            let dest = Vec2 {
                x: (d.target_col * TILE_SUB + TILE_SUB / 2) as i64,
                y: (d.target_row * TILE_SUB - 12_000 + TILE_SUB / 2) as i64,
            };
            if j == g.current_level {
                &&& g2.current_level == g.current_level
                &&& g2.players@ == g.players@.update(
                    0,
                    (Player { pos: dest, touching_door: true, ..p0 }),
                )
                &&& g2.enemies@ == g.enemies@
                &&& g2.mud_puddles@ == g.mud_puddles@
                &&& g2.doors@ == g.doors@
            } else {
                &&& g2.current_level == j
                &&& enter_level_rel(
                    g.levels@[j],
                    g.players@.update(0, (Player { touching_door: true, ..p0 })),
                    Seq::new(g.players@.len(), |i: int| dest),
                    g2.players@,
                    g2.doors@,
                    g2.mud_puddles@,
                    g2.enemies@,
                )
            }
        }
    })
}

/// A player after the mud phase: out of contact, the mud debounce clears
/// (and forced-walk control restores the walk velocity); a fresh entry sets
/// the debounce and applies the speed multiplier to the forced walk; staying
/// inside changes nothing further.
pub open spec fn mud_player_after(p: Player, muds: Seq<Mud>, cfg: GameConfig) -> Player {
    let cs = pair_contacts(seq![player_rect_spec(p)], mud_rects_spec(muds));
    let forced = cfg.scheme is Forced;
    if cs.len() == 0 {
        Player {
            touching_mud: false,
            vel: Vec2 {
                x: if forced {
                    cfg.walk_vel
                } else {
                    p.vel.x
                },
                y: p.vel.y,
            },
            ..p
        }
    } else if !p.touching_mud {
        Player {
            touching_mud: true,
            vel: Vec2 {
                x: if forced {
                    ((cfg.walk_vel * cfg.mud_coeff_milli) / 1000) as i64
                } else {
                    p.vel.x
                },
                y: p.vel.y,
            },
            ..p
        }
    } else {
        p
    }
}

/// Phase seven: the mud triggers, edge-triggered per player
/// (`mud_player_after`); skipped without the mud capability.
pub open spec fn mud_rel(g: Game, g2: Game) -> bool {
    &&& same_core(g, g2)
    &&& g2.current_level == g.current_level
    &&& g2.enemies@ == g.enemies@
    &&& g2.mud_puddles@ == g.mud_puddles@
    &&& g2.doors@ == g.doors@
    &&& g2.camera == g.camera
    &&& g2.players@.len() == g.players@.len()
    &&& (if !g.config.has_mud {
        g2.players@ == g.players@
    } else {
        forall|i: int|
            0 <= i < g.players@.len() ==> #[trigger] g2.players@[i] == mud_player_after(
                g.players@[i],
                g.mud_puddles@,
                g.config,
            )
    })
}

/// Phase eight: the camera steps after the lead player and is clamped into
/// the (possibly fresh) current level's pixel bounds; nothing else changes.
pub open spec fn camera_rel(g: Game, g2: Game) -> bool {
    &&& same_core(g, g2)
    &&& g2.current_level == g.current_level
    &&& g2.players@ == g.players@
    &&& g2.enemies@ == g.enemies@
    &&& g2.mud_puddles@ == g.mud_puddles@
    &&& g2.doors@ == g.doors@
    &&& g2.camera.screen_size == g.camera.screen_size
    &&& g2.camera.screen_pos.x == follow_axis_spec(
        g.camera.screen_pos.x as int,
        g.players@[0].pos.x as int,
        g.camera.screen_size.x as int,
        g.config.screen_margin as int,
        g.cur_level().pixel_w(),
    )
    &&& g2.camera.screen_pos.y == follow_axis_spec(
        g.camera.screen_pos.y as int,
        g.players@[0].pos.y as int,
        g.camera.screen_size.y as int,
        g.config.screen_margin as int,
        g.cur_level().pixel_h(),
    )
}

/// The intermediate states one tick passes through, as the tick relation's
/// witness.
pub ghost struct TickTrace {
    pub after_advance: Game,
    pub after_wander: Game,
    pub after_player_resolve: Game,
    pub after_enemy_resolve: Game,
    pub after_attack: Game,
    pub after_doors: Game,
    pub after_mud: Game,
}

/// One tick through the given intermediate states: player motion, enemy
/// wandering, tile resolution for players then enemies, attack resolution,
/// door triggers, mud triggers, camera follow.
pub open spec fn tick_rel_trace(
    g: Game,
    g2: Game,
    input: InputSnapshot,
    dt: int,
    w: TickTrace,
) -> bool {
    &&& players_advance_rel(g, w.after_advance, input, dt)
    &&& enemies_wander_rel(w.after_advance, w.after_wander, dt)
    &&& players_resolve_rel(w.after_wander, w.after_player_resolve)
    &&& enemies_resolve_rel(w.after_player_resolve, w.after_enemy_resolve)
    &&& attack_rel(w.after_enemy_resolve, w.after_attack, input, dt)
    &&& door_rel(w.after_attack, w.after_doors)
    &&& mud_rel(w.after_doors, w.after_mud)
    &&& camera_rel(w.after_mud, g2)
}

/// What one call of `simulate` does: some sequence of intermediate states
/// chains the eight phases from the old state to the new one.
pub open spec fn tick_rel(g: Game, g2: Game, input: InputSnapshot, dt: int) -> bool {
    exists|w: TickTrace| tick_rel_trace(g, g2, input, dt, w)
}

impl Game {
    /// Advance each player's own motion by one tick (phase one).
    fn advance_players(&mut self, input: &InputSnapshot, dt: i64)
        requires
            old(self).wf_base(),
            input.wf(),
            input.players@.len() == old(self).players@.len(),
            1 <= dt <= DT_MAX,
        ensures
            players_advance_rel(*old(self), *final(self), *input, dt as int),
            final(self).wf_base(),
            forall|i: int|
                0 <= i < final(self).players@.len() ==> 0 <= (
                #[trigger] final(self).players@[i]).pos.x <= 70_000_000 && 0 <= final(
                self).players@[i].pos.y <= 70_000_000,
    {
        let lw_sub: i64 = (self.levels[self.current_level].width as i64) * TILE_SUB;
        let lh_sub: i64 = (self.levels[self.current_level].height as i64) * TILE_SUB;
        let mut i: usize = 0;
        while i < self.players.len()
            invariant
                old(self).wf_base(),
                input.wf(),
                input.players@.len() == old(self).players@.len(),
                1 <= dt <= DT_MAX,
                lw_sub == old(self).cur_level().pixel_w(),
                lh_sub == old(self).cur_level().pixel_h(),
                32_000 <= lw_sub <= 70_000_000,
                32_000 <= lh_sub <= 70_000_000,
                0 <= i <= self.players@.len(),
                self.players@.len() == old(self).players@.len(),
                self.current_level == old(self).current_level,
                self.levels == old(self).levels,
                self.enemies == old(self).enemies,
                self.mud_puddles == old(self).mud_puddles,
                self.doors == old(self).doors,
                self.camera == old(self).camera,
                self.animations == old(self).animations,
                self.config == old(self).config,
                forall|k: int|
                    i <= k < self.players@.len() ==> #[trigger] self.players@[k] == old(
                    self).players@[k],
                forall|k: int|
                    0 <= k < i ==> player_advance_rel(
                        old(self).players@[k],
                        #[trigger] self.players@[k],
                        input.players@[k],
                        dt as int,
                        lw_sub as int,
                        lh_sub as int,
                        old(self).config,
                    ),
                forall|k: int|
                    0 <= k < i ==> (#[trigger] self.players@[k]).wf() && -old(self).config.max_speed
                        <= self.players@[k].vel.x <= old(self).config.max_speed && 0
                        <= self.players@[k].pos.x <= lw_sub - 8_000 && 0 <= self.players@[k].pos.y
                        <= lh_sub - 24_000,
            decreases self.players@.len() - i,
        {
            let mut p = self.players[i];
            player_advance(&mut p, input.players[i], dt, lw_sub, lh_sub, &self.config);
            self.players[i] = p;
            i += 1;
        }
    }

    /// Advance each enemy's wandering by one tick (phase two), drawing one
    /// fresh countdown per enemy.
    fn wander_enemies(&mut self, dt: i64)
        requires
            old(self).wf_base(),
            1 <= dt <= DT_MAX,
        ensures
            enemies_wander_rel(*old(self), *final(self), dt as int),
            final(self).wf_base(),
            forall|i: int|
                0 <= i < final(self).enemies@.len() ==> (!(#[trigger] final(
                self).enemies@[i]).dead ==> 0 <= final(self).enemies@[i].pos.x <= 70_000_000 && 0
                    <= final(self).enemies@[i].pos.y <= 70_000_000),
    {
        let lw_sub: i64 = (self.levels[self.current_level].width as i64) * TILE_SUB;
        let lh_sub: i64 = (self.levels[self.current_level].height as i64) * TILE_SUB;
        let ms = self.config.max_speed;
        let mut i: usize = 0;
        while i < self.enemies.len()
            invariant
                old(self).wf_base(),
                1 <= dt <= DT_MAX,
                lw_sub == old(self).cur_level().pixel_w(),
                lh_sub == old(self).cur_level().pixel_h(),
                32_000 <= lw_sub <= 70_000_000,
                32_000 <= lh_sub <= 70_000_000,
                ms == old(self).config.max_speed,
                0 <= i <= self.enemies@.len(),
                self.enemies@.len() == old(self).enemies@.len(),
                self.current_level == old(self).current_level,
                self.levels == old(self).levels,
                self.players == old(self).players,
                self.mud_puddles == old(self).mud_puddles,
                self.doors == old(self).doors,
                self.camera == old(self).camera,
                self.animations == old(self).animations,
                self.config == old(self).config,
                forall|k: int|
                    i <= k < self.enemies@.len() ==> #[trigger] self.enemies@[k] == old(
                    self).enemies@[k],
                forall|k: int|
                    0 <= k < i ==> crate::physics::enemy_wander_outcome(
                        old(self).enemies@[k],
                        #[trigger] self.enemies@[k],
                        dt as int,
                        lw_sub as int,
                        lh_sub as int,
                        ms as int,
                    ),
                forall|k: int|
                    0 <= k < i ==> (#[trigger] self.enemies@[k]).wf() && -ms
                        <= self.enemies@[k].vel.x <= ms && (!self.enemies@[k].dead ==> 0
                        <= self.enemies@[k].pos.x <= lw_sub - 12_000 && 0
                        <= self.enemies@[k].pos.y <= lh_sub - 4_000) && (self.enemies@[k].dead
                        ==> self.enemies@[k] == old(self).enemies@[k]),
            decreases self.enemies@.len() - i,
        {
            let roll = crate::rng::roll_range(3000, 5000);
            let mut e = self.enemies[i];
            enemy_wander_tick(&mut e, dt, lw_sub, lh_sub, ms, roll);
            proof {
                assert(-ms <= e.vel.x <= ms);
                crate::physics::lemma_wander_outcome(
                    old(self).enemies@[i as int],
                    e,
                    dt as int,
                    lw_sub as int,
                    lh_sub as int,
                    ms as int,
                    roll as int,
                );
            }
            self.enemies[i] = e;
            i += 1;
        }
    }

    /// Resolve each player against the solid tiles its collider overlaps
    /// (phase three).
    fn resolve_player_collisions(&mut self)
        requires
            old(self).wf_base(),
            forall|i: int|
                0 <= i < old(self).players@.len() ==> -100_000_000 <= (
                #[trigger] old(self).players@[i]).pos.x <= 100_000_000 && -100_000_000 <= old(
                self).players@[i].pos.y <= 100_000_000,
        ensures
            players_resolve_rel(*old(self), *final(self)),
            final(self).wf_base(),
            forall|i: int|
                0 <= i < final(self).players@.len() ==> -101_000_000 <= (
                #[trigger] final(self).players@[i]).pos.x <= 101_000_000 && -101_000_000 <= final(
                self).players@[i].pos.y <= 101_000_000,
    {
        let mut i: usize = 0;
        while i < self.players.len()
            invariant
                old(self).wf_base(),
                forall|k: int|
                    0 <= k < old(self).players@.len() ==> -100_000_000 <= (
                    #[trigger] old(self).players@[k]).pos.x <= 100_000_000 && -100_000_000 <= old(
                    self).players@[k].pos.y <= 100_000_000,
                0 <= i <= self.players@.len(),
                self.players@.len() == old(self).players@.len(),
                self.current_level == old(self).current_level,
                self.levels == old(self).levels,
                self.enemies == old(self).enemies,
                self.mud_puddles == old(self).mud_puddles,
                self.doors == old(self).doors,
                self.camera == old(self).camera,
                self.animations == old(self).animations,
                self.config == old(self).config,
                forall|k: int|
                    i <= k < self.players@.len() ==> #[trigger] self.players@[k] == old(
                    self).players@[k],
                forall|k: int|
                    0 <= k < i ==> {
                        let p = old(self).players@[k];
                        let cs = crate::collision::tile_contacts_spec(
                            old(self).cur_level(),
                            player_rect_spec(p),
                            0,
                        );
                        let st = resolve_player_fold(
                            p.dir,
                            ResolveState {
                                px: p.pos.x as int,
                                py: p.pos.y as int,
                                vy: p.vel.y as int,
                                grounded: false,
                            },
                            cs,
                        );
                        #[trigger] self.players@[k] == (Player {
                            pos: Vec2 { x: st.px as i64, y: st.py as i64 },
                            vel: Vec2 { x: p.vel.x, y: st.vy as i64 },
                            grounded: st.grounded,
                            ..p
                        })
                    },
                forall|k: int|
                    0 <= k < i ==> (#[trigger] self.players@[k]).wf() && -old(self).config.max_speed
                        <= self.players@[k].vel.x <= old(self).config.max_speed && -101_000_000
                        <= self.players@[k].pos.x <= 101_000_000 && -101_000_000
                        <= self.players@[k].pos.y <= 101_000_000,
            decreases self.players@.len() - i,
        {
            let mut p = self.players[i];
            let mut rects: Vec<Rect> = Vec::new();
            rects.push(p.rect());
            let mut contacts: Vec<Contact> = Vec::new();
            gather_contacts_tiles(&rects, &self.levels[self.current_level], &mut contacts);
            proof {
                let level = old(self).cur_level();
                let q = player_rect_spec(old(self).players@[i as int]);
                assert(rects@.drop_last() =~= Seq::<Rect>::empty());
                assert(rects@.last() == q);
                assert(all_tile_contacts(level, rects@.drop_last()) =~= Seq::<Contact>::empty());
                assert(contacts@ =~= crate::collision::tile_contacts_spec(level, q, 0));
                lemma_all_tile_contacts_len(level, rects@);
                crate::level::lemma_small_query_range(level, q);
                crate::collision::lemma_contacts_from_tiles_len(
                    level.tiles_within_spec(q),
                    q,
                    0,
                );
                assert(contacts@.len() <= 9);
                assert forall|k: int| 0 <= k < contacts@.len() implies (
                #[trigger] contacts@[k]).b_rect.wf() && contacts@[k].b_rect.w <= 16_000
                    && contacts@[k].b_rect.h <= 16_000 by {
                    lemma_all_tile_contacts_sound(level, rects@, k);
                }
            }
            resolve_player_tiles(&mut p, &contacts);
            self.players[i] = p;
            i += 1;
        }
    }

    /// Resolve the enemies against the tiles their query boxes overlap
    /// (phase four).
    fn resolve_enemy_collisions(&mut self)
        requires
            old(self).wf_base(),
            forall|i: int|
                0 <= i < old(self).enemies@.len() ==> (!(#[trigger] old(self).enemies@[i]).dead
                    ==> 0 <= old(self).enemies@[i].pos.x <= 70_000_000 && 0 <= old(
                self).enemies@[i].pos.y <= 70_000_000),
        ensures
            enemies_resolve_rel(*old(self), *final(self)),
            final(self).wf_base(),
    {
        let mut rects: Vec<Rect> = Vec::new();
        let mut i: usize = 0;
        while i < self.enemies.len()
            invariant
                old(self).wf_base(),
                *self == *old(self),
                0 <= i <= self.enemies@.len(),
                rects@.len() == i,
                forall|k: int|
                    0 <= k < i ==> #[trigger] rects@[k] == enemy_query_rect_spec(
                        self.enemies@[k],
                    ),
            decreases self.enemies@.len() - i,
        {
            rects.push(self.enemies[i].query_rect());
            i += 1;
        }
        proof {
            assert(rects@ =~= equery_rects(self.enemies@));
            assert forall|k: int| 0 <= k < rects@.len() implies (#[trigger] rects@[k]).wf()
                && rects@[k].w <= 24_000 && rects@[k].h <= 24_000 by {
                assert(old(self).enemies@[k].wf());
            }
        }
        let mut contacts: Vec<Contact> = Vec::new();
        gather_contacts_tiles(&rects, &self.levels[self.current_level], &mut contacts);
        proof {
            let level = old(self).cur_level();
            lemma_all_tile_contacts_len(level, rects@);
            assert(contacts@.len() <= 9 * old(self).enemies@.len());
            assert forall|k: int| 0 <= k < contacts@.len() implies (
            #[trigger] contacts@[k]).a_rect.wf() && contacts@[k].b_rect.wf()
                && contacts@[k].b_rect.w <= 16_000 && contacts@[k].b_rect.h <= 16_000
                && contacts@[k].a_index < old(self).enemies@.len() by {
                lemma_all_tile_contacts_sound(level, rects@, k);
            }
        }
        resolve_enemy_tiles(&mut self.enemies, &contacts);
        proof {
            // dead enemies have a zero-size query box, so no contact points
            // at them and the fold leaves them exactly in place
            let level = old(self).cur_level();
            let cs = all_tile_contacts(level, rects@);
            assert(contacts@ == cs);
            assert forall|k: int|
                0 <= k < self.enemies@.len() && old(self).enemies@[k].dead implies (
            #[trigger] self.enemies@[k]) == old(self).enemies@[k] by {
                assert forall|c: int| 0 <= c < cs.len() implies (#[trigger] cs[c]).a_index != k by {
                    lemma_all_tile_contacts_sound(level, rects@, c);
                    if cs[c].a_index == k {
                        assert(cs[c].a_rect == equery_rects(old(self).enemies@)[k]);
                        assert(cs[c].a_rect.w == 0);
                        assert(crate::geom::overlap_x(cs[c].a_rect, cs[c].b_rect) <= 0);
                    }
                }
                crate::collision::lemma_enemy_fold_untouched(
                    crate::collision::enemy_positions(old(self).enemies@),
                    cs,
                    k,
                );
                assert(crate::collision::enemy_positions(old(self).enemies@)[k] == (old(
                    self,
                ).enemies@[k].pos.x as int, old(self).enemies@[k].pos.y as int));
            }
        }
    }
}

/// What survives the one-pass removal is never more than what was there, and
/// each survivor is one of the old enemies, unchanged.
pub proof fn lemma_kept_sound(es: Seq<Enemy>, contacts: Seq<Contact>, i: int)
    requires
        0 <= i,
    ensures
        enemies_kept_from(es, contacts, i).len() <= es.len() - i || es.len() <= i,
        forall|j: int|
            0 <= j < enemies_kept_from(es, contacts, i).len() ==> exists|k: int|
                i <= k < es.len() && #[trigger] enemies_kept_from(es, contacts, i)[j] == es[k],
    decreases es.len() - i,
{
    if i < es.len() {
        lemma_kept_sound(es, contacts, i + 1);
        assert forall|j: int| 0 <= j < enemies_kept_from(es, contacts, i).len() implies exists|
            k: int,
        |
            i <= k < es.len() && #[trigger] enemies_kept_from(es, contacts, i)[j] == es[k] by {
            let head: Seq<Enemy> = if targets_index(contacts, i) {
                Seq::empty()
            } else {
                seq![es[i]]
            };
            if j < head.len() {
                assert(enemies_kept_from(es, contacts, i)[j] == es[i]);
            } else {
                let jj = j - head.len();
                assert(enemies_kept_from(es, contacts, i)[j] == enemies_kept_from(
                    es,
                    contacts,
                    i + 1,
                )[jj]);
            }
        }
    }
}

impl Game {
    /// Whether any gathered contact names enemy slot `idx` as its side B.
    fn contacts_target(contacts: &Vec<Contact>, idx: usize) -> (r: bool)
        ensures
            r == targets_index(contacts@, idx as int),
    {
        let mut k: usize = 0;
        while k < contacts.len()
            invariant
                0 <= k <= contacts@.len(),
                forall|j: int| 0 <= j < k ==> (#[trigger] contacts@[j]).b_index != idx,
            decreases contacts@.len() - k,
        {
            if contacts[k].b_index == idx {
                assert(targets_index(contacts@, idx as int)) by {
                    assert((contacts@[k as int]).b_index == idx);
                }
                return true;
            }
            k += 1;
        }
        false
    }

    /// Remove every enemy a gathered attack contact points at, walking the
    /// collection from the top so earlier removals never shift a slot still
    /// to be examined.
    pub fn attack_enemy_collision_response(&mut self, contacts: &Vec<Contact>)
        ensures
            final(self).enemies@ == enemies_kept_from(old(self).enemies@, contacts@, 0),
            final(self).players == old(self).players,
            final(self).levels == old(self).levels,
            final(self).current_level == old(self).current_level,
            final(self).mud_puddles == old(self).mud_puddles,
            final(self).doors == old(self).doors,
            final(self).camera == old(self).camera,
            final(self).animations == old(self).animations,
            final(self).config == old(self).config,
    {
        let mut i: usize = self.enemies.len();
        proof {
            assert(old(self).enemies@.take(i as int) =~= old(self).enemies@);
        }
        while i > 0
            invariant
                0 <= i <= old(self).enemies@.len(),
                self.enemies@ == old(self).enemies@.take(i as int) + enemies_kept_from(
                    old(self).enemies@,
                    contacts@,
                    i as int,
                ),
                self.players == old(self).players,
                self.levels == old(self).levels,
                self.current_level == old(self).current_level,
                self.mud_puddles == old(self).mud_puddles,
                self.doors == old(self).doors,
                self.camera == old(self).camera,
                self.animations == old(self).animations,
                self.config == old(self).config,
            decreases i,
        {
            i = i - 1;
            proof {
                assert(old(self).enemies@.take(i + 1) =~= old(self).enemies@.take(i as int).push(
                    old(self).enemies@[i as int],
                ));
                assert(self.enemies@[i as int] == old(self).enemies@[i as int]);
            }
            if Self::contacts_target(contacts, i) {
                self.enemies.remove(i);
                proof {
                    assert(self.enemies@ =~= old(self).enemies@.take(i as int)
                        + enemies_kept_from(old(self).enemies@, contacts@, i as int));
                }
            } else {
                proof {
                    assert(self.enemies@ =~= old(self).enemies@.take(i as int)
                        + enemies_kept_from(old(self).enemies@, contacts@, i as int));
                }
            }
        }
        proof {
            assert(old(self).enemies@.take(0) =~= Seq::<Enemy>::empty());
            assert(self.enemies@ =~= enemies_kept_from(old(self).enemies@, contacts@, 0));
        }
    }

    /// Fire the triggered attacks and remove every enemy a triggered hitbox
    /// overlaps, in a single pass at tick end (phase five).
    fn resolve_attacks(&mut self, input: &InputSnapshot, dt: i64)
        requires
            old(self).wf_base(),
            input.wf(),
            input.players@.len() == old(self).players@.len(),
            1 <= dt <= DT_MAX,
        ensures
            attack_rel(*old(self), *final(self), *input, dt as int),
            final(self).wf_base(),
            forall|i: int|
                0 <= i < final(self).players@.len() ==> (#[trigger] final(self).players@[i]).pos
                    == old(self).players@[i].pos && final(self).players@[i].vel == old(
                self).players@[i].vel,
    {
        if !self.config.has_attack {
            return ;
        }
        let mut equery: Vec<Rect> = Vec::new();
        let mut k: usize = 0;
        while k < self.enemies.len()
            invariant
                old(self).wf_base(),
                *self == *old(self),
                0 <= k <= self.enemies@.len(),
                equery@.len() == k,
                forall|j: int|
                    0 <= j < k ==> #[trigger] equery@[j] == enemy_query_rect_spec(
                        self.enemies@[j],
                    ),
            decreases self.enemies@.len() - k,
        {
            equery.push(self.enemies[k].query_rect());
            k += 1;
        }
        proof {
            assert(equery@ =~= equery_rects(old(self).enemies@));
        }
        let cooldown = self.config.attack_cooldown;
        let mut contacts: Vec<Contact> = Vec::new();
        let mut i: usize = 0;
        while i < self.players.len()
            invariant
                old(self).wf_base(),
                old(self).config.has_attack,
                input.wf(),
                input.players@.len() == old(self).players@.len(),
                1 <= dt <= DT_MAX,
                cooldown == old(self).config.attack_cooldown,
                equery@ == equery_rects(old(self).enemies@),
                0 <= i <= self.players@.len(),
                self.players@.len() == old(self).players@.len(),
                self.enemies == old(self).enemies,
                self.levels == old(self).levels,
                self.current_level == old(self).current_level,
                self.mud_puddles == old(self).mud_puddles,
                self.doors == old(self).doors,
                self.camera == old(self).camera,
                self.animations == old(self).animations,
                self.config == old(self).config,
                forall|j: int|
                    i <= j < self.players@.len() ==> #[trigger] self.players@[j] == old(
                    self).players@[j],
                forall|j: int|
                    0 <= j < i ==> #[trigger] self.players@[j] == attack_player_after(
                        old(self).players@[j],
                        input.players@[j],
                        dt as int,
                        old(self).config,
                    ),
                contacts@ == attack_contacts_spec(
                    old(self).players@.subrange(0, i as int),
                    input.players@.subrange(0, i as int),
                    old(self).enemies@,
                    old(self).config,
                ),
            decreases self.players@.len() - i,
        {
            let ghost pre_contacts = contacts@;
            let mut p = self.players[i];
            let inp = input.players[i];
            if inp.attack && p.attack_timer > cooldown {
                let hitbox = p.attack_rect(cooldown);
                let mut single: Vec<Rect> = Vec::new();
                single.push(hitbox);
                gather_contacts(&single, &equery, &mut contacts);
                match p.dir {
                    Dir::E => p.anim.play(AnimationKey::PlayerRightAttack, false),
                    Dir::W => p.anim.play(AnimationKey::PlayerLeftAttack, false),
                }
                p.attack_timer = 0;
                proof {
                    assert(single@ =~= seq![
                        attack_rect_spec(old(self).players@[i as int], cooldown),
                    ]);
                }
            }
            if p.attack_timer + dt <= ATTACK_TIMER_CAP {
                p.attack_timer = p.attack_timer + dt;
            } else {
                p.attack_timer = ATTACK_TIMER_CAP;
            }
            self.players[i] = p;
            proof {
                let ps1 = old(self).players@.subrange(0, i + 1);
                let is1 = input.players@.subrange(0, i + 1);
                assert(ps1.drop_last() =~= old(self).players@.subrange(0, i as int));
                assert(is1.take(ps1.len() - 1) =~= input.players@.subrange(0, i as int));
                assert(ps1.last() == old(self).players@[i as int]);
                assert(is1[ps1.len() - 1] == input.players@[i as int]);
            }
            i += 1;
        }
        proof {
            assert(old(self).players@.subrange(0, old(self).players@.len() as int) =~= old(
                self,
            ).players@);
            assert(input.players@.subrange(0, input.players@.len() as int) =~= input.players@);
            lemma_kept_sound(old(self).enemies@, contacts@, 0);
        }
        self.attack_enemy_collision_response(&contacts);
        proof {
            assert forall|j: int| 0 <= j < self.enemies@.len() implies (
            #[trigger] self.enemies@[j]).wf() && -self.config.max_speed <= self.enemies@[j].vel.x
                <= self.config.max_speed && -2_000_000_000 <= self.enemies@[j].pos.x
                <= 2_000_000_000 && -2_000_000_000 <= self.enemies@[j].pos.y <= 2_000_000_000 by {
                let k = choose|k: int|
                    0 <= k < old(self).enemies@.len() && self.enemies@[j] == old(self).enemies@[k];
                assert(old(self).enemies@[k].wf());
            }
        }
    }
}

impl Game {
    /// Resolve the door triggers on the lead player, edge-triggered
    /// (phase six): an empty contact set clears the debounce; a fresh entry
    /// fires the first contact's door once, teleporting within the level or
    /// switching levels and re-entering; staying inside fires nothing.
    fn resolve_door_triggers(&mut self)
        requires
            old(self).wf_base(),
            forall|i: int|
                0 <= i < old(self).players@.len() ==> -200_000_000 <= (
                #[trigger] old(self).players@[i]).pos.x <= 200_000_000 && -200_000_000 <= old(
                self).players@[i].pos.y <= 200_000_000,
        ensures
            door_rel(*old(self), *final(self)),
            final(self).wf_base(),
            final(self).camera == old(self).camera,
            forall|i: int|
                0 <= i < final(self).players@.len() ==> -200_000_000 <= (
                #[trigger] final(self).players@[i]).pos.x <= 200_000_000 && -200_000_000 <= final(
                self).players@[i].pos.y <= 200_000_000,
    {
        if !self.config.has_doors {
            return ;
        }
        let p0 = self.players[0];
        let mut prects: Vec<Rect> = Vec::new();
        prects.push(p0.rect());
        let mut drects: Vec<Rect> = Vec::new();
        let mut k: usize = 0;
        while k < self.doors.len()
            invariant
                old(self).wf_base(),
                *self == *old(self),
                0 <= k <= self.doors@.len(),
                drects@.len() == k,
                forall|j: int|
                    0 <= j < k ==> #[trigger] drects@[j] == trigger_rect_spec(self.doors@[j].pos),
            decreases self.doors@.len() - k,
        {
            drects.push(trigger_rect(self.doors[k].pos));
            k += 1;
        }
        proof {
            assert(drects@ =~= door_rects_spec(old(self).doors@));
            assert(prects@ =~= seq![player_rect_spec(old(self).players@[0])]);
        }
        let mut triggers: Vec<Contact> = Vec::new();
        gather_contacts(&prects, &drects, &mut triggers);
        let ghost cs = pair_contacts(
            seq![player_rect_spec(old(self).players@[0])],
            door_rects_spec(old(self).doors@),
        );
        if triggers.len() == 0 {
            let mut p = self.players[0];
            p.touching_door = false;
            self.players[0] = p;
            proof {
                assert(self.players@ =~= old(self).players@.update(
                    0,
                    (Player { touching_door: false, ..old(self).players@[0] }),
                ));
            }
            return ;
        }
        if self.players[0].touching_door {
            return ;
        }
        // a fresh entry: fire the first contact's door
        proof {
            lemma_pair_contacts_sound(
                seq![player_rect_spec(old(self).players@[0])],
                door_rects_spec(old(self).doors@),
                0,
            );
        }
        let door_index = triggers[0].b_index;
        let target = self.doors[door_index].target_level.clone();
        let target_col = self.doors[door_index].target_col;
        let target_row = self.doors[door_index].target_row;
        let dest = Vec2 {
            x: (target_col as i64) * TILE_SUB + 8_000,
            y: (target_row as i64) * TILE_SUB - 4_000,
        };
        let mut p = self.players[0];
        p.touching_door = true;
        self.players[0] = p;
        proof {
            assert(self.players@ =~= old(self).players@.update(
                0,
                (Player { touching_door: true, ..old(self).players@[0] }),
            ));
        }
        let dest_index = match Self::find_level_index(&self.levels, &target) {
            Some(j) => j,
            None => {
                proof {
                    assert(false);
                }
                vstd::pervasive::unreached()
            },
        };
        proof {
            lemma_find_level_found(self.levels@, target@);
        }
        if dest_index == self.current_level {
            let mut p2 = self.players[0];
            p2.pos = dest;
            self.players[0] = p2;
            proof {
                assert(self.players@ =~= old(self).players@.update(
                    0,
                    (Player {
                        pos: dest,
                        touching_door: true,
                        ..old(self).players@[0]
                    }),
                ));
            }
        } else {
            self.current_level = dest_index;
            let mut positions: Vec<Vec2> = Vec::new();
            let mut j: usize = 0;
            let n = self.players.len();
            while j < n
                invariant
                    0 <= j <= n,
                    positions@.len() == j,
                    forall|t: int| 0 <= t < j ==> #[trigger] positions@[t] == dest,
                    -100_000_000 <= dest.x <= 100_000_000,
                    -100_000_000 <= dest.y <= 100_000_000,
                decreases n - j,
            {
                positions.push(dest);
                j += 1;
            }
            self.enter_level(&positions);
            proof {
                assert(positions@ =~= Seq::new(old(self).players@.len(), |t: int| dest));
            }
        }
    }

    /// Resolve the mud triggers on each player, edge-triggered
    /// (phase seven): out of contact the debounce clears and forced-walk
    /// control restores the walk velocity; a fresh entry sets the debounce
    /// and applies the speed multiplier; staying inside changes nothing.
    fn resolve_mud_triggers(&mut self)
        requires
            old(self).wf_base(),
            forall|i: int|
                0 <= i < old(self).players@.len() ==> -200_000_000 <= (
                #[trigger] old(self).players@[i]).pos.x <= 200_000_000 && -200_000_000 <= old(
                self).players@[i].pos.y <= 200_000_000,
        ensures
            mud_rel(*old(self), *final(self)),
            final(self).wf_base(),
            final(self).camera == old(self).camera,
            forall|i: int|
                0 <= i < final(self).players@.len() ==> (#[trigger] final(self).players@[i]).pos
                    == old(self).players@[i].pos,
    {
        if !self.config.has_mud {
            return ;
        }
        let mut mrects: Vec<Rect> = Vec::new();
        let mut k: usize = 0;
        while k < self.mud_puddles.len()
            invariant
                old(self).wf_base(),
                *self == *old(self),
                0 <= k <= self.mud_puddles@.len(),
                mrects@.len() == k,
                forall|j: int|
                    0 <= j < k ==> #[trigger] mrects@[j] == trigger_rect_spec(
                        self.mud_puddles@[j].pos,
                    ),
            decreases self.mud_puddles@.len() - k,
        {
            mrects.push(trigger_rect(self.mud_puddles[k].pos));
            k += 1;
        }
        proof {
            assert(mrects@ =~= mud_rects_spec(old(self).mud_puddles@));
        }
        let forced = self.config.scheme == ControlScheme::Forced;
        proof {
            let wv = old(self).config.walk_vel;
            let mc = old(self).config.mud_coeff_milli;
            assert(0 <= wv * mc <= wv * 1000) by (nonlinear_arith)
                requires
                    0 <= wv,
                    0 <= mc <= 1000,
            ;
            assert(wv * 1000 <= 1_000_000_000) by (nonlinear_arith)
                requires
                    0 <= wv <= 1_000_000,
            ;
            vstd::arithmetic::div_mod::lemma_div_is_ordered(0, wv * mc, 1000);
            vstd::arithmetic::div_mod::lemma_div_is_ordered(wv * mc, wv * 1000, 1000);
            vstd::arithmetic::div_mod::lemma_div_by_multiple(wv as int, 1000);
            assert(wv * 1000 == 1000 * wv) by (nonlinear_arith);
            assert(0int / 1000int == 0) by {
                vstd::arithmetic::div_mod::lemma_div_of0(1000);
            }
        }
        let slow_vel: i64 = (self.config.walk_vel * self.config.mud_coeff_milli) / 1000;
        let mut i: usize = 0;
        while i < self.players.len()
            invariant
                old(self).wf_base(),
                old(self).config.has_mud,
                forall|t: int|
                    0 <= t < old(self).players@.len() ==> -200_000_000 <= (
                    #[trigger] old(self).players@[t]).pos.x <= 200_000_000 && -200_000_000 <= old(
                    self).players@[t].pos.y <= 200_000_000,
                mrects@ == mud_rects_spec(old(self).mud_puddles@),
                forced == (old(self).config.scheme is Forced),
                0 <= slow_vel <= old(self).config.walk_vel,
                slow_vel == (old(self).config.walk_vel * old(self).config.mud_coeff_milli) / 1000,
                0 <= i <= self.players@.len(),
                self.players@.len() == old(self).players@.len(),
                self.enemies == old(self).enemies,
                self.levels == old(self).levels,
                self.current_level == old(self).current_level,
                self.mud_puddles == old(self).mud_puddles,
                self.doors == old(self).doors,
                self.camera == old(self).camera,
                self.animations == old(self).animations,
                self.config == old(self).config,
                forall|j: int|
                    i <= j < self.players@.len() ==> #[trigger] self.players@[j] == old(
                    self).players@[j],
                forall|j: int|
                    0 <= j < i ==> #[trigger] self.players@[j] == mud_player_after(
                        old(self).players@[j],
                        old(self).mud_puddles@,
                        old(self).config,
                    ),
            decreases self.players@.len() - i,
        {
            let mut p = self.players[i];
            let mut prects: Vec<Rect> = Vec::new();
            prects.push(p.rect());
            let mut hits: Vec<Contact> = Vec::new();
            gather_contacts(&prects, &mrects, &mut hits);
            proof {
                assert(prects@ =~= seq![player_rect_spec(old(self).players@[i as int])]);
            }
            if hits.len() == 0 {
                p.touching_mud = false;
                if forced {
                    p.vel.x = self.config.walk_vel;
                }
            } else if !p.touching_mud {
                p.touching_mud = true;
                if forced {
                    p.vel.x = slow_vel;
                }
            }
            self.players[i] = p;
            i += 1;
        }
    }
}

impl Game {
    /// One fixed simulation tick: advance each player's motion from the
    /// input snapshot, advance the enemies' wandering, resolve players then
    /// enemies against the solid tiles, resolve triggered attacks, run the
    /// door and mud triggers with their entry debounce, and step the camera
    /// after the lead player (see `tick_rel` and the eight phase relations).
    /// Horizontal player speed never exceeds the configured maximum after a
    /// tick, and the camera always ends clamped inside the current level's
    /// pixel bounds.
    #[verifier::rlimit(100)]
    pub fn simulate(&mut self, input: &InputSnapshot, dt: i64)
        requires
            old(self).wf(),
            input.wf(),
            input.players@.len() == old(self).players@.len(),
            1 <= dt <= DT_MAX,
        ensures
            tick_rel(*old(self), *final(self), *input, dt as int),
            final(self).wf(),
            forall|i: int|
                0 <= i < final(self).players@.len() ==> -final(self).config.max_speed <= (
                #[trigger] final(self).players@[i]).vel.x <= final(self).config.max_speed,
            ({
                let hi = if final(self).cur_level().pixel_w() >= final(self).config.viewport_w {
                    final(self).cur_level().pixel_w() - final(self).config.viewport_w
                } else {
                    0
                };
                0 <= final(self).camera.screen_pos.x <= hi
            }),
            ({
                let hi = if final(self).cur_level().pixel_h() >= final(self).config.viewport_h {
                    final(self).cur_level().pixel_h() - final(self).config.viewport_h
                } else {
                    0
                };
                0 <= final(self).camera.screen_pos.y <= hi
            }),
    {
        self.advance_players(input, dt);
        let ghost t1 = *self;
        self.wander_enemies(dt);
        let ghost t2 = *self;
        self.resolve_player_collisions();
        let ghost t3 = *self;
        self.resolve_enemy_collisions();
        let ghost t4 = *self;
        self.resolve_attacks(input, dt);
        let ghost t5 = *self;
        self.resolve_door_triggers();
        let ghost t6 = *self;
        self.resolve_mud_triggers();
        let ghost t7 = *self;
        let target = self.players[0].pos;
        let lw_sub: i64 = (self.levels[self.current_level].width as i64) * TILE_SUB;
        let lh_sub: i64 = (self.levels[self.current_level].height as i64) * TILE_SUB;
        self.camera.follow(target, self.config.screen_margin, lw_sub, lh_sub);
        proof {
            let w = TickTrace {
                after_advance: t1,
                after_wander: t2,
                after_player_resolve: t3,
                after_enemy_resolve: t4,
                after_attack: t5,
                after_doors: t6,
                after_mud: t7,
            };
            assert(tick_rel_trace(*old(self), *self, *input, dt as int, w));
            assert(tick_rel(*old(self), *self, *input, dt as int));
        }
    }
}

/// A fresh entry into a door's collider arms the debounce that very tick:
/// whichever way the door fired (teleport or level switch), the lead player
/// comes out with the flag set.
pub proof fn law_door_fresh_entry_arms(g: Game, g2: Game)
    requires
        door_rel(g, g2),
        g.config.has_doors,
        g.players@.len() > 0,
        !g.players@[0].touching_door,
        pair_contacts(seq![player_rect_spec(g.players@[0])], door_rects_spec(g.doors@)).len() > 0,
    ensures
        g2.players@[0].touching_door,
{
    let cs = pair_contacts(seq![player_rect_spec(g.players@[0])], door_rects_spec(g.doors@));
    let d = g.doors@[cs[0].b_index as int];
    let j = find_level(g.levels@, d.target_level@);
    if j != g.current_level {
        assert(g2.players@[0] == (Player {
            pos: Seq::new(g.players@.len(), |i: int| (Vec2 {
                x: (d.target_col * TILE_SUB + TILE_SUB / 2) as i64,
                y: (d.target_row * TILE_SUB - 12_000 + TILE_SUB / 2) as i64,
            }))[0],
            touching_door: true,
            touching_mud: false,
            ..g.players@.update(0, (Player { touching_door: true, ..g.players@[0] }))[0]
        }));
    }
}

/// Re-entry is debounced: while the lead player stays inside some door's
/// collider with the debounce armed, the door phase fires nothing - no
/// teleport, no level switch, and the whole state passes through unchanged.
pub proof fn law_door_reentry_debounced(g: Game, g2: Game)
    requires
        door_rel(g, g2),
        g.config.has_doors,
        g.players@.len() > 0,
        g.players@[0].touching_door,
        pair_contacts(seq![player_rect_spec(g.players@[0])], door_rects_spec(g.doors@)).len() > 0,
    ensures
        g2.players@ == g.players@,
        g2.current_level == g.current_level,
        g2.enemies@ == g.enemies@,
        g2.doors@ == g.doors@,
        g2.mud_puddles@ == g.mud_puddles@,
{
}

/// Whether some triggered attack's hitbox overlaps enemy slot `j` this tick.
pub open spec fn enemy_hit(
    ps: Seq<Player>,
    inputs: Seq<PlayerInput>,
    es: Seq<Enemy>,
    cfg: GameConfig,
    j: int,
) -> bool {
    exists|i: int|
        0 <= i < ps.len() && attack_triggered(#[trigger] ps[i], inputs[i], cfg.attack_cooldown)
            && rects_intersect(
            attack_rect_spec(ps[i], cfg.attack_cooldown),
            enemy_query_rect_spec(es[j]),
        )
}

/// The gathered attack contacts point at exactly the enemy slots some
/// triggered hitbox overlaps: the removal pass removes those enemies and no
/// others.
pub proof fn lemma_attack_targets(
    ps: Seq<Player>,
    inputs: Seq<PlayerInput>,
    es: Seq<Enemy>,
    cfg: GameConfig,
    j: int,
)
    requires
        ps.len() <= inputs.len(),
        ps.len() <= 1_000_000,
        es.len() <= 1_000_000,
        0 <= j < es.len(),
    ensures
        targets_index(attack_contacts_spec(ps, inputs, es, cfg), j) <==> enemy_hit(
            ps,
            inputs,
            es,
            cfg,
            j,
        ),
    decreases ps.len(),
{
    let cs = attack_contacts_spec(ps, inputs, es, cfg);
    if ps.len() == 0 {
        assert(!targets_index(cs, j)) by {
            if targets_index(cs, j) {
                let k = choose|k: int| 0 <= k < cs.len() && (#[trigger] cs[k]).b_index == j;
                assert(false);
            }
        }
    } else {
        let n = ps.len() as int;
        let pre_inputs = inputs.take(n - 1);
        let rest = attack_contacts_spec(ps.drop_last(), pre_inputs, es, cfg);
        lemma_attack_targets(ps.drop_last(), pre_inputs, es, cfg, j);
        let trig = attack_triggered(ps.last(), inputs[n - 1], cfg.attack_cooldown);
        let hitbox = attack_rect_spec(ps.last(), cfg.attack_cooldown);
        let block = pair_contacts(seq![hitbox], equery_rects(es));
        // the appended block's contacts are exactly the hitbox overlaps
        if trig {
            assert(cs == rest + block);
        } else {
            assert(cs == rest);
        }
        if targets_index(cs, j) {
            let k = choose|k: int| 0 <= k < cs.len() && (#[trigger] cs[k]).b_index == j;
            if k < rest.len() {
                assert(rest[k].b_index == j);
                assert(targets_index(rest, j));
                assert(enemy_hit(ps.drop_last(), pre_inputs, es, cfg, j));
                let i = choose|i: int|
                    0 <= i < ps.drop_last().len() && attack_triggered(
                        #[trigger] ps.drop_last()[i],
                        pre_inputs[i],
                        cfg.attack_cooldown,
                    ) && rects_intersect(
                        attack_rect_spec(ps.drop_last()[i], cfg.attack_cooldown),
                        enemy_query_rect_spec(es[j]),
                    );
                assert(ps[i] == ps.drop_last()[i] && inputs[i] == pre_inputs[i]);
                assert(enemy_hit(ps, inputs, es, cfg, j));
            } else {
                assert(trig);
                assert(block[k - rest.len()].b_index == j);
                lemma_pair_contacts_sound(seq![hitbox], equery_rects(es), k - rest.len());
                assert(block[k - rest.len()].b_rect == equery_rects(es)[j]);
                assert(equery_rects(es)[j] == enemy_query_rect_spec(es[j]));
                assert(block[k - rest.len()].a_rect == hitbox);
                assert(enemy_hit(ps, inputs, es, cfg, j)) by {
                    assert(attack_triggered(ps[n - 1], inputs[n - 1], cfg.attack_cooldown)
                        && rects_intersect(
                        attack_rect_spec(ps[n - 1], cfg.attack_cooldown),
                        enemy_query_rect_spec(es[j]),
                    ));
                }
            }
        }
        if enemy_hit(ps, inputs, es, cfg, j) {
            let i = choose|i: int|
                0 <= i < ps.len() && attack_triggered(
                    #[trigger] ps[i],
                    inputs[i],
                    cfg.attack_cooldown,
                ) && rects_intersect(
                    attack_rect_spec(ps[i], cfg.attack_cooldown),
                    enemy_query_rect_spec(es[j]),
                );
            if i < n - 1 {
                assert(ps.drop_last()[i] == ps[i] && pre_inputs[i] == inputs[i]);
                assert(enemy_hit(ps.drop_last(), pre_inputs, es, cfg, j));
                assert(targets_index(rest, j));
                let k = choose|k: int| 0 <= k < rest.len() && (#[trigger] rest[k]).b_index == j;
                if trig {
                    assert(cs[k] == rest[k]);
                } else {
                    assert(cs[k] == rest[k]);
                }
                assert(targets_index(cs, j));
            } else {
                assert(trig);
                assert(rects_intersect(hitbox, equery_rects(es)[j]));
                assert(pair_contacts(seq![hitbox], equery_rects(es)) == row_contacts(
                    hitbox,
                    0,
                    equery_rects(es),
                )) by {
                    assert(seq![hitbox].drop_last() =~= Seq::<Rect>::empty());
                    assert(pair_contacts(Seq::<Rect>::empty(), equery_rects(es))
                        =~= Seq::<Contact>::empty());
                    assert(Seq::<Contact>::empty() + row_contacts(hitbox, 0, equery_rects(es))
                        =~= row_contacts(hitbox, 0, equery_rects(es)));
                }
                crate::collision::lemma_row_contacts_complete(hitbox, 0, equery_rects(es), j);
                let k = choose|k: int|
                    0 <= k < block.len() && (#[trigger] block[k]).b_index == j;
                assert(cs[rest.len() + k].b_index == j);
                assert(targets_index(cs, j));
            }
        }
    }
}

} // verus!
