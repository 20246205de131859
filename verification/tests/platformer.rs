use platcore::anim::{AnimationClip, AnimationKey, AnimationState, SpriteRegion, ANIM_COUNT};
use platcore::camera::Camera;
use platcore::config::{ControlScheme, GameConfig, InputSnapshot, PlayerInput};
use platcore::entity::{Enemy, Mud, Player};
use platcore::game::{Game, GameError};
use platcore::geom::{Dir, Rect, Vec2};
use platcore::level::{EntityType, Level};

fn region(i: u32) -> SpriteRegion {
    SpriteRegion { x: i * 10, y: 0, w: 36, h: 36 }
}

fn registry() -> Vec<AnimationClip> {
    let mut v = Vec::new();
    for i in 0..ANIM_COUNT {
        v.push(AnimationClip::with_frame(region(i as u32)));
    }
    v
}

fn flat_level(name: &str, width: usize, height: usize, solid_bottom: bool, extra: Vec<(EntityType, Vec2)>) -> Level {
    let mut solid = vec![false; width * height];
    if solid_bottom {
        for c in 0..width {
            solid[c] = true;
        }
    }
    let mut starts = vec![(EntityType::Player, Vec2 { x: 32_000, y: 16_000 })];
    starts.extend(extra);
    Level::new(name.to_string(), width, height, solid, starts).unwrap()
}

fn base_config() -> GameConfig {
    GameConfig {
        scheme: ControlScheme::Forced,
        has_enemies: false,
        has_doors: false,
        has_mud: false,
        has_attack: false,
        player_count: 1,
        grav_acc: 400_000,
        walk_acc: 180_000,
        walk_vel: 0,
        max_speed: 90_000,
        jump_vel: 140_000,
        jump_time_max: 150,
        attack_cooldown: 100,
        mud_coeff_milli: 500,
        viewport_w: 256_000,
        viewport_h: 192_000,
        screen_margin: 64_000,
        spawn_offsets: vec![Vec2 { x: 0, y: 0 }],
        ground_thresholds: vec![0],
    }
}

fn idle_input() -> InputSnapshot {
    InputSnapshot { players: vec![PlayerInput::idle()] }
}

// --- geometry ---

#[test]
fn overlap_disjoint_is_none() {
    let a = Rect { x: 0, y: 0, w: 10_000, h: 10_000 };
    let b = Rect { x: 20_000, y: 0, w: 10_000, h: 10_000 };
    assert!(a.overlap(b).is_none());
    let c = Rect { x: 0, y: 30_000, w: 10_000, h: 10_000 };
    assert!(a.overlap(c).is_none());
}

#[test]
fn overlap_touching_edges_is_none() {
    let a = Rect { x: 0, y: 0, w: 10_000, h: 10_000 };
    let b = Rect { x: 10_000, y: 0, w: 10_000, h: 10_000 };
    assert!(a.overlap(b).is_none());
}

#[test]
fn overlap_reports_penetration_extents() {
    let a = Rect { x: 0, y: 0, w: 10_000, h: 10_000 };
    let b = Rect { x: 6_000, y: 8_000, w: 10_000, h: 10_000 };
    let v = a.overlap(b).unwrap();
    assert_eq!(v.x, 4_000);
    assert_eq!(v.y, 2_000);
}

#[test]
fn zero_rect_never_overlaps() {
    let z = Rect::zero();
    let a = Rect { x: -5_000, y: -5_000, w: 10_000, h: 10_000 };
    assert!(z.overlap(a).is_none());
    assert!(a.overlap(z).is_none());
}

#[test]
fn compute_disp_keeps_one_axis_and_pushes_away() {
    // shallower on y: push out on y, away from b's origin (a above b)
    let a = Rect { x: 0, y: 8_000, w: 10_000, h: 10_000 };
    let b = Rect { x: 2_000, y: 0, w: 10_000, h: 10_000 };
    let d = platcore::geom::compute_disp(a, b);
    assert_eq!(d.x, 0);
    assert_eq!(d.y, 2_000);
    // shallower on x: push out on x, a left of b gives a negative push
    let c = Rect { x: 8_000, y: 1_000, w: 10_000, h: 10_000 };
    let d2 = platcore::geom::compute_disp(a, c);
    assert_eq!(d2.x, -2_000);
    assert_eq!(d2.y, 0);
}

#[test]
fn compute_disp_no_overlap_is_zero() {
    let a = Rect { x: 0, y: 0, w: 10_000, h: 10_000 };
    let b = Rect { x: 50_000, y: 0, w: 10_000, h: 10_000 };
    let d = platcore::geom::compute_disp(a, b);
    assert_eq!((d.x, d.y), (0, 0));
}

#[test]
fn dir_to_vec2_is_sign_vector() {
    assert_eq!(Dir::E.to_vec2(), Vec2 { x: 1, y: 0 });
    assert_eq!(Dir::W.to_vec2(), Vec2 { x: -1, y: 0 });
}

// --- animation ---

#[test]
fn play_same_key_keeps_elapsed_time() {
    let mut st = AnimationState { animation: AnimationKey::PlayerRightWalk, t: 1234 };
    st.play(AnimationKey::PlayerRightWalk, false);
    assert_eq!(st.t, 1234);
    assert_eq!(st.animation, AnimationKey::PlayerRightWalk);
}

#[test]
fn play_retrigger_or_new_key_resets() {
    let mut st = AnimationState { animation: AnimationKey::PlayerRightWalk, t: 1234 };
    st.play(AnimationKey::PlayerRightWalk, true);
    assert_eq!(st.t, 0);
    let mut st2 = AnimationState { animation: AnimationKey::PlayerRightWalk, t: 777 };
    st2.play(AnimationKey::PlayerLeftWalk, false);
    assert_eq!(st2.animation, AnimationKey::PlayerLeftWalk);
    assert_eq!(st2.t, 0);
}

#[test]
fn looped_sampling_is_periodic() {
    let regions = vec![region(1), region(2), region(3)];
    let clip = AnimationClip::with_frames(&regions, 150).looped();
    for t in [0i64, 75, 149, 150, 300, 449] {
        let a = clip.sample(t).unwrap();
        let b = clip.sample(t + 450).unwrap();
        assert_eq!(a, b);
    }
}

#[test]
fn sample_picks_frame_by_cumulative_window() {
    let regions = vec![region(1), region(2), region(3)];
    let clip = AnimationClip::with_frames(&regions, 150);
    assert_eq!(clip.sample(0).unwrap().region, region(1));
    assert_eq!(clip.sample(149).unwrap().region, region(1));
    assert_eq!(clip.sample(150).unwrap().region, region(2));
    assert_eq!(clip.sample(449).unwrap().region, region(3));
    assert!(clip.sample(450).is_none());
}

#[test]
fn state_sample_past_end_resamples_frame_zero() {
    let mut anims = registry();
    let regions = vec![region(20), region(21)];
    anims[0] = AnimationClip::with_frames(&regions, 100);
    let st = AnimationState { animation: AnimationKey::Blank, t: 10_000 };
    assert!(st.finished(&anims));
    assert_eq!(st.sample(&anims).region, region(20));
}

#[test]
fn mirrored_clip_samples_mirrored() {
    let clip = AnimationClip::with_frame(region(5)).flip_horizontal();
    let s = clip.sample(0).unwrap();
    assert!(s.mirrored);
    assert_eq!(s.region, region(5));
}

// --- level grid ---

#[test]
fn level_new_rejects_bad_data() {
    assert!(Level::new("x".to_string(), 1, 12, vec![false; 12], vec![]).is_none());
    assert!(Level::new("x".to_string(), 4, 4, vec![false; 15], vec![]).is_none());
    let far = vec![(EntityType::Player, Vec2 { x: 10_000_000, y: 0 })];
    assert!(Level::new("x".to_string(), 4, 4, vec![false; 16], far).is_none());
    assert!(Level::new("x".to_string(), 4, 4, vec![false; 16], vec![]).is_some());
}

#[test]
fn tiles_within_enumerates_covering_range() {
    let mut solid = vec![false; 16];
    solid[0] = true; // tile (0, 0)
    let level = Level::new("g".to_string(), 4, 4, solid, vec![]).unwrap();
    // a rect inside tile (1,1) stretching into (0,0)'s neighbourhood
    let q = Rect { x: 8_000, y: 8_000, w: 16_000, h: 16_000 };
    let tiles = level.tiles_within(q);
    // covers cols 0..=1, rows 0..=1, row-major
    assert_eq!(tiles.len(), 4);
    assert_eq!(tiles[0].0, Rect { x: 0, y: 0, w: 16_000, h: 16_000 });
    assert!(tiles[0].1.solid);
    assert_eq!(tiles[1].0, Rect { x: 16_000, y: 0, w: 16_000, h: 16_000 });
    assert!(!tiles[1].1.solid);
    assert_eq!(tiles[2].0, Rect { x: 0, y: 16_000, w: 16_000, h: 16_000 });
    assert_eq!(tiles[3].0, Rect { x: 16_000, y: 16_000, w: 16_000, h: 16_000 });
}

#[test]
fn tiles_within_outside_grid_is_empty() {
    let level = Level::new("g".to_string(), 4, 4, vec![false; 16], vec![]).unwrap();
    let q = Rect { x: -60_000, y: 0, w: 10_000, h: 10_000 };
    assert_eq!(level.tiles_within(q).len(), 0);
}

#[test]
fn grid_to_world_scales_by_tile_size() {
    let level = Level::new("g".to_string(), 4, 4, vec![false; 16], vec![]).unwrap();
    let p = level.grid_to_world(2, 3);
    assert_eq!(p, Vec2 { x: 32_000, y: 48_000 });
}

// --- game construction ---

#[test]
fn game_new_without_player_start_fails() {
    let level = Level::new(
        "one".to_string(),
        16,
        12,
        vec![false; 16 * 12],
        vec![(EntityType::Mud, Vec2 { x: 0, y: 0 })],
    )
    .unwrap();
    let r = Game::new(vec![level], base_config(), registry());
    assert!(matches!(r, Err(GameError::NoPlayerStart)));
}

#[test]
fn game_new_with_broken_door_fails() {
    let mut cfg = base_config();
    cfg.has_doors = true;
    let door = (EntityType::Door("nowhere".to_string(), 1, 1), Vec2 { x: 64_000, y: 16_000 });
    let level = flat_level("one", 16, 12, false, vec![door]);
    let r = Game::new(vec![level], cfg, registry());
    assert!(matches!(r, Err(GameError::BrokenDoorTarget)));
}

#[test]
fn game_new_places_players_and_spawns_enemies() {
    let mut cfg = base_config();
    cfg.has_enemies = true;
    let e1 = (EntityType::Enemy, Vec2 { x: 64_000, y: 32_000 });
    let e2 = (EntityType::Enemy, Vec2 { x: 96_000, y: 32_000 });
    let level = flat_level("one", 16, 12, false, vec![e1, e2]);
    let game = Game::new(vec![level], cfg, registry()).unwrap();
    assert_eq!(game.players.len(), 1);
    let p = &game.players[0];
    assert_eq!(p.pos, Vec2 { x: 32_000, y: 16_000 });
    assert!(p.touching_door);
    assert!(!p.touching_mud);
    assert!(p.grounded);
    assert_eq!(p.dir, Dir::E);
    assert_eq!(game.enemies.len(), 2);
    for (i, e) in game.enemies.iter().enumerate() {
        assert!(!e.dead);
        assert!(3000 <= e.change_dir_timer && e.change_dir_timer < 5000);
        let expect = if i == 0 { 64_000 } else { 96_000 };
        assert_eq!(e.pos, Vec2 { x: expect, y: 32_000 });
        assert_eq!(e.vel, Vec2 { x: 0, y: 0 });
    }
}

// --- physics scenarios ---

#[test]
fn grounded_jump_press_starts_jump_with_exact_velocity() {
    let level = flat_level("one", 16, 12, false, vec![]);
    let mut cfg = base_config();
    cfg.walk_vel = 0;
    let mut game = Game::new(vec![level], cfg, registry()).unwrap();
    game.players[0].pos = Vec2 { x: 32_000, y: 0 };
    game.players[0].grounded = true;
    let input = InputSnapshot {
        players: vec![PlayerInput { jump: true, left: false, right: false, attack: false, axis: 0 }],
    };
    game.simulate(&input, 16);
    let p = &game.players[0];
    assert!(p.jumping);
    assert_eq!(p.jump_timer, 150 - 16);
    // the jump velocity is applied, then gravity takes its share of the tick
    assert_eq!(p.vel.y, 140_000 - 400_000 * 16 / 1000);
    assert_eq!(p.pos.y, 133_600 * 16 / 1000);
    assert_eq!(p.anim.animation, AnimationKey::PlayerRightJumpRise);
}

#[test]
fn player_on_solid_tile_grounds_within_one_tick() {
    let level = flat_level("one", 16, 12, true, vec![]);
    let mut game = Game::new(vec![level], base_config(), registry()).unwrap();
    // collider exactly over one solid tile of the floor row
    game.players[0].pos = Vec2 { x: 40_000, y: 16_000 };
    game.players[0].vel = Vec2 { x: 0, y: 0 };
    game.simulate(&idle_input(), 16);
    let p = &game.players[0];
    assert!(p.grounded);
    assert_eq!(p.vel.y, 0);
    assert_eq!(p.pos.y, 28_000);
}

#[test]
fn horizontal_speed_never_exceeds_max() {
    let level = flat_level("one", 64, 12, false, vec![]);
    let mut cfg = base_config();
    cfg.scheme = ControlScheme::Axis;
    let mut game = Game::new(vec![level], cfg, registry()).unwrap();
    let input = InputSnapshot {
        players: vec![
            PlayerInput { jump: false, left: false, right: true, attack: false, axis: 1000 },
        ],
    };
    for _ in 0..60 {
        game.simulate(&input, 16);
        assert!(game.players[0].vel.x.abs() <= 90_000);
    }
    assert_eq!(game.players[0].vel.x, 90_000);
}

#[test]
fn braking_damps_velocity_toward_zero() {
    let level = flat_level("one", 64, 12, false, vec![]);
    let mut cfg = base_config();
    cfg.scheme = ControlScheme::Axis;
    let mut game = Game::new(vec![level], cfg, registry()).unwrap();
    game.players[0].vel.x = 10_000;
    game.simulate(&idle_input(), 16);
    // no input: one damp step of times nine tenths
    assert_eq!(game.players[0].vel.x, 9_000);
}

#[test]
fn enemy_with_expired_timer_flips_once_and_rerolls() {
    let mut cfg = base_config();
    cfg.has_enemies = true;
    let e1 = (EntityType::Enemy, Vec2 { x: 64_000, y: 32_000 });
    let level = flat_level("one", 16, 12, false, vec![e1]);
    let mut game = Game::new(vec![level], cfg, registry()).unwrap();
    game.enemies[0].dir = Dir::E;
    game.enemies[0].change_dir_timer = 10;
    game.simulate(&idle_input(), 16);
    let e = &game.enemies[0];
    assert_eq!(e.dir, Dir::W);
    assert!(3000 <= e.change_dir_timer && e.change_dir_timer < 5000);
    assert_eq!(e.vel.x, -90_000);
}

#[test]
fn attack_hitbox_removes_both_overlapped_enemies() {
    let mut cfg = base_config();
    cfg.has_enemies = true;
    cfg.has_attack = true;
    cfg.max_speed = 1;
    let e1 = (EntityType::Enemy, Vec2 { x: 50_000, y: 10_000 });
    let e2 = (EntityType::Enemy, Vec2 { x: 55_000, y: 20_000 });
    let level = flat_level("one", 16, 12, false, vec![e1, e2]);
    let mut game = Game::new(vec![level], cfg, registry()).unwrap();
    game.players[0].pos = Vec2 { x: 32_000, y: 16_000 };
    for e in game.enemies.iter_mut() {
        e.change_dir_timer = 4000;
    }
    assert_eq!(game.enemies.len(), 2);
    let input = InputSnapshot {
        players: vec![PlayerInput { jump: false, left: false, right: false, attack: true, axis: 0 }],
    };
    game.simulate(&input, 16);
    assert_eq!(game.enemies.len(), 0);
    assert_eq!(game.players[0].attack_timer, 16);
}

#[test]
fn attack_rect_is_inactive_until_cooldown_passes() {
    let p = Player {
        pos: Vec2 { x: 32_000, y: 16_000 },
        vel: Vec2 { x: 0, y: 0 },
        dir: Dir::E,
        touching_door: false,
        touching_mud: false,
        anim: AnimationState { animation: AnimationKey::PlayerRightIdle, t: 0 },
        jumping: false,
        jump_timer: 0,
        grounded: true,
        attack_timer: 50,
        ground_threshold: 0,
    };
    let r = p.attack_rect(100);
    assert_eq!((r.w, r.h), (0, 0));
    let armed = Player { attack_timer: 200, ..p };
    let r2 = armed.attack_rect(100);
    assert_eq!((r2.w, r2.h), (18_000, 24_000));
    assert_eq!(r2.x, 32_000 + 16_000);
}

// --- door and mud triggers ---

#[test]
fn door_switch_fires_exactly_once_while_inside() {
    let mut cfg = base_config();
    cfg.has_doors = true;
    cfg.grav_acc = 0;
    let door1 = (EntityType::Door("two".to_string(), 4, 4), Vec2 { x: 96_000, y: 60_000 });
    let door2 = (EntityType::Door("one".to_string(), 2, 2), Vec2 { x: 88_000, y: 60_000 });
    let one = Level::new(
        "one".to_string(),
        16,
        12,
        vec![false; 16 * 12],
        vec![(EntityType::Player, Vec2 { x: 80_000, y: 60_000 }), door1],
    )
    .unwrap();
    let two = Level::new(
        "two".to_string(),
        16,
        12,
        vec![false; 16 * 12],
        vec![(EntityType::Player, Vec2 { x: 16_000, y: 16_000 }), door2],
    )
    .unwrap();
    let mut game = Game::new(vec![one, two], cfg, registry()).unwrap();
    assert_eq!(game.current_level, 0);
    // the player has walked into the door's collider afresh
    game.players[0].touching_door = false;
    game.simulate(&idle_input(), 16);
    assert_eq!(game.current_level, 1);
    let dest = Vec2 { x: 4 * 16_000 + 8_000, y: 4 * 16_000 - 4_000 };
    assert_eq!(game.players[0].pos, dest);
    assert!(game.players[0].touching_door);
    // still inside the target level's door on later ticks: no re-fire
    game.simulate(&idle_input(), 16);
    game.simulate(&idle_input(), 16);
    assert_eq!(game.current_level, 1);
    assert_eq!(game.players[0].pos, dest);
}

#[test]
fn mud_entry_slows_and_leaving_restores() {
    let mut cfg = base_config();
    cfg.has_mud = true;
    cfg.grav_acc = 0;
    cfg.walk_vel = 90_000;
    let mud = (EntityType::Mud, Vec2 { x: 48_000, y: 16_000 });
    let level = flat_level("one", 16, 12, false, vec![mud]);
    let mut game = Game::new(vec![level], cfg, registry()).unwrap();
    game.players[0].pos = Vec2 { x: 32_000, y: 16_000 };
    game.players[0].vel.x = 90_000;
    game.simulate(&idle_input(), 16);
    assert!(game.players[0].touching_mud);
    assert_eq!(game.players[0].vel.x, 45_000);
    // staying inside does not re-apply the multiplier
    game.players[0].pos = Vec2 { x: 32_000, y: 16_000 };
    game.simulate(&idle_input(), 16);
    assert!(game.players[0].touching_mud);
    assert_eq!(game.players[0].vel.x, 45_000);
    // out of contact: the debounce clears and the walk velocity returns
    game.players[0].pos = Vec2 { x: 200_000, y: 16_000 };
    game.simulate(&idle_input(), 16);
    assert!(!game.players[0].touching_mud);
    assert_eq!(game.players[0].vel.x, 90_000);
}

// --- camera ---

#[test]
fn camera_stays_clamped_to_level_bounds() {
    let mut cfg = base_config();
    cfg.grav_acc = 0;
    let level = Level::new(
        "one".to_string(),
        32,
        12,
        vec![false; 32 * 12],
        vec![(EntityType::Player, Vec2 { x: 32_000, y: 60_000 })],
    )
    .unwrap();
    let mut game = Game::new(vec![level], cfg, registry()).unwrap();
    game.players[0].pos = Vec2 { x: 500_000, y: 60_000 };
    game.simulate(&idle_input(), 16);
    // level is 512 pixels wide, viewport 256: clamp ceiling is 256 pixels
    assert_eq!(game.camera.screen_pos.x, 256_000);
    assert!(game.camera.screen_pos.y >= 0);
}

#[test]
fn camera_in_level_no_wider_than_viewport_never_moves() {
    let mut cfg = base_config();
    cfg.grav_acc = 0;
    let level = flat_level("one", 16, 12, false, vec![]);
    let mut game = Game::new(vec![level], cfg, registry()).unwrap();
    game.players[0].pos = Vec2 { x: 250_000, y: 100_000 };
    game.simulate(&idle_input(), 16);
    assert_eq!(game.camera.screen_pos, Vec2 { x: 0, y: 0 });
}

// --- rendering snapshot ---

#[test]
fn render_snapshot_lists_enemies_then_players() {
    let mut cfg = base_config();
    cfg.has_enemies = true;
    let e1 = (EntityType::Enemy, Vec2 { x: 64_000, y: 32_000 });
    let level = flat_level("one", 16, 12, false, vec![e1]);
    let game = Game::new(vec![level], cfg, registry()).unwrap();
    let snap = game.render();
    assert_eq!(snap.sprites.len(), 2);
    let (etrf, esprite) = snap.sprites[0];
    assert_eq!((etrf.w, etrf.h), (36_000, 16_000));
    assert_eq!((etrf.x, etrf.y), (64_000, 32_000));
    assert_eq!(esprite.region, region(12)); // the enemy walking clip's frame
    let (ptrf, _psprite) = snap.sprites[1];
    assert_eq!((ptrf.w, ptrf.h), (36_000, 36_000));
    assert_eq!(ptrf.x, game.players[0].pos.x + 8_000 + 18_000);
    assert_eq!(snap.camera, game.camera);
}

#[test]
fn sprite_count_counts_tiles_and_entities() {
    let mut cfg = base_config();
    cfg.has_enemies = true;
    let e1 = (EntityType::Enemy, Vec2 { x: 64_000, y: 32_000 });
    let level = flat_level("one", 16, 12, false, vec![e1]);
    let game = Game::new(vec![level], cfg, registry()).unwrap();
    assert_eq!(game.sprite_count(), 16 * 12 + 1 + 1);
}

// --- entity colliders ---

#[test]
fn player_rect_follows_facing() {
    let p = Player {
        pos: Vec2 { x: 32_000, y: 16_000 },
        vel: Vec2 { x: 0, y: 0 },
        dir: Dir::E,
        touching_door: false,
        touching_mud: false,
        anim: AnimationState { animation: AnimationKey::PlayerRightIdle, t: 0 },
        jumping: false,
        jump_timer: 0,
        grounded: true,
        attack_timer: 0,
        ground_threshold: 0,
    };
    let r = p.rect();
    assert_eq!(r, Rect { x: 40_000, y: 4_000, w: 16_000, h: 24_000 });
    let west = Player { dir: Dir::W, ..p };
    assert_eq!(west.rect().x, 44_000);
}

#[test]
fn dead_enemy_is_inert() {
    let mut e = Enemy {
        pos: Vec2 { x: 64_000, y: 32_000 },
        vel: Vec2 { x: 0, y: 0 },
        dir: Dir::E,
        dead: false,
        change_dir_timer: 4000,
        anim: AnimationState { animation: AnimationKey::EnemyLeftWalk, t: 0 },
    };
    assert_eq!(e.rect(), Rect { x: 52_000, y: 24_000, w: 24_000, h: 8_000 });
    e.die();
    assert!(e.dead);
    assert_eq!(e.rect(), Rect { x: 0, y: 0, w: 0, h: 0 });
    assert_eq!(e.trf().w, 0);
    assert_eq!(e.query_rect().w, 0);
}

#[test]
fn trigger_collider_is_centred_sixteen_square() {
    let m = Mud { pos: Vec2 { x: 48_000, y: 16_000 } };
    let r = platcore::entity::trigger_rect(m.pos);
    assert_eq!(r, Rect { x: 40_000, y: 8_000, w: 16_000, h: 16_000 });
}

#[test]
fn camera_follow_steps_and_clamps() {
    let mut cam = Camera {
        screen_pos: Vec2 { x: 0, y: 0 },
        screen_size: Vec2 { x: 256_000, y: 192_000 },
    };
    cam.follow(Vec2 { x: 300_000, y: 0 }, 64_000, 512_000, 192_000);
    // stepped up to the far margin: 300000 <= x + 256000 - 64000
    assert_eq!(cam.screen_pos.x, 108_000);
    assert_eq!(cam.screen_pos.y, 0);
}
