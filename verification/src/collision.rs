//! Contact gathering and sequential push-out resolution: player and enemy
//! colliders against the solid tiles of the level grid, and rectangle lists
//! against each other for the trigger zones.

use vstd::prelude::*;
use crate::entity::{Enemy, Player};
use crate::geom::{
    compute_disp, disp_x_spec, disp_y_spec, overlap_x, overlap_y, rects_intersect, Dir, Rect, Vec2,
};
use crate::level::{Level, TileDescriptor};

verus! {

/// Largest number of contacts one resolution pass accepts; keeps the total
/// push-out drift of a pass far inside the entity position bounds.
pub const CONTACTS_MAX: usize = 100_000;

/// One collision record: the indices and rectangles of the two sides and the
/// overlap extents between them. Produced per collision query and never kept
/// across a tick.
#[derive(Clone, Copy, Debug, PartialEq, Eq, Structural)]
pub struct Contact {
    pub a_index: usize,
    pub a_rect: Rect,
    pub b_index: usize,
    pub b_rect: Rect,
    pub displacement: Vec2,
}

/// The contact made of query rectangle `q` (side A, index `a_index`) and
/// rectangle `b` (index `b_index`).
pub open spec fn contact_of(a_index: int, q: Rect, b_index: int, b: Rect) -> Contact {
    Contact {
        a_index: a_index as usize,
        a_rect: q,
        b_index: b_index as usize,
        b_rect: b,
        displacement: Vec2 { x: overlap_x(q, b) as i64, y: overlap_y(q, b) as i64 },
    }
}

/// Contacts of query rectangle `q` against the given tile entries, in entry
/// order: one per solid tile that positively overlaps `q`.
pub open spec fn contacts_from_tiles(
    entries: Seq<(Rect, TileDescriptor)>,
    q: Rect,
    a_index: int,
) -> Seq<Contact>
    decreases entries.len(),
{
    if entries.len() == 0 {
        Seq::empty()
    } else {
        let rest = contacts_from_tiles(entries.drop_last(), q, a_index);
        let last = entries.last();
        if last.1.solid && rects_intersect(q, last.0) {
            rest + seq![contact_of(a_index, q, 0, last.0)]
        } else {
            rest
        }
    }
}

/// Contacts of `q` against the solid tiles of `level` overlapping it.
pub open spec fn tile_contacts_spec(level: Level, q: Rect, a_index: int) -> Seq<Contact> {
    contacts_from_tiles(level.tiles_within_spec(q), q, a_index)
}

/// Tile contacts of every rectangle of `rects` in order, each tagged with its
/// index in `rects`.
pub open spec fn all_tile_contacts(level: Level, rects: Seq<Rect>) -> Seq<Contact>
    decreases rects.len(),
{
    if rects.len() == 0 {
        Seq::empty()
    } else {
        all_tile_contacts(level, rects.drop_last()) + tile_contacts_spec(
            level,
            rects.last(),
            rects.len() - 1,
        )
    }
}

/// Contacts of rectangle `a` (index `a_index`) against each rectangle of
/// `bs`, in order.
pub open spec fn row_contacts(a: Rect, a_index: int, bs: Seq<Rect>) -> Seq<Contact>
    decreases bs.len(),
{
    if bs.len() == 0 {
        Seq::empty()
    } else {
        let rest = row_contacts(a, a_index, bs.drop_last());
        if rects_intersect(a, bs.last()) {
            rest + seq![contact_of(a_index, a, bs.len() - 1, bs.last())]
        } else {
            rest
        }
    }
}

/// Contacts of every pair of one rectangle of `as_` and one of `bs`, outer
/// loop over `as_`.
pub open spec fn pair_contacts(as_: Seq<Rect>, bs: Seq<Rect>) -> Seq<Contact>
    decreases as_.len(),
{
    if as_.len() == 0 {
        Seq::empty()
    } else {
        pair_contacts(as_.drop_last(), bs) + row_contacts(as_.last(), as_.len() - 1, bs)
    }
}

/// Append to `contacts` one contact per solid level tile positively
/// overlapping each rectangle of `rects`, in rectangle-then-tile order.
pub fn gather_contacts_tiles(rects: &Vec<Rect>, level: &Level, contacts: &mut Vec<Contact>)
    requires
        level.wf(),
        forall|i: int| 0 <= i < rects@.len() ==> (#[trigger] rects@[i]).wf(),
    ensures
        final(contacts)@ == old(contacts)@ + all_tile_contacts(*level, rects@),
{
    let ghost base = contacts@;
    let mut ri: usize = 0;
    while ri < rects.len()
        invariant
            level.wf(),
            forall|i: int| 0 <= i < rects@.len() ==> (#[trigger] rects@[i]).wf(),
            0 <= ri <= rects@.len(),
            contacts@ == base + all_tile_contacts(*level, rects@.subrange(0, ri as int)),
        decreases rects@.len() - ri,
    {
        let rect = rects[ri];
        let entries = level.tiles_within(rect);
        let mut j: usize = 0;
        while j < entries.len()
            invariant
                level.wf(),
                rect.wf(),
                rect == rects@[ri as int],
                0 <= ri < rects@.len(),
                forall|i: int| 0 <= i < rects@.len() ==> (#[trigger] rects@[i]).wf(),
                0 <= j <= entries@.len(),
                entries@ == level.tiles_within_spec(rect),
                contacts@ == base + all_tile_contacts(*level, rects@.subrange(0, ri as int))
                    + contacts_from_tiles(entries@.subrange(0, j as int), rect, ri as int),
            decreases entries@.len() - j,
        {
            let (tr, td) = entries[j];
            proof {
                crate::level::lemma_tiles_within_entry(*level, rect, j as int);
            }
            if td.solid {
                if let Some(displacement) = rect.overlap(tr) {
                    contacts.push(
                        Contact { a_index: ri, a_rect: rect, b_index: 0, b_rect: tr, displacement },
                    );
                }
            }
            proof {
                assert(entries@.subrange(0, j + 1).drop_last() =~= entries@.subrange(0, j as int));
                assert(entries@.subrange(0, j + 1).last() == entries@[j as int]);
            }
            j += 1;
        }
        proof {
            assert(entries@.subrange(0, entries@.len() as int) =~= entries@);
            assert(rects@.subrange(0, ri + 1).drop_last() =~= rects@.subrange(0, ri as int));
            assert(rects@.subrange(0, ri + 1).last() == rects@[ri as int]);
        }
        ri += 1;
    }
    proof {
        assert(rects@.subrange(0, rects@.len() as int) =~= rects@);
    }
}

/// Append to `contacts` one contact per overlapping pair of one rectangle of
/// `rects_a` and one of `rects_b`, outer loop over `rects_a`.
pub fn gather_contacts(rects_a: &Vec<Rect>, rects_b: &Vec<Rect>, contacts: &mut Vec<Contact>)
    requires
        forall|i: int| 0 <= i < rects_a@.len() ==> (#[trigger] rects_a@[i]).wf(),
        forall|i: int| 0 <= i < rects_b@.len() ==> (#[trigger] rects_b@[i]).wf(),
    ensures
        final(contacts)@ == old(contacts)@ + pair_contacts(rects_a@, rects_b@),
{
    let ghost base = contacts@;
    let mut ai: usize = 0;
    while ai < rects_a.len()
        invariant
            forall|i: int| 0 <= i < rects_a@.len() ==> (#[trigger] rects_a@[i]).wf(),
            forall|i: int| 0 <= i < rects_b@.len() ==> (#[trigger] rects_b@[i]).wf(),
            0 <= ai <= rects_a@.len(),
            contacts@ == base + pair_contacts(rects_a@.subrange(0, ai as int), rects_b@),
        decreases rects_a@.len() - ai,
    {
        let a = rects_a[ai];
        let mut bi: usize = 0;
        while bi < rects_b.len()
            invariant
                forall|i: int| 0 <= i < rects_a@.len() ==> (#[trigger] rects_a@[i]).wf(),
                forall|i: int| 0 <= i < rects_b@.len() ==> (#[trigger] rects_b@[i]).wf(),
                0 <= ai < rects_a@.len(),
                a == rects_a@[ai as int],
                0 <= bi <= rects_b@.len(),
                contacts@ == base + pair_contacts(rects_a@.subrange(0, ai as int), rects_b@)
                    + row_contacts(a, ai as int, rects_b@.subrange(0, bi as int)),
        decreases rects_b@.len() - bi,
        {
            let b = rects_b[bi];
            if let Some(displacement) = a.overlap(b) {
                contacts.push(
                    Contact { a_index: ai, a_rect: a, b_index: bi, b_rect: b, displacement },
                );
            }
            proof {
                assert(rects_b@.subrange(0, bi + 1).drop_last() =~= rects_b@.subrange(
                    0,
                    bi as int,
                ));
                assert(rects_b@.subrange(0, bi + 1).last() == rects_b@[bi as int]);
            }
            bi += 1;
        }
        proof {
            assert(rects_b@.subrange(0, rects_b@.len() as int) =~= rects_b@);
            assert(rects_a@.subrange(0, ai + 1).drop_last() =~= rects_a@.subrange(0, ai as int));
            assert(rects_a@.subrange(0, ai + 1).last() == rects_a@[ai as int]);
        }
        ai += 1;
    }
    proof {
        assert(rects_a@.subrange(0, rects_a@.len() as int) =~= rects_a@);
    }
}

/// The state sequential tile resolution folds over: position, vertical
/// velocity, grounded flag.
pub ghost struct ResolveState {
    pub px: int,
    pub py: int,
    pub vy: int,
    pub grounded: bool,
}

/// The player collider hung at an arbitrary position (the fold recomputes the
/// rectangle from the already-updated position at every step).
pub open spec fn player_rect_at(dir: Dir, px: int, py: int) -> Rect {
    Rect {
        x: (px + if dir is E {
            8_000int
        } else {
            12_000int
        }) as i64,
        y: (py - 12_000) as i64,
        w: 16_000,
        h: 24_000,
    }
}

/// Sequential resolution of a player against its tile contacts, first contact
/// first: each push-out is computed against the already-updated position; a
/// positive-y push (a floor below) grounds the player and zeroes its vertical
/// velocity.
pub open spec fn resolve_player_fold(dir: Dir, s: ResolveState, contacts: Seq<Contact>) -> ResolveState
    decreases contacts.len(),
{
    if contacts.len() == 0 {
        s
    } else {
        let c = contacts.first();
        let r = player_rect_at(dir, s.px, s.py);
        let dx = disp_x_spec(r, c.b_rect);
        let dy = disp_y_spec(r, c.b_rect);
        let s2 = ResolveState {
            px: s.px + dx,
            py: s.py + dy,
            vy: if dy > 0 {
                0
            } else {
                s.vy
            },
            grounded: if dy > 0 {
                true
            } else {
                s.grounded
            },
        };
        resolve_player_fold(dir, s2, contacts.skip(1))
    }
}

/// Resolve a player against its gathered tile contacts: clear the grounded
/// flag, then apply each contact's push-out to the position in order,
/// grounding the player and zeroing vertical velocity on any positive-y push.
pub fn resolve_player_tiles(p: &mut Player, contacts: &Vec<Contact>)
    requires
        old(p).wf(),
        -2_000_000_000 <= old(p).pos.x <= 2_000_000_000,
        -2_000_000_000 <= old(p).pos.y <= 2_000_000_000,
        contacts@.len() <= CONTACTS_MAX,
        forall|i: int|
            0 <= i < contacts@.len() ==> (#[trigger] contacts@[i]).b_rect.wf()
                && contacts@[i].b_rect.w <= 16_000 && contacts@[i].b_rect.h <= 16_000,
    ensures
        ({
            let s = resolve_player_fold(
                old(p).dir,
                ResolveState {
                    px: old(p).pos.x as int,
                    py: old(p).pos.y as int,
                    vy: old(p).vel.y as int,
                    grounded: false,
                },
                contacts@,
            );
            &&& final(p).pos.x == s.px
            &&& final(p).pos.y == s.py
            &&& final(p).vel.y == s.vy
            &&& final(p).grounded == s.grounded
        }),
        final(p).vel.x == old(p).vel.x,
        final(p).dir == old(p).dir,
        final(p).anim == old(p).anim,
        final(p).jumping == old(p).jumping,
        final(p).jump_timer == old(p).jump_timer,
        final(p).attack_timer == old(p).attack_timer,
        final(p).touching_door == old(p).touching_door,
        final(p).touching_mud == old(p).touching_mud,
        final(p).ground_threshold == old(p).ground_threshold,
        old(p).pos.x - 16_000 * contacts@.len() <= final(p).pos.x <= old(p).pos.x + 16_000
            * contacts@.len(),
        old(p).pos.y - 16_000 * contacts@.len() <= final(p).pos.y <= old(p).pos.y + 16_000
            * contacts@.len(),
        final(p).wf(),
{
    let ghost s0 = ResolveState {
        px: old(p).pos.x as int,
        py: old(p).pos.y as int,
        vy: old(p).vel.y as int,
        grounded: false,
    };
    p.grounded = false;
    let mut i: usize = 0;
    proof {
        assert(contacts@.skip(0) =~= contacts@);
    }
    while i < contacts.len()
        invariant
            0 <= i <= contacts@.len(),
            contacts@.len() <= CONTACTS_MAX,
            forall|k: int|
                0 <= k < contacts@.len() ==> (#[trigger] contacts@[k]).b_rect.wf()
                    && contacts@[k].b_rect.w <= 16_000 && contacts@[k].b_rect.h <= 16_000,
            p.wf(),
            old(p).pos.x - 16_000 * i <= p.pos.x <= old(p).pos.x + 16_000 * i,
            old(p).pos.y - 16_000 * i <= p.pos.y <= old(p).pos.y + 16_000 * i,
            -2_000_000_000 <= old(p).pos.x <= 2_000_000_000,
            -2_000_000_000 <= old(p).pos.y <= 2_000_000_000,
            p.vel.x == old(p).vel.x,
            p.dir == old(p).dir,
            p.anim == old(p).anim,
            p.jumping == old(p).jumping,
            p.jump_timer == old(p).jump_timer,
            p.attack_timer == old(p).attack_timer,
            p.touching_door == old(p).touching_door,
            p.touching_mud == old(p).touching_mud,
            p.ground_threshold == old(p).ground_threshold,
            resolve_player_fold(old(p).dir, s0, contacts@) == resolve_player_fold(
                old(p).dir,
                ResolveState {
                    px: p.pos.x as int,
                    py: p.pos.y as int,
                    vy: p.vel.y as int,
                    grounded: p.grounded,
                },
                contacts@.skip(i as int),
            ),
        decreases contacts@.len() - i,
    {
        let c = contacts[i];
        let ghost s_pre = ResolveState {
            px: p.pos.x as int,
            py: p.pos.y as int,
            vy: p.vel.y as int,
            grounded: p.grounded,
        };
        let disp = compute_disp(p.rect(), c.b_rect);
        proof {
            assert(crate::entity::player_rect_spec(*p) == player_rect_at(
                p.dir,
                p.pos.x as int,
                p.pos.y as int,
            ));
            crate::geom::lemma_disp_bound(
                player_rect_at(p.dir, p.pos.x as int, p.pos.y as int),
                c.b_rect,
            );
        }
        p.pos.x = p.pos.x + disp.x;
        p.pos.y = p.pos.y + disp.y;
        if disp.y > 0 {
            p.grounded = true;
            p.vel.y = 0;
        }
        proof {
            assert(contacts@.skip(i as int).first() == contacts@[i as int]);
            assert(contacts@.skip(i as int).skip(1) =~= contacts@.skip(i + 1));
        }
        i += 1;
    }
    proof {
        assert(contacts@.skip(contacts@.len() as int) =~= Seq::<Contact>::empty());
    }
}

/// Sequential resolution of the enemies against their gathered tile contacts:
/// each contact pushes its enemy's position by the displacement computed from
/// the rectangles recorded at gather time.
pub open spec fn enemy_positions_fold(ps: Seq<(int, int)>, contacts: Seq<Contact>) -> Seq<(int, int)>
    decreases contacts.len(),
{
    if contacts.len() == 0 {
        ps
    } else {
        let c = contacts.first();
        let dx = disp_x_spec(c.a_rect, c.b_rect);
        let dy = disp_y_spec(c.a_rect, c.b_rect);
        let ps2 = if 0 <= c.a_index < ps.len() {
            ps.update(c.a_index as int, (ps[c.a_index as int].0 + dx, ps[c.a_index as int].1 + dy))
        } else {
            ps
        };
        enemy_positions_fold(ps2, contacts.skip(1))
    }
}

/// Positions of a list of enemies, as the fold state.
pub open spec fn enemy_positions(es: Seq<Enemy>) -> Seq<(int, int)> {
    es.map(|i: int, e: Enemy| (e.pos.x as int, e.pos.y as int))
}

/// Resolve every enemy against the tile contacts gathered from its query
/// rectangle: apply each contact's push-out, computed from the rectangles
/// recorded at gather time, to the indexed enemy's position, in order.
pub fn resolve_enemy_tiles(enemies: &mut Vec<Enemy>, contacts: &Vec<Contact>)
    requires
        forall|i: int| 0 <= i < old(enemies)@.len() ==> (#[trigger] old(enemies)@[i]).wf(),
        forall|i: int|
            0 <= i < old(enemies)@.len() ==> -2_000_000_000 <= (#[trigger] old(enemies)@[i]).pos.x
                <= 2_000_000_000 && -2_000_000_000 <= old(enemies)@[i].pos.y <= 2_000_000_000,
        contacts@.len() <= CONTACTS_MAX,
        forall|i: int|
            0 <= i < contacts@.len() ==> (#[trigger] contacts@[i]).a_rect.wf()
                && contacts@[i].b_rect.wf() && contacts@[i].b_rect.w <= 16_000
                && contacts@[i].b_rect.h <= 16_000 && contacts@[i].a_index < old(enemies)@.len(),
    ensures
        final(enemies)@.len() == old(enemies)@.len(),
        ({
            let ps = enemy_positions_fold(enemy_positions(old(enemies)@), contacts@);
            forall|i: int|
                0 <= i < final(enemies)@.len() ==> (#[trigger] final(enemies)@[i]) == (Enemy {
                    pos: Vec2 { x: ps[i].0 as i64, y: ps[i].1 as i64 },
                    ..old(enemies)@[i]
                })
        }),
        forall|i: int| 0 <= i < final(enemies)@.len() ==> (#[trigger] final(enemies)@[i]).wf(),
        forall|i: int|
            0 <= i < final(enemies)@.len() ==> old(enemies)@[i].pos.x - 16_000 * contacts@.len()
                <= (#[trigger] final(enemies)@[i]).pos.x <= old(enemies)@[i].pos.x + 16_000
                * contacts@.len() && old(enemies)@[i].pos.y - 16_000 * contacts@.len()
                <= final(enemies)@[i].pos.y <= old(enemies)@[i].pos.y + 16_000 * contacts@.len(),
{
    let ghost ps0 = enemy_positions(old(enemies)@);
    let mut i: usize = 0;
    proof {
        assert(contacts@.skip(0) =~= contacts@);
    }
    while i < contacts.len()
        invariant
            0 <= i <= contacts@.len(),
            contacts@.len() <= CONTACTS_MAX,
            enemies@.len() == old(enemies)@.len(),
            forall|k: int|
                0 <= k < contacts@.len() ==> (#[trigger] contacts@[k]).a_rect.wf()
                    && contacts@[k].b_rect.wf() && contacts@[k].b_rect.w <= 16_000
                    && contacts@[k].b_rect.h <= 16_000 && contacts@[k].a_index < enemies@.len(),
            forall|k: int|
                0 <= k < enemies@.len() ==> old(enemies)@[k].pos.x - 16_000 * i <= (
                #[trigger] enemies@[k]).pos.x <= old(enemies)@[k].pos.x + 16_000 * i && old(
                enemies)@[k].pos.y - 16_000 * i <= enemies@[k].pos.y <= old(enemies)@[k].pos.y
                    + 16_000 * i,
            forall|k: int| 0 <= k < enemies@.len() ==> (#[trigger] enemies@[k]).wf(),
            forall|k: int|
                0 <= k < old(enemies)@.len() ==> -2_000_000_000 <= (
                #[trigger] old(enemies)@[k]).pos.x <= 2_000_000_000 && -2_000_000_000 <= old(
                enemies)@[k].pos.y <= 2_000_000_000,
            forall|k: int|
                0 <= k < enemies@.len() ==> (#[trigger] enemies@[k]) == (Enemy {
                    pos: enemies@[k].pos,
                    ..old(enemies)@[k]
                }),
            enemy_positions_fold(ps0, contacts@) == enemy_positions_fold(
                enemy_positions(enemies@),
                contacts@.skip(i as int),
            ),
        decreases contacts@.len() - i,
    {
        let c = contacts[i];
        let disp = compute_disp(c.a_rect, c.b_rect);
        proof {
            crate::geom::lemma_disp_bound(c.a_rect, c.b_rect);
        }
        let idx = c.a_index;
        let ghost pre = enemies@;
        let mut e = enemies[idx];
        e.pos.x = e.pos.x + disp.x;
        e.pos.y = e.pos.y + disp.y;
        enemies[idx] = e;
        proof {
            assert(contacts@.skip(i as int).first() == contacts@[i as int]);
            assert(contacts@.skip(i as int).skip(1) =~= contacts@.skip(i + 1));
            assert(enemy_positions(enemies@) =~= enemy_positions(pre).update(
                idx as int,
                (pre[idx as int].pos.x + disp.x, pre[idx as int].pos.y + disp.y),
            ));
        }
        i += 1;
    }
    proof {
        assert(contacts@.skip(contacts@.len() as int) =~= Seq::<Contact>::empty());
    }
}

/// Contacts gathered against tile entries never outnumber the entries.
pub proof fn lemma_contacts_from_tiles_len(
    entries: Seq<(Rect, TileDescriptor)>,
    q: Rect,
    a_index: int,
)
    ensures
        contacts_from_tiles(entries, q, a_index).len() <= entries.len(),
    decreases entries.len(),
{
    if entries.len() > 0 {
        lemma_contacts_from_tiles_len(entries.drop_last(), q, a_index);
    }
}

/// Tile contacts of a list of collider-sized rectangles: at most 9 per
/// rectangle.
pub proof fn lemma_all_tile_contacts_len(level: Level, rects: Seq<Rect>)
    requires
        level.wf(),
        forall|i: int|
            0 <= i < rects.len() ==> (#[trigger] rects[i]).wf() && rects[i].w <= 24_000
                && rects[i].h <= 24_000,
    ensures
        all_tile_contacts(level, rects).len() <= 9 * rects.len(),
    decreases rects.len(),
{
    if rects.len() > 0 {
        lemma_all_tile_contacts_len(level, rects.drop_last());
        crate::level::lemma_small_query_range(level, rects.last());
        lemma_contacts_from_tiles_len(
            level.tiles_within_spec(rects.last()),
            rects.last(),
            rects.len() - 1,
        );
    }
}

/// Each contact from a tile gather records its query rectangle and index,
/// and a well-formed tile rectangle of the level as side B.
pub proof fn lemma_contacts_from_tiles_sound(
    level: Level,
    entries: Seq<(Rect, TileDescriptor)>,
    q: Rect,
    a_index: int,
    k: int,
)
    requires
        level.wf(),
        q.wf(),
        entries == level.tiles_within_spec(q),
        0 <= a_index <= 1_000_000,
        0 <= k < contacts_from_tiles(entries, q, a_index).len(),
    ensures
        ({
            let c = contacts_from_tiles(entries, q, a_index)[k];
            &&& c.a_index == a_index
            &&& c.a_rect == q
            &&& c.b_rect.wf()
            &&& c.b_rect.w == 16_000
            &&& c.b_rect.h == 16_000
            &&& rects_intersect(c.a_rect, c.b_rect)
        }),
{
    assert(entries.take(entries.len() as int) =~= entries);
    lemma_contacts_sound_rec(level, entries, entries.len() as int, q, a_index, k);
}

/// Helper for the soundness of tile contacts: induction over entry prefixes.
proof fn lemma_contacts_sound_rec(
    level: Level,
    entries: Seq<(Rect, TileDescriptor)>,
    n: int,
    q: Rect,
    a_index: int,
    k: int,
)
    requires
        level.wf(),
        q.wf(),
        entries == level.tiles_within_spec(q),
        0 <= a_index <= 1_000_000,
        0 <= n <= entries.len(),
        0 <= k < contacts_from_tiles(entries.take(n), q, a_index).len(),
    ensures
        ({
            let c = contacts_from_tiles(entries.take(n), q, a_index)[k];
            &&& c.a_index == a_index
            &&& c.a_rect == q
            &&& c.b_rect.wf()
            &&& c.b_rect.w == 16_000
            &&& c.b_rect.h == 16_000
            &&& rects_intersect(c.a_rect, c.b_rect)
        }),
    decreases n,
{
    let pre = entries.take(n);
    assert(pre.len() == n);
    if n > 0 {
        assert(pre.drop_last() =~= entries.take(n - 1));
        let rest = contacts_from_tiles(entries.take(n - 1), q, a_index);
        if k < rest.len() {
            lemma_contacts_sound_rec(level, entries, n - 1, q, a_index, k);
        } else {
            assert(pre.last() == entries[n - 1]);
            crate::level::lemma_tiles_within_entry(level, q, n - 1);
        }
    }
}

/// Each contact from a tile gather over a rectangle list is tagged with an
/// in-range rectangle index, records that rectangle as side A, and a
/// well-formed level tile as side B.
pub proof fn lemma_all_tile_contacts_sound(level: Level, rects: Seq<Rect>, k: int)
    requires
        level.wf(),
        rects.len() <= 1_000_000,
        forall|i: int| 0 <= i < rects.len() ==> (#[trigger] rects[i]).wf(),
        0 <= k < all_tile_contacts(level, rects).len(),
    ensures
        ({
            let c = all_tile_contacts(level, rects)[k];
            &&& 0 <= c.a_index < rects.len()
            &&& c.a_rect == rects[c.a_index as int]
            &&& c.b_rect.wf()
            &&& c.b_rect.w == 16_000
            &&& c.b_rect.h == 16_000
            &&& rects_intersect(c.a_rect, c.b_rect)
        }),
    decreases rects.len(),
{
    if rects.len() > 0 {
        let rest = all_tile_contacts(level, rects.drop_last());
        if k < rest.len() {
            lemma_all_tile_contacts_sound(level, rects.drop_last(), k);
        } else {
            lemma_contacts_from_tiles_sound(
                level,
                level.tiles_within_spec(rects.last()),
                rects.last(),
                rects.len() - 1,
                k - rest.len(),
            );
        }
    }
}

/// Each contact from a pair gather is tagged with in-range indices and
/// records the two indexed rectangles.
pub proof fn lemma_pair_contacts_sound(as_: Seq<Rect>, bs: Seq<Rect>, k: int)
    requires
        as_.len() <= 1_000_000,
        bs.len() <= 1_000_000,
        0 <= k < pair_contacts(as_, bs).len(),
    ensures
        ({
            let c = pair_contacts(as_, bs)[k];
            &&& 0 <= c.a_index < as_.len()
            &&& c.a_rect == as_[c.a_index as int]
            &&& 0 <= c.b_index < bs.len()
            &&& c.b_rect == bs[c.b_index as int]
            &&& crate::geom::rects_intersect(c.a_rect, c.b_rect)
        }),
    decreases as_.len(),
{
    if as_.len() > 0 {
        let rest = pair_contacts(as_.drop_last(), bs);
        if k < rest.len() {
            lemma_pair_contacts_sound(as_.drop_last(), bs, k);
        } else {
            assert(bs.take(bs.len() as int) =~= bs);
            lemma_row_contacts_sound(as_.last(), as_.len() - 1, bs, bs.len() as int, k - rest.len());
        }
    }
}

/// Helper for pair-gather soundness: one row, by induction over prefixes of
/// the B list.
proof fn lemma_row_contacts_sound(a: Rect, a_index: int, bs: Seq<Rect>, n: int, k: int)
    requires
        0 <= a_index <= 1_000_000,
        bs.len() <= 1_000_000,
        0 <= n <= bs.len(),
        0 <= k < row_contacts(a, a_index, bs.take(n)).len(),
        bs.take(bs.len() as int) == bs,
    ensures
        ({
            let c = row_contacts(a, a_index, bs.take(n))[k];
            &&& c.a_index == a_index
            &&& c.a_rect == a
            &&& 0 <= c.b_index < n
            &&& c.b_rect == bs[c.b_index as int]
            &&& crate::geom::rects_intersect(c.a_rect, c.b_rect)
        }),
    decreases n,
{
    let pre = bs.take(n);
    assert(pre.len() == n);
    if n > 0 {
        assert(pre.drop_last() =~= bs.take(n - 1));
        let rest = row_contacts(a, a_index, bs.take(n - 1));
        if k < rest.len() {
            lemma_row_contacts_sound(a, a_index, bs, n - 1, k);
        } else {
            assert(pre.last() == bs[n - 1]);
        }
    }
}

/// An enemy that no contact points at keeps its position through the
/// resolution fold.
pub proof fn lemma_enemy_fold_untouched(ps: Seq<(int, int)>, contacts: Seq<Contact>, i: int)
    requires
        0 <= i < ps.len(),
        forall|k: int| 0 <= k < contacts.len() ==> (#[trigger] contacts[k]).a_index != i,
    ensures
        enemy_positions_fold(ps, contacts)[i] == ps[i],
        enemy_positions_fold(ps, contacts).len() == ps.len(),
    decreases contacts.len(),
{
    if contacts.len() > 0 {
        let c = contacts.first();
        assert(c == contacts[0]);
        let dx = disp_x_spec(c.a_rect, c.b_rect);
        let dy = disp_y_spec(c.a_rect, c.b_rect);
        let ps2 = if 0 <= c.a_index < ps.len() {
            ps.update(c.a_index as int, (ps[c.a_index as int].0 + dx, ps[c.a_index as int].1 + dy))
        } else {
            ps
        };
        assert(ps2[i] == ps[i]);
        assert(forall|k: int|
            0 <= k < contacts.skip(1).len() ==> (#[trigger] contacts.skip(1)[k]) == contacts[k + 1]);
        lemma_enemy_fold_untouched(ps2, contacts.skip(1), i);
    }
}

/// Every overlapped rectangle of the B list shows up in a row gather: the
/// gather misses nothing.
pub proof fn lemma_row_contacts_complete(a: Rect, a_index: int, bs: Seq<Rect>, j: int)
    requires
        0 <= j < bs.len(),
        rects_intersect(a, bs[j]),
        0 <= a_index <= 1_000_000,
        bs.len() <= 1_000_000,
    ensures
        exists|k: int|
            0 <= k < row_contacts(a, a_index, bs).len() && (#[trigger] row_contacts(
                a,
                a_index,
                bs,
            )[k]).b_index == j,
    decreases bs.len(),
{
    let cs = row_contacts(a, a_index, bs);
    let rest = row_contacts(a, a_index, bs.drop_last());
    if j == bs.len() - 1 {
        assert(cs[rest.len() as int].b_index == j);
    } else {
        assert(bs.drop_last()[j] == bs[j]);
        lemma_row_contacts_complete(a, a_index, bs.drop_last(), j);
        let k = choose|k: int|
            0 <= k < rest.len() && (#[trigger] rest[k]).b_index == j;
        assert(cs[k].b_index == j);
    }
}

/// A grounded, vertically-still resolve state stays grounded and still
/// through the rest of the contacts: later push-outs can only re-ground it.
pub proof fn lemma_resolve_keeps_grounded(dir: Dir, s: ResolveState, contacts: Seq<Contact>)
    requires
        s.grounded,
        s.vy == 0,
    ensures
        resolve_player_fold(dir, s, contacts).grounded,
        resolve_player_fold(dir, s, contacts).vy == 0,
    decreases contacts.len(),
{
    if contacts.len() > 0 {
        let c = contacts.first();
        let r = player_rect_at(dir, s.px, s.py);
        let dy = disp_y_spec(r, c.b_rect);
        let s2 = ResolveState {
            px: s.px + disp_x_spec(r, c.b_rect),
            py: s.py + dy,
            vy: if dy > 0 {
                0
            } else {
                s.vy
            },
            grounded: if dy > 0 {
                true
            } else {
                s.grounded
            },
        };
        lemma_resolve_keeps_grounded(dir, s2, contacts.skip(1));
    }
}

/// Resolution folds compose: resolving all contacts equals resolving the
/// first `i` and then the rest from the intermediate state.
pub proof fn lemma_resolve_fold_split(dir: Dir, s: ResolveState, contacts: Seq<Contact>, i: int)
    requires
        0 <= i <= contacts.len(),
    ensures
        resolve_player_fold(dir, s, contacts) == resolve_player_fold(
            dir,
            resolve_player_fold(dir, s, contacts.take(i)),
            contacts.skip(i),
        ),
    decreases i,
{
    if i == 0 {
        assert(contacts.take(0) =~= Seq::<Contact>::empty());
        assert(contacts.skip(0) =~= contacts);
    } else {
        let c = contacts.first();
        let r = player_rect_at(dir, s.px, s.py);
        let dy = disp_y_spec(r, c.b_rect);
        let s2 = ResolveState {
            px: s.px + disp_x_spec(r, c.b_rect),
            py: s.py + dy,
            vy: if dy > 0 {
                0
            } else {
                s.vy
            },
            grounded: if dy > 0 {
                true
            } else {
                s.grounded
            },
        };
        assert(contacts.take(i).first() == c);
        assert(contacts.take(i).skip(1) =~= contacts.skip(1).take(i - 1));
        lemma_resolve_fold_split(dir, s2, contacts.skip(1), i - 1);
        assert(contacts.skip(1).skip(i - 1) =~= contacts.skip(i));
    }
}

/// A floor beneath the player grounds it within the same resolution pass: if
/// any contact's push-out, computed at the already-updated position, points
/// up (a solid tile below), the pass ends grounded with vertical velocity 0.
pub proof fn law_floor_contact_grounds(dir: Dir, s: ResolveState, contacts: Seq<Contact>, i: int)
    requires
        0 <= i < contacts.len(),
        ({
            let si = resolve_player_fold(dir, s, contacts.take(i));
            disp_y_spec(player_rect_at(dir, si.px, si.py), contacts[i].b_rect) > 0
        }),
    ensures
        resolve_player_fold(dir, s, contacts).grounded,
        resolve_player_fold(dir, s, contacts).vy == 0,
{
    let si = resolve_player_fold(dir, s, contacts.take(i));
    lemma_resolve_fold_split(dir, s, contacts, i);
    let rest = contacts.skip(i);
    assert(rest.first() == contacts[i]);
    let r = player_rect_at(dir, si.px, si.py);
    let dy = disp_y_spec(r, rest.first().b_rect);
    let s2 = ResolveState {
        px: si.px + disp_x_spec(r, rest.first().b_rect),
        py: si.py + dy,
        vy: 0,
        grounded: true,
    };
    assert(resolve_player_fold(dir, si, rest) == resolve_player_fold(dir, s2, rest.skip(1)));
    lemma_resolve_keeps_grounded(dir, s2, rest.skip(1));
}

} // verus!
