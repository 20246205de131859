//! The tile-grid level: solidity lookup by world-rectangle query, grid-to-world
//! conversion, pixel dimensions, and the named spawn points the entities are
//! built from.

use vstd::prelude::*;
use crate::geom::{Rect, Vec2};

verus! {

/// Side of one square tile, in sub-pixels (16 pixels).
pub const TILE_SUB: i64 = 16_000;

/// Largest grid dimension, in tiles.
pub const GRID_MAX: usize = 4096;

/// Largest number of spawn points a level may carry.
pub const STARTS_MAX: usize = 10_000;

/// What a tile is, as far as collision cares: solid or not.
#[derive(Clone, Copy, Debug, PartialEq, Eq, Structural)]
pub struct TileDescriptor {
    pub solid: bool,
}

/// Kind of a spawn point: a player placement, an enemy, a mud puddle, or a
/// door carrying its target level name and target grid cell.
#[derive(Clone, Debug)]
pub enum EntityType {
    Player,
    Enemy,
    Mud,
    Door(String, u16, u16),
}

/// A level: a `width x height` grid of tiles with solidity flags (row 0 at the
/// bottom, y grows up), a name used to resolve door targets, and the spawn
/// points read from the level data.
#[derive(Debug)]
pub struct Level {
    pub name: String,
    pub width: usize,
    pub height: usize,
    pub solid: Vec<bool>,
    pub starts: Vec<(EntityType, Vec2)>,
}

/// World rectangle of the tile at grid cell `(col, row)`.
pub open spec fn tile_rect_spec(col: int, row: int) -> Rect {
    Rect {
        x: (col * TILE_SUB) as i64,
        y: (row * TILE_SUB) as i64,
        w: TILE_SUB,
        h: TILE_SUB,
    }
}

impl Level {
    pub open spec fn wf(self) -> bool {
        &&& 2 <= self.width <= GRID_MAX
        &&& 2 <= self.height <= GRID_MAX
        &&& self.solid@.len() == self.width * self.height
        &&& self.starts@.len() <= STARTS_MAX
        &&& forall|i: int|
            0 <= i < self.starts@.len() ==> {
                let p = (#[trigger] self.starts@[i]).1;
                0 <= p.x <= self.width * TILE_SUB && 0 <= p.y <= self.height * TILE_SUB
            }
        &&& forall|i: int|
            0 <= i < self.starts@.len() ==> ((#[trigger] self.starts@[i]).0 matches
            EntityType::Door(_t, c, r) ==> c < self.width && r < self.height)
    }

    /// Level width in pixels is `width * 16`; in sub-pixels:
    pub open spec fn pixel_w(self) -> int {
        self.width * TILE_SUB
    }

    pub open spec fn pixel_h(self) -> int {
        self.height * TILE_SUB
    }

    /// Solidity of the tile at `(col, row)` (row-major storage).
    pub open spec fn solid_at(self, col: int, row: int) -> bool {
        self.solid@[row * self.width + col]
    }

    /// Validate raw level data and assemble the level; nothing if the data
    /// breaks any grid bound, the solidity table has the wrong length, a spawn
    /// point lies outside the level, or a door targets a cell outside the
    /// grid.
    pub fn new(
        name: String,
        width: usize,
        height: usize,
        solid: Vec<bool>,
        starts: Vec<(EntityType, Vec2)>,
    ) -> (r: Option<Level>)
        ensures
            r is Some <==> (Level { name, width, height, solid, starts }).wf(),
            r matches Some(l) ==> l == (Level { name, width, height, solid, starts }) && l.wf(),
    {
        if width < 2 || width > GRID_MAX || height < 2 || height > GRID_MAX {
            return None;
        }
        proof {
            assert(width * height <= 4096 * 4096) by (nonlinear_arith)
                requires
                    0 <= width <= 4096,
                    0 <= height <= 4096,
            ;
        }
        if solid.len() != width * height {
            return None;
        }
        if starts.len() > STARTS_MAX {
            return None;
        }
        let pw: i64 = (width as i64) * TILE_SUB;
        let ph: i64 = (height as i64) * TILE_SUB;
        let mut i: usize = 0;
        while i < starts.len()
            invariant
                0 <= i <= starts@.len(),
                2 <= width <= GRID_MAX,
                2 <= height <= GRID_MAX,
                pw == width * TILE_SUB,
                ph == height * TILE_SUB,
                forall|j: int|
                    0 <= j < i ==> {
                        let p = (#[trigger] starts@[j]).1;
                        0 <= p.x <= width * TILE_SUB && 0 <= p.y <= height * TILE_SUB
                    },
                forall|j: int|
                    0 <= j < i ==> ((#[trigger] starts@[j]).0 matches EntityType::Door(_t, c, r)
                        ==> c < width && r < height),
            decreases starts@.len() - i,
        {
            let p = starts[i].1;
            if p.x < 0 || p.x > pw || p.y < 0 || p.y > ph {
                return None;
            }
            match &starts[i].0 {
                EntityType::Door(_t, c, r) => {
                    if (*c as usize) >= width || (*r as usize) >= height {
                        return None;
                    }
                },
                _ => {},
            }
            i += 1;
        }
        Some(Level { name, width, height, solid, starts })
    }

    /// The level's name, by which door targets refer to it.
    pub fn name(&self) -> (r: &String)
        ensures
            r@ == self.name@,
    {
        &self.name
    }

    /// Grid width, in tiles.
    pub fn width(&self) -> (r: usize)
        ensures
            r == self.width,
    {
        self.width
    }

    /// Grid height, in tiles.
    pub fn height(&self) -> (r: usize)
        ensures
            r == self.height,
    {
        self.height
    }

    /// The spawn points read from the level data.
    pub fn starts(&self) -> (r: &Vec<(EntityType, Vec2)>)
        ensures
            r == &self.starts,
    {
        &self.starts
    }

    /// How many sprite slots drawing the level's tiles takes: one per tile.
    pub fn sprite_count(&self) -> (r: usize)
        requires
            self.wf(),
        ensures
            r == self.width * self.height,
    {
        proof {
            assert(self.width * self.height <= 4096 * 4096) by (nonlinear_arith)
                requires
                    0 <= self.width <= 4096,
                    0 <= self.height <= 4096,
            ;
        }
        self.width * self.height
    }

    /// World position of the lower-left corner of grid cell `(col, row)`.
    pub fn grid_to_world(&self, col: usize, row: usize) -> (r: Vec2)
        requires
            self.wf(),
            col < self.width,
            row < self.height,
        ensures
            r.x == col * TILE_SUB,
            r.y == row * TILE_SUB,
    {
        Vec2 { x: (col as i64) * TILE_SUB, y: (row as i64) * TILE_SUB }
    }

    /// First column of the tile range enumerated for query rectangle `q`.
    pub open spec fn lo_col(self, q: Rect) -> int {
        if q.x <= 0 {
            0
        } else {
            q.x as int / TILE_SUB as int
        }
    }

    /// Last column (inclusive) of the tile range for `q`; below `lo_col` when
    /// the range is empty.
    pub open spec fn hi_col(self, q: Rect) -> int {
        let raw = if q.x + q.w <= 0 {
            -1
        } else {
            (q.x + q.w - 1) / TILE_SUB as int
        };
        if raw <= self.width - 1 {
            raw
        } else {
            self.width - 1
        }
    }

    pub open spec fn lo_row(self, q: Rect) -> int {
        if q.y <= 0 {
            0
        } else {
            q.y as int / TILE_SUB as int
        }
    }

    pub open spec fn hi_row(self, q: Rect) -> int {
        let raw = if q.y + q.h <= 0 {
            -1
        } else {
            (q.y + q.h - 1) / TILE_SUB as int
        };
        if raw <= self.height - 1 {
            raw
        } else {
            self.height - 1
        }
    }

    pub open spec fn n_cols(self, q: Rect) -> int {
        if self.hi_col(q) >= self.lo_col(q) {
            self.hi_col(q) - self.lo_col(q) + 1
        } else {
            0
        }
    }

    pub open spec fn n_rows(self, q: Rect) -> int {
        if self.hi_row(q) >= self.lo_row(q) {
            self.hi_row(q) - self.lo_row(q) + 1
        } else {
            0
        }
    }

    /// The exact sequence `tiles_within` returns: the tiles of the clamped
    /// index range covering `q`, row-major, each with its rectangle and
    /// solidity.
    pub open spec fn tiles_within_spec(self, q: Rect) -> Seq<(Rect, TileDescriptor)> {
        let nc = self.n_cols(q);
        let nr = self.n_rows(q);
        Seq::new(
            (nc * nr) as nat,
            |k: int|
                (
                    tile_rect_spec(self.lo_col(q) + k % nc, self.lo_row(q) + k / nc),
                    TileDescriptor {
                        solid: self.solid_at(self.lo_col(q) + k % nc, self.lo_row(q) + k / nc),
                    },
                ),
        )
    }

    /// All tiles overlapping the query rectangle, with their world rectangles
    /// and solidity flags, in row-major order. The enumerated index range is
    /// clamped to the grid and covers every tile that positively overlaps
    /// `q` (`lemma_tiles_within_covers`); tiles at the fringe of the range
    /// may touch `q` without positive overlap, so callers re-check `overlap`.
    pub fn tiles_within(&self, q: Rect) -> (r: Vec<(Rect, TileDescriptor)>)
        requires
            self.wf(),
            q.wf(),
        ensures
            r@ == self.tiles_within_spec(q),
    {
        let ghost gspec = self.tiles_within_spec(q);
        let mut out: Vec<(Rect, TileDescriptor)> = Vec::new();
        let lo_c: i64 = if q.x <= 0 {
            0
        } else {
            q.x / TILE_SUB
        };
        let hi_c_raw: i64 = if q.x + q.w <= 0 {
            -1
        } else {
            (q.x + q.w - 1) / TILE_SUB
        };
        let hi_c: i64 = if hi_c_raw <= (self.width as i64) - 1 {
            hi_c_raw
        } else {
            (self.width as i64) - 1
        };
        let lo_r: i64 = if q.y <= 0 {
            0
        } else {
            q.y / TILE_SUB
        };
        let hi_r_raw: i64 = if q.y + q.h <= 0 {
            -1
        } else {
            (q.y + q.h - 1) / TILE_SUB
        };
        let hi_r: i64 = if hi_r_raw <= (self.height as i64) - 1 {
            hi_r_raw
        } else {
            (self.height as i64) - 1
        };
        proof {
            assert(lo_c == self.lo_col(q));
            assert(hi_c == self.hi_col(q));
            assert(lo_r == self.lo_row(q));
            assert(hi_r == self.hi_row(q));
        }
        if hi_c < lo_c || hi_r < lo_r {
            proof {
                assert(gspec.len() == 0);
                assert(out@ =~= gspec);
            }
            return out;
        }
        let nc: i64 = hi_c - lo_c + 1;
        proof {
            assert((lo_r - lo_r) * (nc as int) == 0) by (nonlinear_arith);
            assert(nc == self.n_cols(q));
            assert(self.n_rows(q) == hi_r - lo_r + 1);
            assert(nc * self.n_rows(q) >= 0) by (nonlinear_arith)
                requires
                    nc >= 1,
                    self.n_rows(q) >= 1,
            ;
            assert(gspec.len() == nc * self.n_rows(q));
        }
        let mut row: i64 = lo_r;
        while row <= hi_r
            invariant
                self.wf(),
                q.wf(),
                lo_c == self.lo_col(q),
                hi_c == self.hi_col(q),
                lo_r == self.lo_row(q),
                hi_r == self.hi_row(q),
                lo_c <= hi_c,
                lo_r <= row,
                row <= hi_r + 1,
                gspec.len() == nc * (hi_r + 1 - lo_r),
                0 <= lo_c,
                hi_c <= self.width - 1,
                0 <= lo_r,
                hi_r <= self.height - 1,
                nc == self.n_cols(q),
                gspec == self.tiles_within_spec(q),
                out@.len() == (row - lo_r) * nc,
                out@.len() <= gspec.len(),
                forall|k: int| 0 <= k < out@.len() ==> out@[k] == gspec[k],
            decreases hi_r + 1 - row,
        {
            let mut col: i64 = lo_c;
            while col <= hi_c
                invariant
                    self.wf(),
                    q.wf(),
                    lo_c == self.lo_col(q),
                    hi_c == self.hi_col(q),
                    lo_r == self.lo_row(q),
                    hi_r == self.hi_row(q),
                    lo_c <= col,
                    col <= hi_c + 1,
                    lo_c <= hi_c,
                    lo_r <= row <= hi_r,
                    gspec.len() == nc * (hi_r + 1 - lo_r),
                    0 <= lo_c,
                    hi_c <= self.width - 1,
                    0 <= lo_r,
                    hi_r <= self.height - 1,
                    nc == self.n_cols(q),
                    gspec == self.tiles_within_spec(q),
                    out@.len() == (row - lo_r) * nc + (col - lo_c),
                    out@.len() <= gspec.len(),
                    forall|k: int| 0 <= k < out@.len() ==> out@[k] == gspec[k],
                decreases hi_c + 1 - col,
            {
                proof {
                    assert(row * self.width + col < self.width * self.height && row * self.width
                        + col < 16777216) by (nonlinear_arith)
                        requires
                            0 <= col <= self.width - 1,
                            0 <= row <= self.height - 1,
                            1 <= self.width <= 4096,
                            1 <= self.height <= 4096,
                    ;
                }
                let idx: usize = (row as usize) * self.width + (col as usize);
                proof {
                    assert(idx == row * self.width + col);
                }
                let tile = Rect { x: col * TILE_SUB, y: row * TILE_SUB, w: TILE_SUB, h: TILE_SUB };
                let desc = TileDescriptor { solid: self.solid[idx] };
                proof {
                    let k = (row - lo_r) * nc + (col - lo_c);
                    assert(0 <= col - lo_c < nc);
                    assert(0 <= (row - lo_r) * nc + (col - lo_c)) by (nonlinear_arith)
                        requires
                            0 <= row - lo_r,
                            0 <= col - lo_c,
                            nc >= 1,
                    ;
                    assert(k < gspec.len()) by {
                        assert((row - lo_r) * nc + (col - lo_c) < nc * (hi_r + 1 - lo_r))
                            by (nonlinear_arith)
                            requires
                                0 <= col - lo_c < nc,
                                0 <= row - lo_r <= hi_r - lo_r,
                                nc >= 1,
                        ;
                    }
                    vstd::arithmetic::div_mod::lemma_fundamental_div_mod_converse(
                        k,
                        nc as int,
                        (row - lo_r) as int,
                        (col - lo_c) as int,
                    );
                    assert(k % (nc as int) == col - lo_c);
                    assert(k / (nc as int) == row - lo_r);
                    assert(gspec[k] == (tile, desc));
                }
                out.push((tile, desc));
                col += 1;
            }
            proof {
                assert((row - lo_r) * nc + (hi_c + 1 - lo_c) == (row + 1 - lo_r) * nc)
                    by (nonlinear_arith)
                    requires
                        nc == hi_c - lo_c + 1,
                ;
            }
            row += 1;
        }
        proof {
            assert((hi_r + 1 - lo_r) * nc == nc * (hi_r + 1 - lo_r)) by (nonlinear_arith);
            assert(out@ =~= gspec);
        }
        out
    }
}

/// Each entry of `tiles_within_spec` is a well-formed tile rectangle of an
/// in-bounds grid cell.
pub proof fn lemma_tiles_within_entry(level: Level, q: Rect, k: int)
    requires
        level.wf(),
        q.wf(),
        0 <= k < level.tiles_within_spec(q).len(),
    ensures
        ({
            let e = level.tiles_within_spec(q)[k];
            &&& e.0.w == TILE_SUB
            &&& e.0.h == TILE_SUB
            &&& 0 <= e.0.x <= (level.width - 1) * TILE_SUB
            &&& 0 <= e.0.y <= (level.height - 1) * TILE_SUB
            &&& e.0.wf()
        }),
{
    let nc = level.n_cols(q);
    let nr = level.n_rows(q);
    assert(nc >= 0 && nr >= 0);
    assert(nc >= 1 && nr >= 1) by {
        if nc == 0 || nr == 0 {
            assert(nc * nr == 0) by (nonlinear_arith)
                requires
                    nc == 0 || nr == 0,
            ;
        }
    }
    assert(level.tiles_within_spec(q).len() == nc * nr);
    vstd::arithmetic::div_mod::lemma_mod_bound(k, nc);
    vstd::arithmetic::div_mod::lemma_div_is_ordered(0, k, nc);
    vstd::arithmetic::div_mod::lemma_multiply_divide_lt(k, nc, nr);
    let col = level.lo_col(q) + k % nc;
    let row = level.lo_row(q) + k / nc;
    assert(0 <= col <= level.width - 1);
    assert(0 <= row <= level.height - 1);
    assert(col * TILE_SUB <= (level.width - 1) * TILE_SUB) by (nonlinear_arith)
        requires
            col <= level.width - 1,
            TILE_SUB > 0,
    ;
    assert(row * TILE_SUB <= (level.height - 1) * TILE_SUB) by (nonlinear_arith)
        requires
            row <= level.height - 1,
            TILE_SUB > 0,
    ;
    assert(0 <= col * TILE_SUB) by (nonlinear_arith)
        requires
            0 <= col,
            TILE_SUB > 0,
    ;
    assert(0 <= row * TILE_SUB) by (nonlinear_arith)
        requires
            0 <= row,
            TILE_SUB > 0,
    ;
    assert((level.width - 1) * TILE_SUB <= 4095 * 16_000) by (nonlinear_arith)
        requires
            level.width <= 4096,
            TILE_SUB == 16_000,
    ;
    assert((level.height - 1) * TILE_SUB <= 4095 * 16_000) by (nonlinear_arith)
        requires
            level.height <= 4096,
            TILE_SUB == 16_000,
    ;
}

/// A query rectangle no larger than a player or enemy collider touches at
/// most a 3 by 3 block of tiles.
pub proof fn lemma_small_query_range(level: Level, q: Rect)
    requires
        level.wf(),
        q.wf(),
        q.w <= 24_000,
        q.h <= 24_000,
    ensures
        level.n_cols(q) <= 3,
        level.n_rows(q) <= 3,
        level.tiles_within_spec(q).len() <= 9,
{
    let t = TILE_SUB as int;
    assert(level.hi_col(q) - level.lo_col(q) <= 2) by {
        if q.x + q.w <= 0 {
        } else if q.x <= 0 {
            // lo is 0; the rect's far edge is below 2.5 tiles
            assert(q.x + q.w - 1 <= 39_998);
            vstd::arithmetic::div_mod::lemma_div_is_ordered(q.x + q.w - 1, 39_998, t);
            assert(39_998int / 16_000int == 2) by {
                vstd::arithmetic::div_mod::lemma_fundamental_div_mod_converse(
                    39_998,
                    16_000,
                    2,
                    7_998,
                );
            }
        } else {
            let a = q.x as int / t;
            vstd::arithmetic::div_mod::lemma_fundamental_div_mod(q.x as int, t);
            let r = q.x as int % t;
            vstd::arithmetic::div_mod::lemma_mod_bound(q.x as int, t);
            assert(q.x + q.w - 1 <= t * a + r + 23_999);
            assert(r + 23_999 <= 39_998);
            vstd::arithmetic::div_mod::lemma_div_is_ordered(q.x + q.w - 1, t * a + 39_998, t);
            assert((t * a + 39_998) / t == 39_998int / t + a) by {
                vstd::arithmetic::div_mod::lemma_hoist_over_denominator(39_998, a, 16_000nat);
                assert(a * t == t * a) by (nonlinear_arith);
            }
            assert(39_998int / 16_000int == 2) by {
                vstd::arithmetic::div_mod::lemma_fundamental_div_mod_converse(
                    39_998,
                    16_000,
                    2,
                    7_998,
                );
            }
        }
    }
    assert(level.hi_row(q) - level.lo_row(q) <= 2) by {
        if q.y + q.h <= 0 {
        } else if q.y <= 0 {
            assert(q.y + q.h - 1 <= 39_998);
            vstd::arithmetic::div_mod::lemma_div_is_ordered(q.y + q.h - 1, 39_998, t);
            assert(39_998int / 16_000int == 2) by {
                vstd::arithmetic::div_mod::lemma_fundamental_div_mod_converse(
                    39_998,
                    16_000,
                    2,
                    7_998,
                );
            }
        } else {
            let a = q.y as int / t;
            vstd::arithmetic::div_mod::lemma_fundamental_div_mod(q.y as int, t);
            let r = q.y as int % t;
            vstd::arithmetic::div_mod::lemma_mod_bound(q.y as int, t);
            assert(q.y + q.h - 1 <= t * a + r + 23_999);
            vstd::arithmetic::div_mod::lemma_div_is_ordered(q.y + q.h - 1, t * a + 39_998, t);
            assert((t * a + 39_998) / t == 39_998int / t + a) by {
                vstd::arithmetic::div_mod::lemma_hoist_over_denominator(39_998, a, 16_000nat);
                assert(a * t == t * a) by (nonlinear_arith);
            }
            assert(39_998int / 16_000int == 2) by {
                vstd::arithmetic::div_mod::lemma_fundamental_div_mod_converse(
                    39_998,
                    16_000,
                    2,
                    7_998,
                );
            }
        }
    }
    assert(level.n_cols(q) * level.n_rows(q) <= 9) by (nonlinear_arith)
        requires
            0 <= level.n_cols(q) <= 3,
            0 <= level.n_rows(q) <= 3,
    ;
}

/// Every grid tile that positively overlaps the query rectangle lies inside
/// the enumerated index range, so it appears in `tiles_within`'s result.
pub proof fn lemma_tiles_within_covers(level: Level, q: Rect, col: int, row: int)
    requires
        level.wf(),
        q.wf(),
        0 <= col < level.width,
        0 <= row < level.height,
        crate::geom::rects_intersect(tile_rect_spec(col, row), q),
    ensures
        level.lo_col(q) <= col <= level.hi_col(q),
        level.lo_row(q) <= row <= level.hi_row(q),
{
    let t = TILE_SUB as int;
    // positive overlap on x: col*t < q.x + q.w  and  q.x < col*t + t
    assert(col * t < q.x + q.w && q.x < col * t + t) by {
        assert(crate::geom::overlap_x(tile_rect_spec(col, row), q) > 0);
    }
    assert(col * t < q.x + q.w);
    assert(q.x < col * t + t);
    // lower bound
    if q.x > 0 {
        assert(q.x as int / t <= col) by {
            assert(q.x <= col * t + (t - 1));
            vstd::arithmetic::div_mod::lemma_div_is_ordered(q.x as int, col * t + (t - 1), t);
            vstd::arithmetic::div_mod::lemma_div_multiples_vanish_fancy(col, t - 1, t);
            assert(t * col + (t - 1) == col * t + (t - 1)) by (nonlinear_arith);
        }
    }
    // upper bound
    assert(col <= (q.x + q.w - 1) / t) by {
        assert(col * t <= q.x + q.w - 1);
        vstd::arithmetic::div_mod::lemma_div_is_ordered(col * t, q.x + q.w - 1, t);
        vstd::arithmetic::div_mod::lemma_div_by_multiple(col, t);
    }
    assert(row * t < q.y + q.h && q.y < row * t + t) by {
        assert(crate::geom::overlap_y(tile_rect_spec(col, row), q) > 0);
    }
    if q.y > 0 {
        assert(q.y as int / t <= row) by {
            assert(q.y <= row * t + (t - 1));
            vstd::arithmetic::div_mod::lemma_div_is_ordered(q.y as int, row * t + (t - 1), t);
            vstd::arithmetic::div_mod::lemma_div_multiples_vanish_fancy(row, t - 1, t);
            assert(t * row + (t - 1) == row * t + (t - 1)) by (nonlinear_arith);
        }
    }
    assert(row <= (q.y + q.h - 1) / t) by {
        assert(row * t <= q.y + q.h - 1);
        vstd::arithmetic::div_mod::lemma_div_is_ordered(row * t, q.y + q.h - 1, t);
        vstd::arithmetic::div_mod::lemma_div_by_multiple(row, t);
    }
}

} // verus!
