//! Axis-aligned rectangles and 2D vectors with the overlap and displacement
//! primitives used by collision resolution.

use vstd::prelude::*;

verus! {

/// World coordinates are fixed-point: thousandths of a pixel.
pub const SUB_PER_PIXEL: i64 = 1000;

/// Bound on any coordinate or extent the geometry primitives handle; keeps
/// every intermediate sum and difference far inside the `i64` range.
pub const COORD_LIMIT: i64 = 1_000_000_000_000;

/// A 2D point, displacement or velocity, in sub-pixels.
#[derive(Clone, Copy, Debug, PartialEq, Eq, Structural)]
pub struct Vec2 {
    pub x: i64,
    pub y: i64,
}

/// An axis-aligned rectangle; `(x, y)` is its lower-left origin (y grows up),
/// `w` and `h` its extents. A zero-extent rectangle is the sentinel for
/// "no collider" and never overlaps anything.
#[derive(Clone, Copy, Debug, PartialEq, Eq, Structural)]
pub struct Rect {
    pub x: i64,
    pub y: i64,
    pub w: i64,
    pub h: i64,
}

/// Facing of a moving entity: east (+x) or west (-x).
#[derive(Clone, Copy, Debug, PartialEq, Eq, Structural)]
pub enum Dir {
    E,
    W,
}

impl Dir {
    pub open spec fn sign(self) -> int {
        match self {
            Dir::E => 1,
            Dir::W => -1,
        }
    }

    pub open spec fn flip_spec(self) -> Dir {
        match self {
            Dir::E => Dir::W,
            Dir::W => Dir::E,
        }
    }

    /// Unit sign vector of the facing: east is +1 on x, west is -1.
    pub fn to_vec2(self) -> (r: Vec2)
        ensures
            r.x == self.sign(),
            r.y == 0,
    {
        Vec2 {
            x: match self {
                Dir::E => 1i64,
                Dir::W => -1i64,
            },
            y: 0,
        }
    }

    /// The opposite facing.
    pub fn flip(self) -> (r: Dir)
        ensures
            r == self.flip_spec(),
    {
        match self {
            Dir::E => Dir::W,
            Dir::W => Dir::E,
        }
    }
}

impl Vec2 {
    pub open spec fn wf(self) -> bool {
        &&& -COORD_LIMIT <= self.x <= COORD_LIMIT
        &&& -COORD_LIMIT <= self.y <= COORD_LIMIT
    }
}

impl Rect {
    pub open spec fn wf(self) -> bool {
        &&& -COORD_LIMIT <= self.x <= COORD_LIMIT
        &&& -COORD_LIMIT <= self.y <= COORD_LIMIT
        &&& 0 <= self.w <= COORD_LIMIT
        &&& 0 <= self.h <= COORD_LIMIT
    }

    /// The degenerate rectangle used as the collider of a dead or inactive
    /// entity; it overlaps nothing.
    pub fn zero() -> (r: Rect)
        ensures
            r == (Rect { x: 0i64, y: 0i64, w: 0i64, h: 0i64 }),
    {
        Rect { x: 0, y: 0, w: 0, h: 0 }
    }

    /// Minimum-translation overlap: the positive penetration extents on each
    /// axis if the rectangles intersect on both axes, else nothing. The sign
    /// of a push-out is resolved by the caller, not here.
    pub fn overlap(self, other: Rect) -> (r: Option<Vec2>)
        requires
            self.wf(),
            other.wf(),
        ensures
            r is Some <==> rects_intersect(self, other),
            r matches Some(v) ==> v.x == overlap_x(self, other) && v.y == overlap_y(self, other),
    {
        let a_right: i64 = self.x + self.w;
        let b_right: i64 = other.x + other.w;
        let a_top: i64 = self.y + self.h;
        let b_top: i64 = other.y + other.h;
        let ox: i64 = (if a_right <= b_right { a_right } else { b_right })
            - (if self.x >= other.x { self.x } else { other.x });
        let oy: i64 = (if a_top <= b_top { a_top } else { b_top })
            - (if self.y >= other.y { self.y } else { other.y });
        if ox > 0 && oy > 0 {
            Some(Vec2 { x: ox, y: oy })
        } else {
            None
        }
    }
}

/// Penetration extent of `a` and `b` on the x axis (positive iff their x
/// intervals overlap with positive width).
pub open spec fn overlap_x(a: Rect, b: Rect) -> int {
    (if a.x + a.w <= b.x + b.w { a.x + a.w } else { b.x + b.w }) - (if a.x >= b.x {
        a.x
    } else {
        b.x
    })
}

/// Penetration extent of `a` and `b` on the y axis.
pub open spec fn overlap_y(a: Rect, b: Rect) -> int {
    (if a.y + a.h <= b.y + b.h { a.y + a.h } else { b.y + b.h }) - (if a.y >= b.y {
        a.y
    } else {
        b.y
    })
}

/// Two rectangles intersect when both axis intervals overlap with positive
/// extent.
pub open spec fn rects_intersect(a: Rect, b: Rect) -> bool {
    overlap_x(a, b) > 0 && overlap_y(a, b) > 0
}

/// x component of the push-out displacement of `a` out of `b`: kept only when
/// the x penetration is strictly the shallower one, signed to push `a` away
/// from `b`'s origin.
pub open spec fn disp_x_spec(a: Rect, b: Rect) -> int {
    if rects_intersect(a, b) && overlap_x(a, b) < overlap_y(a, b) {
        if a.x < b.x {
            -overlap_x(a, b)
        } else {
            overlap_x(a, b)
        }
    } else {
        0
    }
}

/// y component of the push-out displacement of `a` out of `b`.
pub open spec fn disp_y_spec(a: Rect, b: Rect) -> int {
    if rects_intersect(a, b) && overlap_x(a, b) >= overlap_y(a, b) {
        if a.y < b.y {
            -overlap_y(a, b)
        } else {
            overlap_y(a, b)
        }
    } else {
        0
    }
}

/// Single-axis push-out vector resolving one contact: keeps only the axis with
/// the smaller penetration, zeroes the other, and signs the kept axis negative
/// when `a`'s origin is below `b`'s on that axis (pushing `a` away from `b`).
/// Non-intersecting rectangles yield the zero vector.
pub fn compute_disp(a: Rect, b: Rect) -> (r: Vec2)
    requires
        a.wf(),
        b.wf(),
    ensures
        r.x == disp_x_spec(a, b),
        r.y == disp_y_spec(a, b),
{
    let mut displacement: Vec2 = match a.overlap(b) {
        Some(v) => v,
        None => Vec2 { x: 0, y: 0 },
    };
    if displacement.x < displacement.y {
        displacement.y = 0;
    } else {
        displacement.x = 0;
    }
    if a.x < b.x {
        displacement.x = -displacement.x;
    }
    if a.y < b.y {
        displacement.y = -displacement.y;
    }
    displacement
}

/// Rectangles separated on some axis have no overlap at all.
pub proof fn lemma_overlap_separated(a: Rect, b: Rect)
    requires
        a.x + a.w <= b.x || b.x + b.w <= a.x || a.y + a.h <= b.y || b.y + b.h <= a.y,
    ensures
        !rects_intersect(a, b),
{
}

/// Rectangles with positive overlap on both axes do intersect, and the
/// penetration extents are exactly the per-axis interval overlaps.
pub proof fn lemma_overlap_positive(a: Rect, b: Rect)
    requires
        a.w > 0,
        a.h > 0,
        b.w > 0,
        b.h > 0,
        a.x < b.x + b.w,
        b.x < a.x + a.w,
        a.y < b.y + b.h,
        b.y < a.y + a.h,
    ensures
        rects_intersect(a, b),
        overlap_x(a, b) == (if a.x + a.w <= b.x + b.w { a.x + a.w } else { b.x + b.w }) - (if a.x
            >= b.x {
            a.x
        } else {
            b.x
        }),
        overlap_y(a, b) == (if a.y + a.h <= b.y + b.h { a.y + a.h } else { b.y + b.h }) - (if a.y
            >= b.y {
            a.y
        } else {
            b.y
        }),
{
    assert(overlap_x(a, b) > 0) by {
        if a.x + a.w <= b.x + b.w {
            if a.x >= b.x {
                assert(a.x + a.w - a.x > 0);
            }
        }
    }
    assert(overlap_y(a, b) > 0) by {
        if a.y + a.h <= b.y + b.h {
            if a.y >= b.y {
                assert(a.y + a.h - a.y > 0);
            }
        }
    }
}

/// When an overlap exists, the push-out displacement zeroes exactly one axis,
/// and the kept axis is signed to push `a` away from `b`'s origin.
pub proof fn lemma_disp_single_axis(a: Rect, b: Rect)
    requires
        rects_intersect(a, b),
    ensures
        (disp_x_spec(a, b) == 0) != (disp_y_spec(a, b) == 0),
        disp_x_spec(a, b) != 0 ==> ((disp_x_spec(a, b) < 0) <==> a.x < b.x),
        disp_y_spec(a, b) != 0 ==> ((disp_y_spec(a, b) < 0) <==> a.y < b.y),
{
}

/// A push-out displacement never exceeds either rectangle's extents.
pub proof fn lemma_disp_bound(a: Rect, b: Rect)
    requires
        a.wf(),
        b.wf(),
    ensures
        -a.w <= disp_x_spec(a, b) <= a.w,
        -b.w <= disp_x_spec(a, b) <= b.w,
        -a.h <= disp_y_spec(a, b) <= a.h,
        -b.h <= disp_y_spec(a, b) <= b.h,
{
}

} // verus!

