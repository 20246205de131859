//! The deadzone camera-follow policy: step the viewport one pixel at a time
//! until the tracked position falls back inside the margins, then clamp the
//! viewport to the level's pixel bounds.

use vstd::prelude::*;
use crate::geom::{Vec2, SUB_PER_PIXEL};
use crate::physics::{clamp_i64, clamp_spec};

verus! {

/// The camera: screen position (lower-left of the viewport) and fixed
/// viewport size, in sub-pixels.
#[derive(Clone, Copy, Debug, PartialEq, Eq, Structural)]
pub struct Camera {
    pub screen_pos: Vec2,
    pub screen_size: Vec2,
}

/// How many whole steps of `b` it takes to cover `a` (0 when `a` is already
/// non-positive).
pub open spec fn ceil_div_pos(a: int, b: int) -> int {
    if a <= 0 {
        0
    } else {
        (a + b - 1) / b
    }
}

/// Where upward one-pixel stepping stops: the first position at or above
/// `target` reachable from `c` in whole pixel steps (or `c` itself if already
/// there).
pub open spec fn raise_to(c: int, target: int) -> int {
    c + SUB_PER_PIXEL * ceil_div_pos(target - c, SUB_PER_PIXEL as int)
}

/// Where downward one-pixel stepping stops: the first position at or below
/// `target` reachable from `c` in whole pixel steps (or `c` itself).
pub open spec fn lower_to(c: int, target: int) -> int {
    c - SUB_PER_PIXEL * ceil_div_pos(c - target, SUB_PER_PIXEL as int)
}

/// One axis of the follow policy: step up while the tracked position is past
/// the far margin, step down while it is before the near margin, then clamp
/// into `[0, max(level_extent, viewport) - viewport]`.
pub open spec fn follow_axis_spec(
    c: int,
    target: int,
    viewport: int,
    margin: int,
    level_extent: int,
) -> int {
    let c1 = raise_to(c, target - viewport + margin);
    let c2 = lower_to(c1, target - margin);
    let hi = if level_extent >= viewport {
        level_extent - viewport
    } else {
        0
    };
    clamp_spec(c2, 0, hi)
}

/// Stepping from `c` by whole steps of `b` until reaching at least `target`
/// stops exactly at `c + b * ceil_div_pos(target - c, b)`.
proof fn lemma_ceil_steps(c: int, target: int, b: int, k: int)
    requires
        0 < b,
        0 <= k,
        c + b * k >= target,
        k > 0 ==> c + b * (k - 1) < target,
    ensures
        c + b * k == raise_to_by(c, target, b),
{
    if k == 0 {
        assert(ceil_div_pos(target - c, b) == 0);
        assert(b * 0 == 0) by (nonlinear_arith);
    } else {
        let d = target - c;
        assert(b * (k - 1) < d <= b * k);
        assert(d > 0) by (nonlinear_arith)
            requires
                b * (k - 1) < d,
                0 < b,
                1 <= k,
        ;
        let x = d + b - 1;
        let r = x - b * k;
        assert(0 <= r < b) by (nonlinear_arith)
            requires
                r == d + b - 1 - b * k,
                b * (k - 1) < d <= b * k,
                0 < b,
        ;
        assert(x == b * k + r);
        vstd::arithmetic::div_mod::lemma_fundamental_div_mod_converse(x, b, k, r);
        assert(ceil_div_pos(d, b) == k);
    }
}

/// `raise_to` with an explicit step, for the lemma above.
pub open spec fn raise_to_by(c: int, target: int, b: int) -> int {
    c + b * ceil_div_pos(target - c, b)
}

impl Camera {
    pub open spec fn wf(self) -> bool {
        &&& -1_000_000_000 <= self.screen_pos.x <= 1_000_000_000
        &&& -1_000_000_000 <= self.screen_pos.y <= 1_000_000_000
        &&& 1 <= self.screen_size.x <= 100_000_000
        &&& 1 <= self.screen_size.y <= 100_000_000
    }

    /// Follow `target`: on each axis, nudge the screen position one pixel at
    /// a time while the target lies outside the viewport margins, then clamp
    /// the screen position into `[0, max(level_pixels, viewport) - viewport]`.
    pub fn follow(&mut self, target: Vec2, margin: i64, lw_sub: i64, lh_sub: i64)
        requires
            old(self).wf(),
            -1_000_000_000 <= target.x <= 1_000_000_000,
            -1_000_000_000 <= target.y <= 1_000_000_000,
            0 <= margin <= 100_000_000,
            0 <= lw_sub <= 100_000_000,
            0 <= lh_sub <= 100_000_000,
        ensures
            final(self).screen_size == old(self).screen_size,
            final(self).screen_pos.x == follow_axis_spec(
                old(self).screen_pos.x as int,
                target.x as int,
                old(self).screen_size.x as int,
                margin as int,
                lw_sub as int,
            ),
            final(self).screen_pos.y == follow_axis_spec(
                old(self).screen_pos.y as int,
                target.y as int,
                old(self).screen_size.y as int,
                margin as int,
                lh_sub as int,
            ),
            0 <= final(self).screen_pos.x <= (if lw_sub >= old(self).screen_size.x {
                lw_sub - old(self).screen_size.x
            } else {
                0
            }),
            0 <= final(self).screen_pos.y <= (if lh_sub >= old(self).screen_size.y {
                lh_sub - old(self).screen_size.y
            } else {
                0
            }),
            final(self).wf(),
    {
        let vw = self.screen_size.x;
        let vh = self.screen_size.y;
        let x0 = self.screen_pos.x;
        let y0 = self.screen_pos.y;
        // x axis, far margin
        let ghost tx_up: int = target.x - vw + margin;
        let mut k: i64 = 0;
        while target.x > self.screen_pos.x + vw - margin
            invariant
                self.screen_size == old(self).screen_size,
                self.screen_pos.y == y0,
                vw == self.screen_size.x,
                1 <= vw <= 100_000_000,
                0 <= margin <= 100_000_000,
                0 <= k <= 3_000_000,
                self.screen_pos.x == x0 + SUB_PER_PIXEL * k,
                k > 0 ==> x0 + SUB_PER_PIXEL * (k - 1) < tx_up,
                -1_300_000_000 <= x0 <= 1_300_000_000,
                tx_up == target.x - vw + margin,
                -1_200_000_000 <= tx_up <= 1_200_000_000,
                -1_300_000_000 <= self.screen_pos.x <= 1_300_000_000,
            decreases (if tx_up > self.screen_pos.x {
                tx_up - self.screen_pos.x
            } else {
                0int
            }),
        {
            proof {
                assert(SUB_PER_PIXEL * (k + 1) == SUB_PER_PIXEL * k + SUB_PER_PIXEL)
                    by (nonlinear_arith);
                assert(k + 1 <= 3_000_000) by (nonlinear_arith)
                    requires
                        SUB_PER_PIXEL * k == self.screen_pos.x - x0,
                        self.screen_pos.x < tx_up,
                        -1_300_000_000 <= x0,
                        tx_up <= 1_200_000_000,
                        0 <= k,
                        SUB_PER_PIXEL == 1000,
                ;
            }
            self.screen_pos.x = self.screen_pos.x + SUB_PER_PIXEL;
            k = k + 1;
        }
        proof {
            assert(self.screen_pos.x >= tx_up);
            lemma_ceil_steps(x0 as int, tx_up, SUB_PER_PIXEL as int, k as int);
            assert(self.screen_pos.x == raise_to(x0 as int, tx_up));
        }
        // x axis, near margin
        let ghost x1: int = self.screen_pos.x as int;
        let ghost tx_dn: int = target.x - margin;
        k = 0;
        while target.x < self.screen_pos.x + margin
            invariant
                self.screen_size == old(self).screen_size,
                self.screen_pos.y == y0,
                vw == self.screen_size.x,
                1 <= vw <= 100_000_000,
                0 <= margin <= 100_000_000,
                0 <= k <= 3_000_000,
                self.screen_pos.x == x1 - SUB_PER_PIXEL * k,
                k > 0 ==> x1 - SUB_PER_PIXEL * (k - 1) > tx_dn,
                -1_300_000_000 <= x1 <= 1_300_000_000,
                tx_dn == target.x - margin,
                -1_200_000_000 <= tx_dn <= 1_200_000_000,
                -1_300_000_000 <= self.screen_pos.x <= 1_300_000_000,
            decreases (if self.screen_pos.x > tx_dn {
                self.screen_pos.x - tx_dn
            } else {
                0int
            }),
        {
            proof {
                assert(SUB_PER_PIXEL * (k + 1) == SUB_PER_PIXEL * k + SUB_PER_PIXEL)
                    by (nonlinear_arith);
                assert(k + 1 <= 3_000_000) by (nonlinear_arith)
                    requires
                        SUB_PER_PIXEL * k == x1 - self.screen_pos.x,
                        self.screen_pos.x > tx_dn,
                        x1 <= 1_300_000_000,
                        tx_dn >= -1_200_000_000,
                        0 <= k,
                        SUB_PER_PIXEL == 1000,
                ;
            }
            self.screen_pos.x = self.screen_pos.x - SUB_PER_PIXEL;
            k = k + 1;
        }
        proof {
            assert(self.screen_pos.x <= tx_dn);
            lemma_ceil_steps(-x1, -tx_dn, SUB_PER_PIXEL as int, k as int);
            assert(-x1 + SUB_PER_PIXEL * (k as int) == raise_to_by(
                -x1,
                -tx_dn,
                SUB_PER_PIXEL as int,
            ));
            assert(ceil_div_pos(-tx_dn - (-x1), SUB_PER_PIXEL as int) == ceil_div_pos(
                x1 - tx_dn,
                SUB_PER_PIXEL as int,
            ));
            assert(self.screen_pos.x == lower_to(x1, tx_dn));
        }
        // y axis, far margin
        let ghost xf: int = self.screen_pos.x as int;
        let ghost ty_up: int = target.y - vh + margin;
        k = 0;
        while target.y > self.screen_pos.y + vh - margin
            invariant
                self.screen_size == old(self).screen_size,
                self.screen_pos.x == xf,
                vh == self.screen_size.y,
                1 <= vh <= 100_000_000,
                0 <= margin <= 100_000_000,
                0 <= k <= 3_000_000,
                self.screen_pos.y == y0 + SUB_PER_PIXEL * k,
                k > 0 ==> y0 + SUB_PER_PIXEL * (k - 1) < ty_up,
                -1_300_000_000 <= y0 <= 1_300_000_000,
                ty_up == target.y - vh + margin,
                -1_200_000_000 <= ty_up <= 1_200_000_000,
                -1_300_000_000 <= self.screen_pos.y <= 1_300_000_000,
            decreases (if ty_up > self.screen_pos.y {
                ty_up - self.screen_pos.y
            } else {
                0int
            }),
        {
            proof {
                assert(SUB_PER_PIXEL * (k + 1) == SUB_PER_PIXEL * k + SUB_PER_PIXEL)
                    by (nonlinear_arith);
                assert(k + 1 <= 3_000_000) by (nonlinear_arith)
                    requires
                        SUB_PER_PIXEL * k == self.screen_pos.y - y0,
                        self.screen_pos.y < ty_up,
                        -1_300_000_000 <= y0,
                        ty_up <= 1_200_000_000,
                        0 <= k,
                        SUB_PER_PIXEL == 1000,
                ;
            }
            self.screen_pos.y = self.screen_pos.y + SUB_PER_PIXEL;
            k = k + 1;
        }
        proof {
            lemma_ceil_steps(y0 as int, ty_up, SUB_PER_PIXEL as int, k as int);
            assert(self.screen_pos.y == raise_to(y0 as int, ty_up));
        }
        // y axis, near margin
        let ghost y1: int = self.screen_pos.y as int;
        let ghost ty_dn: int = target.y - margin;
        k = 0;
        while target.y < self.screen_pos.y + margin
            invariant
                self.screen_size == old(self).screen_size,
                self.screen_pos.x == xf,
                vh == self.screen_size.y,
                1 <= vh <= 100_000_000,
                0 <= margin <= 100_000_000,
                0 <= k <= 3_000_000,
                self.screen_pos.y == y1 - SUB_PER_PIXEL * k,
                k > 0 ==> y1 - SUB_PER_PIXEL * (k - 1) > ty_dn,
                -1_300_000_000 <= y1 <= 1_300_000_000,
                ty_dn == target.y - margin,
                -1_200_000_000 <= ty_dn <= 1_200_000_000,
                -1_300_000_000 <= self.screen_pos.y <= 1_300_000_000,
            decreases (if self.screen_pos.y > ty_dn {
                self.screen_pos.y - ty_dn
            } else {
                0int
            }),
        {
            proof {
                assert(SUB_PER_PIXEL * (k + 1) == SUB_PER_PIXEL * k + SUB_PER_PIXEL)
                    by (nonlinear_arith);
                assert(k + 1 <= 3_000_000) by (nonlinear_arith)
                    requires
                        SUB_PER_PIXEL * k == y1 - self.screen_pos.y,
                        self.screen_pos.y > ty_dn,
                        y1 <= 1_300_000_000,
                        ty_dn >= -1_200_000_000,
                        0 <= k,
                        SUB_PER_PIXEL == 1000,
                ;
            }
            self.screen_pos.y = self.screen_pos.y - SUB_PER_PIXEL;
            k = k + 1;
        }
        proof {
            lemma_ceil_steps(-y1, -ty_dn, SUB_PER_PIXEL as int, k as int);
            assert(ceil_div_pos(-ty_dn - (-y1), SUB_PER_PIXEL as int) == ceil_div_pos(
                y1 - ty_dn,
                SUB_PER_PIXEL as int,
            ));
            assert(self.screen_pos.y == lower_to(y1, ty_dn));
        }
        // clamp into the level's pixel bounds
        let hi_x: i64 = if lw_sub >= vw {
            lw_sub - vw
        } else {
            0
        };
        let hi_y: i64 = if lh_sub >= vh {
            lh_sub - vh
        } else {
            0
        };
        self.screen_pos.x = clamp_i64(self.screen_pos.x, 0, hi_x);
        self.screen_pos.y = clamp_i64(self.screen_pos.y, 0, hi_y);
    }
}

/// The followed camera always ends inside `[0, level_pixels - viewport]` on
/// each axis (collapsed to 0 where the level is smaller than the viewport),
/// wherever the tracked position lies.
pub proof fn law_camera_clamped(c: int, target: int, viewport: int, margin: int, level_extent: int)
    ensures
        0 <= follow_axis_spec(c, target, viewport, margin, level_extent) <= (if level_extent
            >= viewport {
            level_extent - viewport
        } else {
            0
        }),
{
}

} // verus!
