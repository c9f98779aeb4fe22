//! The rectangular domain: wall containment and the position-to-cell map.

use vstd::prelude::*;
use crate::fixed::{COORD_LIMIT, lemma_abs_mul_bound, lemma_tdiv_bound, sat, sat_i64, tdiv, div_trunc};
use crate::particle::Particle;
use crate::vec2::Vec2;

verus! {

/// The domain rectangle, with a wall thickness used for containment.
#[derive(Clone, Copy, Debug, PartialEq, Eq, Structural)]
pub struct BoundingBox {
    /// Lower-left corner.
    pub min: Vec2,
    /// Upper-right corner.
    pub max: Vec2,
    /// Wall thickness, never negative.
    pub wall: i64,
}

/// Clamp `v` into `[lo, hi]`; when the interval is empty, fall back to its
/// midpoint, so the operation stays total.
pub open spec fn clamp_mid(v: int, lo: int, hi: int) -> int {
    if lo > hi {
        tdiv(lo + hi, 2)
    } else if v < lo {
        lo
    } else if v > hi {
        hi
    } else {
        v
    }
}

/// The box two corner points and a wall thickness describe: corners are
/// saturated into the coordinate range and ordered componentwise; the wall
/// is normalized to its absolute value.
pub open spec fn bbox_spec(a: Vec2, b: Vec2, wall: i64) -> BoundingBox {
    let ax = sat(a.x as int);
    let ay = sat(a.y as int);
    let bx = sat(b.x as int);
    let by = sat(b.y as int);
    BoundingBox {
        min: Vec2 {
            x: (if ax <= bx { ax } else { bx }) as i64,
            y: (if ay <= by { ay } else { by }) as i64,
        },
        max: Vec2 {
            x: (if ax <= bx { bx } else { ax }) as i64,
            y: (if ay <= by { by } else { ay }) as i64,
        },
        wall: (if wall >= 0 { sat(wall as int) } else { sat(-(wall as int)) }) as i64,
    }
}

/// The particle after containment: its position clamped into the usable
/// part of the domain, shrunk by the wall and by the particle's own radius.
pub open spec fn contain_spec(bb: BoundingBox, p: Particle) -> Particle {
    let r = bb.wall + p.radius;
    Particle {
        pos: Vec2 {
            x: clamp_mid(p.pos.x as int, bb.min.x + r, bb.max.x - r) as i64,
            y: clamp_mid(p.pos.y as int, bb.min.y + r, bb.max.y - r) as i64,
        },
        ..p
    }
}

/// Which grid cell a position maps to, for a grid of `sx` by `sy` cells
/// covering the box: scaled linearly, truncated, then clamped into bounds.
pub open spec fn cell_of(bb: BoundingBox, sx: int, sy: int, pos: Vec2) -> (int, int) {
    (
        clamp_mid(tdiv((pos.x - bb.min.x) * sx, bb.max.x - bb.min.x), 0, sx - 1),
        clamp_mid(tdiv((pos.y - bb.min.y) * sy, bb.max.y - bb.min.y), 0, sy - 1),
    )
}

impl BoundingBox {
    /// Well-formedness: corners in range and ordered, wall sane.
    pub open spec fn wf(self) -> bool {
        &&& self.min.in_range()
        &&& self.max.in_range()
        &&& self.min.x <= self.max.x
        &&& self.min.y <= self.max.y
        &&& 0 <= self.wall <= COORD_LIMIT
    }

    /// The box has positive extent on both axes, so positions can be
    /// scaled into grid cells.
    pub open spec fn nondegenerate(self) -> bool {
        &&& self.min.x < self.max.x
        &&& self.min.y < self.max.y
    }

    /// Build the box spanned by two corner points, with the given wall
    /// thickness.
    pub fn new(a: Vec2, b: Vec2, wall: i64) -> (bb: BoundingBox)
        ensures
            bb == bbox_spec(a, b, wall),
            bb.wf(),
    {
        let ax = sat_i64(a.x as i128);
        let ay = sat_i64(a.y as i128);
        let bx = sat_i64(b.x as i128);
        let by = sat_i64(b.y as i128);
        let w = if wall >= 0 {
            sat_i64(wall as i128)
        } else {
            sat_i64(-(wall as i128))
        };
        BoundingBox {
            min: Vec2 {
                x: if ax <= bx { ax } else { bx },
                y: if ay <= by { ay } else { by },
            },
            max: Vec2 {
                x: if ax <= bx { bx } else { ax },
                y: if ay <= by { by } else { ay },
            },
            wall: w,
        }
    }

    /// Apply boundary containment to a particle: clamp its position into
    /// the usable domain.
    pub fn update_bounds(&self, p: &mut Particle)
        requires
            self.wf(),
            old(p).wf(),
        ensures
            *final(p) == contain_spec(*self, *old(p)),
            final(p).wf(),
    {
        let r: i64 = self.wall + p.radius;
        let nx = clamp_mid_exec(p.pos.x, self.min.x + r, self.max.x - r);
        let ny = clamp_mid_exec(p.pos.y, self.min.y + r, self.max.y - r);
        p.pos = Vec2 { x: nx, y: ny };
    }

    /// Map a particle to the grid cell holding its position, on a grid of
    /// `shape.0` by `shape.1` cells.
    pub fn get_partition(&self, p: &Particle, shape: (usize, usize)) -> (r: (usize, usize))
        requires
            self.wf(),
            self.nondegenerate(),
            p.wf(),
            1 <= shape.0,
            1 <= shape.1,
        ensures
            r.0 as int == cell_of(*self, shape.0 as int, shape.1 as int, p.pos).0,
            r.1 as int == cell_of(*self, shape.0 as int, shape.1 as int, p.pos).1,
            r.0 < shape.0,
            r.1 < shape.1,
    {
        let cx = cell_component(p.pos.x, self.min.x, self.max.x, shape.0);
        let cy = cell_component(p.pos.y, self.min.y, self.max.y, shape.1);
        (cx, cy)
    }
}

/// Executable form of [`clamp_mid`] for in-range inputs.
fn clamp_mid_exec(v: i64, lo: i64, hi: i64) -> (r: i64)
    requires
        -4 * (COORD_LIMIT as int) <= lo <= 4 * (COORD_LIMIT as int),
        -4 * (COORD_LIMIT as int) <= hi <= 4 * (COORD_LIMIT as int),
    ensures
        r as int == clamp_mid(v as int, lo as int, hi as int),
{
    if lo > hi {
        let m = div_trunc(lo as i128 + hi as i128, 2);
        proof {
            lemma_tdiv_bound(lo as int + hi as int, 2, 8 * (COORD_LIMIT as int));
        }
        m as i64
    } else if v < lo {
        lo
    } else if v > hi {
        hi
    } else {
        v
    }
}

/// One axis of the position-to-cell map.
fn cell_component(pos: i64, lo: i64, hi: i64, cells: usize) -> (r: usize)
    requires
        -COORD_LIMIT <= pos <= COORD_LIMIT,
        -COORD_LIMIT <= lo <= COORD_LIMIT,
        -COORD_LIMIT <= hi <= COORD_LIMIT,
        lo < hi,
        1 <= cells,
    ensures
        r as int == clamp_mid(tdiv((pos - lo) * (cells as int), hi - lo), 0, cells as int - 1),
        r < cells,
{
    proof {
        lemma_abs_mul_bound(
            pos as int - lo as int,
            cells as int,
            2 * (COORD_LIMIT as int),
            0x1_0000_0000_0000_0000,
        );
        lemma_tdiv_bound(
            (pos as int - lo as int) * (cells as int),
            hi as int - lo as int,
            2 * (COORD_LIMIT as int) * 0x1_0000_0000_0000_0000,
        );
    }
    let scaled: i128 = div_trunc(
        (pos as i128 - lo as i128) * (cells as i128),
        hi as i128 - lo as i128,
    );
    if scaled < 0 {
        0
    } else if scaled > cells as i128 - 1 {
        cells - 1
    } else {
        scaled as usize
    }
}

} // verus!
