//! General properties of the engine, stated and proved as public lemmas.

use vstd::prelude::*;
use crate::bounds::{BoundingBox, contain_spec};
use crate::collision::{
    correction, correction_applies, dist_clamped, dist_sq, lemma_correction_bound, overlap_of,
    resolve_pair,
};
use crate::fixed::{
    COORD_LIMIT, FP_ONE, imax, lemma_sqrt_floor_bounds, lemma_sqrt_floor_monotone,
    lemma_square_nonneg, sqrt_floor,
};
use crate::particle::Particle;

verus! {

/// Boundary containment idempotence: a particle at least the wall
/// thickness plus its own radius away from every edge of the domain is
/// left unmoved by the containment step.
pub proof fn lemma_containment_idempotent(bb: BoundingBox, p: Particle)
    requires
        bb.min.x + bb.wall + p.radius <= p.pos.x <= bb.max.x - (bb.wall + p.radius),
        bb.min.y + bb.wall + p.radius <= p.pos.y <= bb.max.y - (bb.wall + p.radius),
    ensures
        contain_spec(bb, p) == p,
{
}

/// Newton's-third-law symmetry: one pairwise resolution moves the two
/// particles by exactly opposite, equal-magnitude corrections, each
/// component directed along the center line, and changes nothing else.
/// Holds wherever the positions sit far enough from the coordinate
/// saturation bound that no clamp interferes.
pub proof fn lemma_resolution_symmetric(a: Particle, b: Particle, dt: int, pr: int)
    requires
        a.wf(),
        b.wf(),
        1 <= dt,
        0 <= pr <= FP_ONE,
        -(COORD_LIMIT - (a.radius + b.radius)) <= a.pos.x <= COORD_LIMIT - (a.radius + b.radius),
        -(COORD_LIMIT - (a.radius + b.radius)) <= a.pos.y <= COORD_LIMIT - (a.radius + b.radius),
        -(COORD_LIMIT - (a.radius + b.radius)) <= b.pos.x <= COORD_LIMIT - (a.radius + b.radius),
        -(COORD_LIMIT - (a.radius + b.radius)) <= b.pos.y <= COORD_LIMIT - (a.radius + b.radius),
    ensures
        ({
            let (a2, b2) = resolve_pair(a, b, dt, pr);
            let (cx, cy) = correction(a, b, dt, pr);
            &&& a2.pos.x - a.pos.x == -(b2.pos.x - b.pos.x)
            &&& a2.pos.y - a.pos.y == -(b2.pos.y - b.pos.y)
            &&& correction_applies(a, b, dt) ==> a2.pos.x == a.pos.x + cx && a2.pos.y == a.pos.y
                + cy && b2.pos.x == b.pos.x - cx && b2.pos.y == b.pos.y - cy
            &&& (a.pos.x >= b.pos.x ==> a2.pos.x >= a.pos.x) && (a.pos.x <= b.pos.x
                ==> a2.pos.x <= a.pos.x)
            &&& (a.pos.y >= b.pos.y ==> a2.pos.y >= a.pos.y) && (a.pos.y <= b.pos.y
                ==> a2.pos.y <= a.pos.y)
            &&& a2.radius == a.radius && b2.radius == b.radius
            &&& a2.prev_pos == a.prev_pos && b2.prev_pos == b.prev_pos
            &&& a2.prev_dt == a.prev_dt && b2.prev_dt == b.prev_dt
            &&& a2.color == a.color && b2.color == b.color
        }),
{
    lemma_correction_bound(a, b, dt, pr);
}

/// A pairwise resolution never pushes two particles deeper into each
/// other: the center distance does not shrink, so the overlap does not
/// grow. Holds under the same saturation margin as the symmetry law.
pub proof fn lemma_resolution_separates(a: Particle, b: Particle, dt: int, pr: int)
    requires
        a.wf(),
        b.wf(),
        1 <= dt,
        0 <= pr <= FP_ONE,
        -(COORD_LIMIT - (a.radius + b.radius)) <= a.pos.x <= COORD_LIMIT - (a.radius + b.radius),
        -(COORD_LIMIT - (a.radius + b.radius)) <= a.pos.y <= COORD_LIMIT - (a.radius + b.radius),
        -(COORD_LIMIT - (a.radius + b.radius)) <= b.pos.x <= COORD_LIMIT - (a.radius + b.radius),
        -(COORD_LIMIT - (a.radius + b.radius)) <= b.pos.y <= COORD_LIMIT - (a.radius + b.radius),
    ensures
        ({
            let (a2, b2) = resolve_pair(a, b, dt, pr);
            &&& dist_clamped(a2.pos, b2.pos) >= dist_clamped(a.pos, b.pos)
            &&& overlap_of(a2, b2) <= overlap_of(a, b)
        }),
{
    if correction_applies(a, b, dt) {
        lemma_resolution_symmetric(a, b, dt, pr);
        lemma_correction_bound(a, b, dt, pr);
        let (a2, b2) = resolve_pair(a, b, dt, pr);
        let (cx, cy) = correction(a, b, dt, pr);
        let dx = a.pos.x - b.pos.x;
        let dy = a.pos.y - b.pos.y;
        let dx2 = a2.pos.x - b2.pos.x;
        let dy2 = a2.pos.y - b2.pos.y;
        assert(dx2 == dx + 2 * cx);
        assert(dy2 == dy + 2 * cy);
        assert(dx2 * dx2 >= dx * dx) by (nonlinear_arith)
            requires
                (dx >= 0 && dx2 >= dx) || (dx <= 0 && dx2 <= dx),
        ;
        assert(dy2 * dy2 >= dy * dy) by (nonlinear_arith)
            requires
                (dy >= 0 && dy2 >= dy) || (dy <= 0 && dy2 <= dy),
        ;
        lemma_square_nonneg(dx);
        lemma_square_nonneg(dy);
        lemma_sqrt_floor_monotone(dist_sq(a.pos, b.pos), dist_sq(a2.pos, b2.pos));
    }
}

} // verus!
