//! Pairwise penalty collision resolution.
//!
//! Two particles collide when the distance between their centers is below
//! the sum of their radii. The positional correction is split symmetrically:
//! each particle moves by half the overlap, scaled by a smooth penalty force
//! and by the collision-pressure coefficient, along the center line.

use vstd::prelude::*;
use crate::fixed::{
    COORD_LIMIT, DT_MAX, FP_ONE, imax, lemma_abs_mul_bound, lemma_sqrt_floor_bounds,
    lemma_square_nonneg, lemma_tdiv_bound, sat, sat_i64, sqrt_floor, tdiv, div_trunc, isqrt,
};
use crate::particle::Particle;
use crate::vec2::Vec2;

verus! {

/// Default collision-pressure coefficient: 0.25.
pub const K_COLLISION_PRESSURE: i64 = 250_000;

/// Corrections whose penalty force falls below this threshold are skipped:
/// 0.01.
pub const K_MIN_FORCE: i64 = 10_000;

/// Squared distance between two positions.
pub open spec fn dist_sq(a: Vec2, b: Vec2) -> int {
    (a.x - b.x) * (a.x - b.x) + (a.y - b.y) * (a.y - b.y)
}

/// Center distance, floored; clamped to at least one fixed-point step so it
/// can stand in a denominator even when the centers coincide.
pub open spec fn dist_clamped(a: Vec2, b: Vec2) -> int {
    imax(sqrt_floor(dist_sq(a, b)), 1)
}

/// How deep two particles penetrate: sum of radii minus center distance.
pub open spec fn overlap_of(a: Particle, b: Particle) -> int {
    a.radius + b.radius - dist_clamped(a.pos, b.pos)
}

/// The smooth penalty force, in `[0, FP_ONE)`: saturates toward one for
/// large penetration and vanishes for small or negative overlap.
pub open spec fn penalty_force(overlap: int, dt: int) -> int {
    if overlap <= 0 {
        0
    } else {
        tdiv((FP_ONE as int) * overlap, overlap + dt)
    }
}

/// The correction vector one pairwise resolution adds to the first
/// particle's position (and subtracts from the second's): half the overlap
/// along the center line, scaled by the penalty force and the pressure.
pub open spec fn correction(a: Particle, b: Particle, dt: int, pressure: int) -> (int, int) {
    let dist = dist_clamped(a.pos, b.pos);
    let overlap = a.radius + b.radius - dist;
    let force = penalty_force(overlap, dt);
    let denom = 2 * dist * (FP_ONE as int) * (FP_ONE as int);
    (
        tdiv((a.pos.x - b.pos.x) * pressure * overlap * force, denom),
        tdiv((a.pos.y - b.pos.y) * pressure * overlap * force, denom),
    )
}

/// Whether a pairwise resolution applies a correction at all: the particles
/// overlap and the penalty force reaches the minimum-force threshold.
pub open spec fn correction_applies(a: Particle, b: Particle, dt: int) -> bool {
    let t = a.radius + b.radius;
    &&& dist_sq(a.pos, b.pos) <= t * t
    &&& penalty_force(a.radius + b.radius - dist_clamped(a.pos, b.pos), dt) >= K_MIN_FORCE
}

/// One pairwise penalty resolution: both particles move by exactly opposite
/// corrections (saturated into the coordinate range); nothing else changes.
pub open spec fn resolve_pair(a: Particle, b: Particle, dt: int, pressure: int) -> (Particle, Particle) {
    if !correction_applies(a, b, dt) {
        (a, b)
    } else {
        let (cx, cy) = correction(a, b, dt, pressure);
        (
            Particle {
                pos: Vec2 { x: sat(a.pos.x + cx) as i64, y: sat(a.pos.y + cy) as i64 },
                ..a
            },
            Particle {
                pos: Vec2 { x: sat(b.pos.x - cx) as i64, y: sat(b.pos.y - cy) as i64 },
                ..b
            },
        )
    }
}

/// Neither component of the center offset exceeds the clamped distance.
pub proof fn lemma_component_le_dist(a: Vec2, b: Vec2)
    ensures
        -dist_clamped(a, b) <= a.x - b.x <= dist_clamped(a, b),
        -dist_clamped(a, b) <= a.y - b.y <= dist_clamped(a, b),
{
    let dx = a.x - b.x;
    let dy = a.y - b.y;
    let d2 = dist_sq(a, b);
    lemma_square_nonneg(dx);
    lemma_square_nonneg(dy);
    lemma_sqrt_floor_bounds(d2);
    let s = sqrt_floor(d2);
    assert(-s <= dx <= s && -s <= dy <= s) by (nonlinear_arith)
        requires
            s >= 0,
            d2 == dx * dx + dy * dy,
            dy * dy >= 0,
            dx * dx >= 0,
            d2 < (s + 1) * (s + 1),
    ;
}

/// The correction never exceeds the overlap in magnitude, and each of its
/// components points from the second particle toward the first.
pub proof fn lemma_correction_bound(a: Particle, b: Particle, dt: int, pr: int)
    requires
        1 <= dt,
        0 <= pr <= FP_ONE,
    ensures
        ({
            let (cx, cy) = correction(a, b, dt, pr);
            let m = imax(a.radius + b.radius - dist_clamped(a.pos, b.pos), 0);
            &&& -m <= cx <= m
            &&& -m <= cy <= m
            &&& (a.pos.x - b.pos.x >= 0 ==> cx >= 0)
            &&& (a.pos.x - b.pos.x <= 0 ==> cx <= 0)
            &&& (a.pos.y - b.pos.y >= 0 ==> cy >= 0)
            &&& (a.pos.y - b.pos.y <= 0 ==> cy <= 0)
        }),
{
    let dist = dist_clamped(a.pos, b.pos);
    let ov = a.radius + b.radius - dist;
    let force = penalty_force(ov, dt);
    let denom = 2 * dist * (FP_ONE as int) * (FP_ONE as int);
    let dx = a.pos.x - b.pos.x;
    let dy = a.pos.y - b.pos.y;
    lemma_square_nonneg(dx);
    lemma_square_nonneg(dy);
    lemma_sqrt_floor_bounds(dist_sq(a.pos, b.pos));
    assert(dist >= 1);
    assert(denom >= 1);
    lemma_component_le_dist(a.pos, b.pos);
    if ov <= 0 {
        assert(((dx * pr) * ov) * 0 == 0) by (nonlinear_arith);
        assert(((dy * pr) * ov) * 0 == 0) by (nonlinear_arith);
        lemma_tdiv_bound(0, denom, 0);
    } else {
        assert(force >= 0 && force < FP_ONE) by {
            assert((FP_ONE as int) * ov < (ov + dt) * (FP_ONE as int)) by (nonlinear_arith)
                requires
                    ov >= 1,
                    dt >= 1,
            ;
            vstd::arithmetic::div_mod::lemma_multiply_divide_lt(
                (FP_ONE as int) * ov,
                ov + dt,
                FP_ONE as int,
            );
            vstd::arithmetic::div_mod::lemma_div_pos_is_pos((FP_ONE as int) * ov, ov + dt);
        }
        lemma_abs_mul_bound(dx, pr, dist, FP_ONE as int);
        lemma_abs_mul_bound(dy, pr, dist, FP_ONE as int);
        lemma_abs_mul_bound(dx * pr, ov, dist * (FP_ONE as int), ov);
        lemma_abs_mul_bound(dy * pr, ov, dist * (FP_ONE as int), ov);
        lemma_abs_mul_bound(dx * pr * ov, force, dist * (FP_ONE as int) * ov, FP_ONE as int);
        lemma_abs_mul_bound(dy * pr * ov, force, dist * (FP_ONE as int) * ov, FP_ONE as int);
        assert(dist * (FP_ONE as int) * ov * (FP_ONE as int) * 2 == ov * denom) by (nonlinear_arith)
            requires
                denom == 2 * dist * (FP_ONE as int) * (FP_ONE as int),
        ;
        assert(ov * denom >= 0) by (nonlinear_arith)
            requires
                ov >= 1,
                denom >= 1,
        ;
        lemma_tdiv_le_factor(dx * pr * ov * force, denom, ov);
        lemma_tdiv_le_factor(dy * pr * ov * force, denom, ov);
        if dx >= 0 {
            lemma_sign_chain_nonneg(dx, pr, ov, force);
        }
        if dx <= 0 {
            lemma_sign_chain_nonpos(dx, pr, ov, force);
        }
        if dy >= 0 {
            lemma_sign_chain_nonneg(dy, pr, ov, force);
        }
        if dy <= 0 {
            lemma_sign_chain_nonpos(dy, pr, ov, force);
        }
        lemma_tdiv_bound(dx * pr * ov * force, denom, ov * denom);
        lemma_tdiv_bound(dy * pr * ov * force, denom, ov * denom);
    }
}

/// If `|num| <= c * denom` then `|tdiv(num, denom)| <= c`.
proof fn lemma_tdiv_le_factor(num: int, denom: int, c: int)
    requires
        denom >= 1,
        c >= 0,
        -(c * denom) <= num <= c * denom,
    ensures
        -c <= tdiv(num, denom) <= c,
{
    vstd::arithmetic::mul::lemma_mul_is_commutative(c, denom);
    if num >= 0 {
        vstd::arithmetic::div_mod::lemma_multiply_divide_le(num, denom, c);
        vstd::arithmetic::div_mod::lemma_div_pos_is_pos(num, denom);
    } else {
        vstd::arithmetic::div_mod::lemma_multiply_divide_le(-num, denom, c);
        vstd::arithmetic::div_mod::lemma_div_pos_is_pos(-num, denom);
    }
}

/// A product of nonnegative factors is nonnegative.
proof fn lemma_sign_chain_nonneg(d: int, pr: int, ov: int, force: int)
    by (nonlinear_arith)
    requires
        d >= 0,
        pr >= 0,
        ov >= 0,
        force >= 0,
    ensures
        d * pr * ov * force >= 0,
{
}

/// A product with one nonpositive factor among nonnegative ones is
/// nonpositive.
proof fn lemma_sign_chain_nonpos(d: int, pr: int, ov: int, force: int)
    by (nonlinear_arith)
    requires
        d <= 0,
        pr >= 0,
        ov >= 0,
        force >= 0,
    ensures
        d * pr * ov * force <= 0,
{
}

impl Particle {
    /// Resolve the collision, if any, between `self` and `other`.
    pub fn update_collision(&mut self, dt: i64, pressure: i64, other: &mut Particle)
        requires
            old(self).wf(),
            old(other).wf(),
            1 <= dt <= DT_MAX,
            0 <= pressure <= FP_ONE,
        ensures
            (*final(self), *final(other)) == resolve_pair(*old(self), *old(other), dt as int, pressure as int),
            final(self).wf(),
            final(other).wf(),
    {
        let dx: i128 = self.pos.x as i128 - other.pos.x as i128;
        let dy: i128 = self.pos.y as i128 - other.pos.y as i128;
        let t: i128 = self.radius as i128 + other.radius as i128;
        proof {
            lemma_square_nonneg(dx as int);
            lemma_square_nonneg(dy as int);
            lemma_abs_mul_bound(dx as int, dx as int, 2 * (COORD_LIMIT as int), 2 * (COORD_LIMIT as int));
            lemma_abs_mul_bound(dy as int, dy as int, 2 * (COORD_LIMIT as int), 2 * (COORD_LIMIT as int));
            lemma_abs_mul_bound(t as int, t as int, 2 * (COORD_LIMIT as int), 2 * (COORD_LIMIT as int));
        }
        let d2: i128 = dx * dx + dy * dy;
        if d2 > t * t {
            return ;
        }
        let dist: i128 = {
            let r = isqrt(d2 as u128);
            proof {
                lemma_sqrt_floor_bounds(d2 as int);
            }
            if r < 1 {
                1
            } else {
                r as i128
            }
        };
        let overlap: i128 = t - dist;
        let force: i128 = if overlap <= 0 {
            0
        } else {
            proof {
                vstd::arithmetic::div_mod::lemma_multiply_divide_lt(
                    (FP_ONE as int) * (overlap as int),
                    (overlap as int) + (dt as int),
                    FP_ONE as int,
                );
                lemma_abs_mul_bound((FP_ONE as int) * (overlap as int), 1, (FP_ONE as int) * 2 * (COORD_LIMIT as int), 1);
                lemma_tdiv_bound((FP_ONE as int) * (overlap as int), (overlap as int) + (dt as int), (FP_ONE as int) * 2 * (COORD_LIMIT as int));
            }
            div_trunc(FP_ONE as i128 * overlap, overlap + dt as i128)
        };
        if force < K_MIN_FORCE as i128 {
            return ;
        }
        proof {
            lemma_abs_mul_bound(dx as int, pressure as int, 2 * (COORD_LIMIT as int), FP_ONE as int);
            lemma_abs_mul_bound(dy as int, pressure as int, 2 * (COORD_LIMIT as int), FP_ONE as int);
            lemma_abs_mul_bound(
                (dx as int) * (pressure as int),
                overlap as int,
                2 * (COORD_LIMIT as int) * (FP_ONE as int),
                2 * (COORD_LIMIT as int),
            );
            lemma_abs_mul_bound(
                (dy as int) * (pressure as int),
                overlap as int,
                2 * (COORD_LIMIT as int) * (FP_ONE as int),
                2 * (COORD_LIMIT as int),
            );
            lemma_abs_mul_bound(
                (dx as int) * (pressure as int) * (overlap as int),
                force as int,
                2 * (COORD_LIMIT as int) * (FP_ONE as int) * 2 * (COORD_LIMIT as int),
                FP_ONE as int,
            );
            lemma_abs_mul_bound(
                (dy as int) * (pressure as int) * (overlap as int),
                force as int,
                2 * (COORD_LIMIT as int) * (FP_ONE as int) * 2 * (COORD_LIMIT as int),
                FP_ONE as int,
            );
        }
        let denom: i128 = 2 * dist * FP_ONE as i128 * FP_ONE as i128;
        let cx: i128 = div_trunc(dx * pressure as i128 * overlap * force, denom);
        let cy: i128 = div_trunc(dy * pressure as i128 * overlap * force, denom);
        self.pos = Vec2 {
            x: sat_i64(self.pos.x as i128 + cx),
            y: sat_i64(self.pos.y as i128 + cy),
        };
        other.pos = Vec2 {
            x: sat_i64(other.pos.x as i128 - cx),
            y: sat_i64(other.pos.y as i128 - cy),
        };
    }
}

} // verus!
