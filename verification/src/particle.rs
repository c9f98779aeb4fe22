//! The particle: position, previous position (implicit velocity), radius
//! and an opaque display tag, advanced by Verlet integration.

use vstd::prelude::*;
use crate::fixed::{
    COORD_LIMIT, DT_MAX, FP_ONE, lemma_abs_mul_bound, lemma_tdiv_bound, sat, sat_i64, tdiv,
    div_trunc,
};
use crate::vec2::Vec2;

verus! {

/// A soft circular body. Velocity is implicit:
/// `(pos - prev_pos) / prev_dt`.
#[derive(Clone, Copy, Debug, PartialEq, Eq, Structural)]
pub struct Particle {
    /// Current position.
    pub pos: Vec2,
    /// Position at the previous substep.
    pub prev_pos: Vec2,
    /// Radius, never negative.
    pub radius: i64,
    /// Length of the substep that produced `prev_pos`, always positive.
    pub prev_dt: i64,
    /// Opaque display tag, irrelevant to the physics.
    pub color: u32,
}

/// A radius handed in by the caller, normalized: its absolute value,
/// saturated into the coordinate range.
pub open spec fn radius_norm(r: int) -> int {
    if r >= 0 {
        sat(r)
    } else {
        sat(-r)
    }
}

/// The particle a spawn request produces: position saturated into range,
/// previous position one unit of time behind along the given velocity.
pub open spec fn spawn_spec(pos: Vec2, vel: Vec2, radius: i64, color: u32) -> Particle {
    Particle {
        pos: Vec2 { x: sat(pos.x as int) as i64, y: sat(pos.y as int) as i64 },
        prev_pos: Vec2 {
            x: sat(pos.x - vel.x) as i64,
            y: sat(pos.y - vel.y) as i64,
        },
        radius: radius_norm(radius as int) as i64,
        prev_dt: FP_ONE,
        color,
    }
}

/// One component of the Verlet update:
/// `pos + velocity*dt + acceleration*dt^2`, each product scaled back by
/// `FP_ONE` and the result saturated into the coordinate range.
pub open spec fn verlet_component(pos: int, prev: int, prev_dt: int, dt: int, acc: int) -> int {
    let vel = tdiv((pos - prev) * (FP_ONE as int), prev_dt);
    sat(
        pos + tdiv(vel * dt, FP_ONE as int) + tdiv(
            acc * dt * dt,
            (FP_ONE as int) * (FP_ONE as int),
        ),
    )
}

/// The whole Verlet update of one particle.
pub open spec fn verlet_spec(p: Particle, dt: int, acc: Vec2) -> Particle {
    Particle {
        pos: Vec2 {
            x: verlet_component(p.pos.x as int, p.prev_pos.x as int, p.prev_dt as int, dt, acc.x as int) as i64,
            y: verlet_component(p.pos.y as int, p.prev_pos.y as int, p.prev_dt as int, dt, acc.y as int) as i64,
        },
        prev_pos: p.pos,
        radius: p.radius,
        prev_dt: dt as i64,
        color: p.color,
    }
}

impl Particle {
    /// Well-formedness: coordinates in range, radius and previous step sane.
    pub open spec fn wf(self) -> bool {
        &&& self.pos.in_range()
        &&& self.prev_pos.in_range()
        &&& 0 <= self.radius <= COORD_LIMIT
        &&& 1 <= self.prev_dt <= DT_MAX
    }

    /// Spawn a particle from a position, a velocity, a radius and a display
    /// tag. A non-positive radius is normalized to its absolute value.
    pub fn new(pos: Vec2, vel: Vec2, radius: i64, color: u32) -> (p: Particle)
        ensures
            p == spawn_spec(pos, vel, radius, color),
            p.wf(),
    {
        let r = if radius >= 0 {
            sat_i64(radius as i128)
        } else {
            sat_i64(-(radius as i128))
        };
        Particle {
            pos: Vec2 { x: sat_i64(pos.x as i128), y: sat_i64(pos.y as i128) },
            prev_pos: Vec2 {
                x: sat_i64(pos.x as i128 - vel.x as i128),
                y: sat_i64(pos.y as i128 - vel.y as i128),
            },
            radius: r,
            prev_dt: FP_ONE,
            color,
        }
    }

    /// Advance the particle by one Verlet substep of length `dt` under the
    /// acceleration `acc`.
    pub fn update_verlet(&mut self, dt: i64, acc: Vec2)
        requires
            old(self).wf(),
            1 <= dt <= DT_MAX,
        ensures
            *final(self) == verlet_spec(*old(self), dt as int, acc),
            final(self).wf(),
    {
        let nx = verlet_exec_component(self.pos.x, self.prev_pos.x, self.prev_dt, dt, acc.x);
        let ny = verlet_exec_component(self.pos.y, self.prev_pos.y, self.prev_dt, dt, acc.y);
        self.prev_pos = self.pos;
        self.pos = Vec2 { x: nx, y: ny };
        self.prev_dt = dt;
    }
}

/// One component of the executable Verlet update.
fn verlet_exec_component(pos: i64, prev: i64, prev_dt: i64, dt: i64, acc: i64) -> (r: i64)
    requires
        -COORD_LIMIT <= pos <= COORD_LIMIT,
        -COORD_LIMIT <= prev <= COORD_LIMIT,
        1 <= prev_dt <= DT_MAX,
        1 <= dt <= DT_MAX,
    ensures
        r as int == verlet_component(pos as int, prev as int, prev_dt as int, dt as int, acc as int),
        -COORD_LIMIT <= r <= COORD_LIMIT,
{
    let diff: i128 = pos as i128 - prev as i128;
    let vel: i128 = div_trunc(diff * (FP_ONE as i128), prev_dt as i128);
    proof {
        lemma_tdiv_bound(diff * (FP_ONE as int), prev_dt as int, 2 * (COORD_LIMIT as int) * (FP_ONE as int));
        lemma_abs_mul_bound(vel as int, dt as int, 2 * (COORD_LIMIT as int) * (FP_ONE as int), DT_MAX as int);
    }
    let vstep: i128 = div_trunc(vel * dt as i128, FP_ONE as i128);
    proof {
        lemma_tdiv_bound(
            (vel as int) * (dt as int),
            FP_ONE as int,
            2 * (COORD_LIMIT as int) * (FP_ONE as int) * (DT_MAX as int),
        );
        lemma_abs_mul_bound(acc as int, dt as int, i64::MAX as int + 1, DT_MAX as int);
        lemma_abs_mul_bound(
            (acc as int) * (dt as int),
            dt as int,
            (i64::MAX as int + 1) * (DT_MAX as int),
            DT_MAX as int,
        );
    }
    let astep: i128 = div_trunc(
        acc as i128 * dt as i128 * dt as i128,
        FP_ONE as i128 * FP_ONE as i128,
    );
    proof {
        lemma_tdiv_bound(
            (acc as int) * (dt as int) * (dt as int),
            (FP_ONE as int) * (FP_ONE as int),
            (i64::MAX as int + 1) * (DT_MAX as int) * (DT_MAX as int),
        );
    }
    sat_i64(pos as i128 + vstep + astep)
}

} // verus!
