//! The acceleration field: a caller-supplied pure function from particle
//! to acceleration, evaluated once per particle per substep.

use vstd::prelude::*;
use crate::particle::Particle;
use crate::vec2::Vec2;

verus! {

/// An acceleration field. Implementations must be pure: the result may
/// depend on the particle alone, which is what `accel_spec` expresses.
pub trait Accelerator: Sized {
    /// The field as a mathematical function.
    spec fn accel_spec(&self, p: Particle) -> Vec2;

    /// Evaluate the field on a particle.
    fn accel(&self, p: &Particle) -> (r: Vec2)
        requires
            p.wf(),
        ensures
            r == self.accel_spec(*p),
    ;
}

/// A uniform field: the same acceleration everywhere, such as gravity.
#[derive(Clone, Copy, Debug, PartialEq, Eq, Structural)]
pub struct UniformField {
    /// The acceleration applied to every particle.
    pub a: Vec2,
}

impl Accelerator for UniformField {
    open spec fn accel_spec(&self, p: Particle) -> Vec2 {
        self.a
    }

    fn accel(&self, p: &Particle) -> (r: Vec2) {
        self.a
    }
}

} // verus!
