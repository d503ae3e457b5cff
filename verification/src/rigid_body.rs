//! A reduced rigid body carrying only the kinematic state (velocity and
//! acceleration), used by the particle bundle; the full body with mass lives
//! in `crate::physics`.

use vstd::prelude::*;

use crate::math_helpers::Vec2;

verus! {

/// Velocity and constant acceleration of a particle, fixed-point.
#[derive(Clone, Copy, Debug, PartialEq, Eq, Structural)]
pub struct RigidBody {
    pub velocity: Vec2,
    pub acceleration: Vec2,
}

impl Default for RigidBody {
    /// At rest, unaccelerated.
    fn default() -> (r: RigidBody)
        ensures
            r.velocity == (Vec2 { x: 0i64, y: 0i64 }),
            r.acceleration == (Vec2 { x: 0i64, y: 0i64 }),
    {
        RigidBody { velocity: Vec2 { x: 0, y: 0 }, acceleration: Vec2 { x: 0, y: 0 } }
    }
}

} // verus!
