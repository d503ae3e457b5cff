//! The particle bundle: the numeric position (the part of the transform the
//! physics reads and writes) together with its kinematic state.

use vstd::prelude::*;

use crate::math_helpers::Vec2;
use crate::rigid_body::RigidBody;

verus! {

/// A particle: its position and its kinematic state.
#[derive(Clone, Copy, Debug, PartialEq, Eq, Structural)]
pub struct Particle {
    pub transform: Vec2,
    pub rigidbody: RigidBody,
}

impl Default for Particle {
    /// At the origin, at rest.
    fn default() -> (r: Particle)
        ensures
            r.transform == (Vec2 { x: 0i64, y: 0i64 }),
            r.rigidbody.velocity == (Vec2 { x: 0i64, y: 0i64 }),
            r.rigidbody.acceleration == (Vec2 { x: 0i64, y: 0i64 }),
    {
        Particle {
            transform: Vec2 { x: 0, y: 0 },
            rigidbody: RigidBody { velocity: Vec2 { x: 0, y: 0 }, acceleration: Vec2 { x: 0, y: 0 } },
        }
    }
}

impl Particle {
    /// A particle at `pos`, at rest.
    pub fn new(pos: Vec2) -> (r: Particle)
        ensures
            r.transform == pos,
            r.rigidbody.velocity == (Vec2 { x: 0i64, y: 0i64 }),
            r.rigidbody.acceleration == (Vec2 { x: 0i64, y: 0i64 }),
    {
        Particle {
            transform: pos,
            rigidbody: RigidBody { velocity: Vec2 { x: 0, y: 0 }, acceleration: Vec2 { x: 0, y: 0 } },
        }
    }
}

} // verus!
