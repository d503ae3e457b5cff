//! A 2D particle-physics core: circular rigid bodies moving under constant
//! acceleration inside a rectangular arena, colliding elastically with each
//! other and with the arena walls.
//!
//! All quantities (positions, velocities, accelerations, masses, radii, time
//! steps) are binary fixed-point numbers: an `i64` holds the real value
//! multiplied by `fixed::FX_SCALE`. Every arithmetic operation is specified
//! exactly, including its rounding (toward zero) and its saturation at the
//! `i64` range, so the whole pipeline is a deterministic function of its
//! inputs.

pub mod debug;
pub mod entity_map;
pub mod fixed;
pub mod math_helpers;
pub mod particle;
pub mod physics;
pub mod rigid_body;
