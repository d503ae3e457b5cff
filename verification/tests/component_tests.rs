use particle_sandbox::debug::DebugPhysicsText;
use particle_sandbox::math_helpers::Vec2;
use particle_sandbox::particle::Particle;
use particle_sandbox::physics::{CircleCollider, RigidBody};

const S: i64 = 65536;

#[test]
fn rigid_body_default_is_unit_mass_at_rest() {
    let rb = RigidBody::default();
    assert_eq!(rb.mass, S);
    assert_eq!(rb.velocity, Vec2::new(0, 0));
    assert_eq!(rb.acceleration, Vec2::new(0, 0));
}

#[test]
fn kinematic_body_default_is_at_rest() {
    let rb = particle_sandbox::rigid_body::RigidBody::default();
    assert_eq!(rb.velocity, Vec2::new(0, 0));
    assert_eq!(rb.acceleration, Vec2::new(0, 0));
}

#[test]
fn circle_collider_default_has_unit_radius() {
    assert_eq!(CircleCollider::default().radius, S);
}

#[test]
fn particle_new_places_it_at_rest() {
    let p = Particle::new(Vec2::new(3 * S, -4 * S));
    assert_eq!(p.transform, Vec2::new(3 * S, -4 * S));
    assert_eq!(p.rigidbody.velocity, Vec2::new(0, 0));
    let q = Particle::default();
    assert_eq!(q.transform, Vec2::new(0, 0));
}

#[test]
fn debug_marker_exists() {
    let _marker = DebugPhysicsText;
}
