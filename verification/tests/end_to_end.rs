//! The full pipeline on a two-body scenario: a 100x100 domain with cells of
//! 10, two bodies of mass 10 and radius 2 starting at (-45, 0) and (45, 0)
//! with velocities (100, 0) and (-100, 0), stepped at dt = 1/128. They must
//! collide and reverse, then reflect off the walls at x = +/-50.

use particle_sandbox::entity_map::{remap, EntityMap};
use particle_sandbox::math_helpers::Vec2;
use particle_sandbox::physics::{
    resolve_particle_collisions, resolve_wall_collisions, update_rigid_bodies, BodyState,
    CircleCollider, RigidBody,
};

const S: i64 = 65536;

fn tick(states: &mut Vec<BodyState>, map: &mut EntityMap, dt: i64, half: Vec2) {
    update_rigid_bodies(states, dt);
    let positions: Vec<(u64, Vec2)> = states.iter().map(|s| (s.id, s.position)).collect();
    remap(map, &positions);
    resolve_particle_collisions(states, map);
    resolve_wall_collisions(states, half);
}

#[test]
fn two_bodies_collide_then_reflect_off_walls() {
    let dt = S / 128;
    let half = Vec2::new(50 * S, 50 * S);
    let mut map = EntityMap::new(Vec2::new(100 * S, 100 * S), 10 * S).unwrap();
    let mut states = vec![
        BodyState {
            id: 1,
            position: Vec2::new(-45 * S, 0),
            body: RigidBody::new(10 * S, Vec2::new(100 * S, 0), Vec2::new(0, 0)).unwrap(),
            collider: CircleCollider::new(2 * S).unwrap(),
        },
        BodyState {
            id: 2,
            position: Vec2::new(45 * S, 0),
            body: RigidBody::new(10 * S, Vec2::new(-100 * S, 0), Vec2::new(0, 0)).unwrap(),
            collider: CircleCollider::new(2 * S).unwrap(),
        },
    ];

    let mut collided_at = None;
    let mut reflected_at = None;
    for step in 0..2000 {
        tick(&mut states, &mut map, dt, half);
        if collided_at.is_none() && states[0].body.velocity.x < 0 {
            // The elastic exchange is exact: velocities swap.
            assert_eq!(states[0].body.velocity, Vec2::new(-100 * S, 0));
            assert_eq!(states[1].body.velocity, Vec2::new(100 * S, 0));
            collided_at = Some(step);
        }
        if collided_at.is_some() && reflected_at.is_none() && states[0].body.velocity.x > 0 {
            // Both bodies have hit their walls and bounced back inward.
            assert_eq!(states[0].body.velocity, Vec2::new(100 * S, 0));
            assert_eq!(states[1].body.velocity, Vec2::new(-100 * S, 0));
            reflected_at = Some(step);
        }
        // Vertical motion never appears in this scenario.
        assert_eq!(states[0].body.velocity.y, 0);
        assert_eq!(states[1].body.velocity.y, 0);
    }
    let hit = collided_at.expect("the bodies never collided");
    let bounce = reflected_at.expect("the bodies never reflected off the walls");
    assert!(hit < bounce);
}
