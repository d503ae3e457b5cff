use particle_sandbox::debug::{total_kinetic_energy, total_linear_momentum};
use particle_sandbox::fixed::{fx_div, isqrt_u128};
use particle_sandbox::entity_map::{remap, EntityMap};
use particle_sandbox::math_helpers::Vec2;
use particle_sandbox::physics::{
    axis_collision_time, calculate_additive_collision_trajectory, calculate_exact_collision_time,
    resolve_particle_collisions, resolve_wall_collisions, update_rigid_bodies, AxisRoots,
    BodyState, CircleCollider, RigidBody,
};

const S: i64 = 65536;

fn body(id: u64, px: i64, py: i64, vx: i64, vy: i64, mass: i64, radius: i64) -> BodyState {
    BodyState {
        id,
        position: Vec2::new(px, py),
        body: RigidBody::new(mass, Vec2::new(vx, vy), Vec2::new(0, 0)).unwrap(),
        collider: CircleCollider::new(radius).unwrap(),
    }
}

#[test]
fn rigid_body_new_rejects_non_positive_mass() {
    assert!(RigidBody::new(0, Vec2::new(0, 0), Vec2::new(0, 0)).is_none());
    assert!(RigidBody::new(-S, Vec2::new(0, 0), Vec2::new(0, 0)).is_none());
    assert!(RigidBody::new(S, Vec2::new(0, 0), Vec2::new(0, 0)).is_some());
}

#[test]
fn circle_collider_rejects_negative_radius() {
    assert!(CircleCollider::new(-1).is_none());
    assert!(CircleCollider::new(0).is_some());
}

#[test]
fn integration_advances_position_and_velocity() {
    let dt = S / 128; // 1/128 s
    let mut states = vec![body(1, 0, 0, 100 * S, 0, 10 * S, 2 * S)];
    update_rigid_bodies(&mut states, dt);
    // 100 units/s for 1/128 s: 0.78125 units == 51200 raw.
    assert_eq!(states[0].position, Vec2::new(51200, 0));
    assert_eq!(states[0].body.velocity, Vec2::new(100 * S, 0));
}

#[test]
fn integration_with_acceleration() {
    // One full second at 1 unit/s^2 from rest: position +0.5, velocity +1.
    let mut states = vec![BodyState {
        id: 1,
        position: Vec2::new(0, 0),
        body: RigidBody::new(S, Vec2::new(0, 0), Vec2::new(S, 0)).unwrap(),
        collider: CircleCollider::new(S).unwrap(),
    }];
    update_rigid_bodies(&mut states, S);
    assert_eq!(states[0].position, Vec2::new(S / 2, 0));
    assert_eq!(states[0].body.velocity, Vec2::new(S, 0));
}

#[test]
fn integration_is_deterministic() {
    let dt = S / 128;
    let start = vec![body(1, 3 * S, -7 * S, 13 * S, 5 * S, 2 * S, S)];
    let mut a = start.clone();
    let mut b = start.clone();
    update_rigid_bodies(&mut a, dt);
    update_rigid_bodies(&mut b, dt);
    assert_eq!(a[0], b[0]);
}

#[test]
fn wall_reflects_outward_motion() {
    // At x = half_x - radius moving with velocity.x = +5: negated to -5,
    // vertical velocity kept.
    let mut states = vec![body(1, 48 * S, 0, 5 * S, 3 * S, 10 * S, 2 * S)];
    resolve_wall_collisions(&mut states, Vec2::new(50 * S, 50 * S));
    assert_eq!(states[0].body.velocity, Vec2::new(-5 * S, 3 * S));
    assert_eq!(states[0].position, Vec2::new(48 * S, 0));
}

#[test]
fn wall_keeps_inward_motion() {
    let mut states = vec![body(1, 48 * S, 0, -5 * S, 0, 10 * S, 2 * S)];
    resolve_wall_collisions(&mut states, Vec2::new(50 * S, 50 * S));
    assert_eq!(states[0].body.velocity, Vec2::new(-5 * S, 0));
}

#[test]
fn wall_reflects_on_both_axes() {
    let mut states = vec![body(1, -49 * S, -49 * S, -5 * S, -7 * S, 10 * S, 2 * S)];
    resolve_wall_collisions(&mut states, Vec2::new(50 * S, 50 * S));
    assert_eq!(states[0].body.velocity, Vec2::new(5 * S, 7 * S));
}

#[test]
fn equal_mass_head_on_increment_is_velocity_exchange() {
    // Equal masses, displacement and relative velocity along x: the
    // increment is exactly v2 - v1, and the mirrored pair gets the exact
    // negation (momentum conserved).
    let v1 = Vec2::new(100 * S, 0);
    let v2 = Vec2::new(-100 * S, 0);
    let d = Vec2::new(-4 * S, 0);
    let add1 = calculate_additive_collision_trajectory(v1, v2, 10 * S, 10 * S, d);
    assert_eq!(add1, Vec2::new(-200 * S, 0));
    let dneg = Vec2::new(4 * S, 0);
    let add2 = calculate_additive_collision_trajectory(v2, v1, 10 * S, 10 * S, dneg);
    assert_eq!(add2, Vec2::new(200 * S, 0));
}

#[test]
fn unequal_mass_increment() {
    // m1 = 1, m2 = 3, rel = (-4, 0), d = (-1, 0):
    // scaled dot = 2*3*((-4)*(-1))/(1+3) = 6; increment = 6*(-1)/1 = -6.
    let add = calculate_additive_collision_trajectory(
        Vec2::new(2 * S, 0),
        Vec2::new(-2 * S, 0),
        S,
        3 * S,
        Vec2::new(-S, 0),
    );
    assert_eq!(add, Vec2::new(-6 * S, 0));
}

#[test]
fn axis_time_no_relative_motion_is_infinite() {
    assert_eq!(axis_collision_time(0, 0, 5 * S), AxisRoots::Infinite);
    assert_eq!(axis_collision_time(0, 0, 0), AxisRoots::Infinite);
}

#[test]
fn axis_time_linear_crossing() {
    // a == 0, b == -2, c == -1: the double root -c/b == -0.5.
    assert_eq!(
        axis_collision_time(0, -2 * S, -S),
        AxisRoots::Roots(-S / 2, -S / 2)
    );
}

#[test]
fn collision_time_axis_aligned() {
    // Bodies on the x axis, 10 apart, combined radius 1, closing at 5:
    // the x axis reports the double linear root
    // -c/b == -(0 - 10 - 1)/(0 - 5) == -2.2, the y axis (no relative
    // motion) no finite crossing, so -2.2 is the combined time.
    let rb1 = RigidBody::new(10 * S, Vec2::new(5 * S, 0), Vec2::new(0, 0)).unwrap();
    let rb2 = RigidBody::new(10 * S, Vec2::new(0, 0), Vec2::new(0, 0)).unwrap();
    let t = calculate_exact_collision_time(Vec2::new(0, 0), Vec2::new(10 * S, 0), &rb1, &rb2, S);
    // -2.2 in fixed point, rounded toward zero: -(11*65536/5) == -144179.
    assert_eq!(t, -(11 * S / 5));
}

#[test]
fn collision_time_diagonal_pairs_roots() {
    // Diagonal motion: both axes report the same double root, which pairs
    // with itself and is the combined time.
    let s200: i64 = isqrt_u128(200 * (S as u128) * (S as u128)) as i64;
    let cr = 2 * S;
    let rv = ((10 * S as i128) * (cr as i128) / (s200 as i128)) as i64;
    let c = -10 * S - rv;
    let b = -5 * S;
    let expected = fx_div(-c, b);
    let rb1 = RigidBody::new(10 * S, Vec2::new(5 * S, 5 * S), Vec2::new(0, 0)).unwrap();
    let rb2 = RigidBody::new(10 * S, Vec2::new(0, 0), Vec2::new(0, 0)).unwrap();
    let t = calculate_exact_collision_time(
        Vec2::new(0, 0),
        Vec2::new(10 * S, 10 * S),
        &rb1,
        &rb2,
        cr,
    );
    assert_eq!(t, expected);
}

#[test]
fn collision_time_no_real_root_falls_back_to_zero() {
    // A negative discriminant on the moving axis and no finite crossing on
    // the other: the defined fallback is zero, never a propagating
    // non-number.
    let rb1 = RigidBody::new(10 * S, Vec2::new(0, 0), Vec2::new(2 * S, 0)).unwrap();
    let rb2 = RigidBody::new(10 * S, Vec2::new(0, 0), Vec2::new(0, 0)).unwrap();
    let t = calculate_exact_collision_time(Vec2::new(0, 0), Vec2::new(10 * S, 0), &rb1, &rb2, S);
    assert_eq!(t, 0);
}

#[test]
fn resolver_swaps_velocities_of_equal_mass_pair() {
    let mut map = EntityMap::new(Vec2::new(100 * S, 100 * S), 10 * S).unwrap();
    let mut states = vec![
        body(1, -S, 0, 100 * S, 0, 10 * S, 2 * S),
        body(2, S, 0, -100 * S, 0, 10 * S, 2 * S),
    ];
    let positions: Vec<(u64, Vec2)> = states.iter().map(|s| (s.id, s.position)).collect();
    remap(&mut map, &positions);
    resolve_particle_collisions(&mut states, &map);
    assert_eq!(states[0].body.velocity, Vec2::new(-100 * S, 0));
    assert_eq!(states[1].body.velocity, Vec2::new(100 * S, 0));
}

#[test]
fn resolver_leaves_isolated_bodies_alone() {
    let mut map = EntityMap::new(Vec2::new(100 * S, 100 * S), 10 * S).unwrap();
    let mut states = vec![
        body(1, -40 * S, -40 * S, 7 * S, 0, 10 * S, 2 * S),
        body(2, 40 * S, 40 * S, -7 * S, 0, 10 * S, 2 * S),
    ];
    let positions: Vec<(u64, Vec2)> = states.iter().map(|s| (s.id, s.position)).collect();
    remap(&mut map, &positions);
    let before = states.clone();
    resolve_particle_collisions(&mut states, &map);
    assert_eq!(states, before);
}

#[test]
fn kinetic_energy_and_momentum_totals() {
    // One body of mass 2 at velocity (3,4): KE = 2*25/2 = 25, p = (6, 8).
    let states = vec![body(1, 0, 0, 3 * S, 4 * S, 2 * S, S)];
    assert_eq!(total_kinetic_energy(&states), 25 * S);
    assert_eq!(total_linear_momentum(&states), Vec2::new(6 * S, 8 * S));
    // Two opposed bodies: momentum cancels, energy adds.
    let states = vec![
        body(1, 0, 0, 3 * S, 4 * S, 2 * S, S),
        body(2, 0, 0, -3 * S, -4 * S, 2 * S, S),
    ];
    assert_eq!(total_kinetic_energy(&states), 50 * S);
    assert_eq!(total_linear_momentum(&states), Vec2::new(0, 0));
}
