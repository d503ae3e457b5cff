//! The physics pipeline: rigid bodies, circle colliders, the per-tick
//! integrator, wall reflection, and particle collision resolution (broad
//! phase over the spatial grid, narrow phase by exact circle overlap,
//! response by projected elastic impulses with an exact collision-time
//! refinement).

use vstd::prelude::*;

use crate::entity_map::EntityMap;
use crate::fixed::{abs_int, div_tz, div_tz_i128, sat64, sat_i128, FX_LIM, FX_SCALE};
use crate::math_helpers::{dot_int, vec2_in_range, Vec2};

verus! {

/// A rigid body: mass, velocity and constant acceleration, all fixed-point.
#[derive(Clone, Copy, Debug, PartialEq, Eq, Structural)]
pub struct RigidBody {
    pub mass: i64,
    pub velocity: Vec2,
    pub acceleration: Vec2,
}

impl Default for RigidBody {
    /// Unit mass, at rest, unaccelerated.
    fn default() -> (r: RigidBody)
        ensures
            r.mass == FX_SCALE,
            r.velocity == (Vec2 { x: 0i64, y: 0i64 }),
            r.acceleration == (Vec2 { x: 0i64, y: 0i64 }),
    {
        RigidBody { mass: FX_SCALE, velocity: Vec2 { x: 0, y: 0 }, acceleration: Vec2 { x: 0, y: 0 } }
    }
}

impl RigidBody {
    /// Build a body; a non-positive mass is rejected.
    pub fn new(mass: i64, velocity: Vec2, acceleration: Vec2) -> (r: Option<RigidBody>)
        ensures
            r is Some <==> mass > 0,
            r matches Some(b) ==> b == (RigidBody { mass, velocity, acceleration }),
    {
        if mass > 0 {
            Some(RigidBody { mass, velocity, acceleration })
        } else {
            None
        }
    }
}

/// A circular collider of the given radius.
#[derive(Clone, Copy, Debug, PartialEq, Eq, Structural)]
pub struct CircleCollider {
    pub radius: i64,
}

impl Default for CircleCollider {
    /// Unit radius.
    fn default() -> (r: CircleCollider)
        ensures
            r.radius == FX_SCALE,
    {
        CircleCollider { radius: FX_SCALE }
    }
}

impl CircleCollider {
    /// Build a collider; a negative radius is rejected.
    pub fn new(radius: i64) -> (r: Option<CircleCollider>)
        ensures
            r is Some <==> radius >= 0,
            r matches Some(c) ==> c.radius == radius,
    {
        if radius >= 0 {
            Some(CircleCollider { radius })
        } else {
            None
        }
    }
}

/// One simulated body as the driver hands it to the pipeline each tick:
/// identity, position, rigid body and collider.
#[derive(Clone, Copy, Debug, PartialEq, Eq, Structural)]
pub struct BodyState {
    pub id: u64,
    pub position: Vec2,
    pub body: RigidBody,
    pub collider: CircleCollider,
}

/// All of a body's physical quantities within the range the pipeline
/// accepts: bounded position, velocity and acceleration, positive bounded
/// mass, non-negative bounded radius.
pub open spec fn body_in_range(s: BodyState) -> bool {
    &&& vec2_in_range(s.position)
    &&& vec2_in_range(s.body.velocity)
    &&& vec2_in_range(s.body.acceleration)
    &&& 0 < s.body.mass <= FX_LIM
    &&& 0 <= s.collider.radius <= FX_LIM
}

/// One axis of the kinematic step: `p + v*dt + a*dt^2/2`, each term rounded
/// toward zero, the sum saturated.
pub open spec fn integrated_position_axis(p: int, v: int, a: int, dt: int) -> int {
    sat64(
        p + div_tz(v * dt, FX_SCALE as int) + div_tz(
            a * dt * dt,
            2 * FX_SCALE as int * FX_SCALE as int,
        ),
    )
}

/// One axis of the velocity step: `v + a*dt`, rounded toward zero,
/// saturated.
pub open spec fn integrated_velocity_axis(v: int, a: int, dt: int) -> int {
    sat64(v + div_tz(a * dt, FX_SCALE as int))
}

/// The whole body after one integration step of length `dt`.
pub open spec fn integrated_state(s: BodyState, dt: int) -> BodyState {
    BodyState {
        id: s.id,
        position: Vec2 {
            x: integrated_position_axis(
                s.position.x as int,
                s.body.velocity.x as int,
                s.body.acceleration.x as int,
                dt,
            ) as i64,
            y: integrated_position_axis(
                s.position.y as int,
                s.body.velocity.y as int,
                s.body.acceleration.y as int,
                dt,
            ) as i64,
        },
        body: RigidBody {
            mass: s.body.mass,
            velocity: Vec2 {
                x: integrated_velocity_axis(
                    s.body.velocity.x as int,
                    s.body.acceleration.x as int,
                    dt,
                ) as i64,
                y: integrated_velocity_axis(
                    s.body.velocity.y as int,
                    s.body.acceleration.y as int,
                    dt,
                ) as i64,
            },
            acceleration: s.body.acceleration,
        },
        collider: s.collider,
    }
}

/// One axis of the kinematic step, executable.
fn integrate_position_axis(p: i64, v: i64, a: i64, dt: i64) -> (r: i64)
    requires
        abs_int(p as int) <= FX_LIM,
        abs_int(v as int) <= FX_LIM,
        abs_int(a as int) <= FX_LIM,
        abs_int(dt as int) <= FX_LIM,
    ensures
        r as int == integrated_position_axis(p as int, v as int, a as int, dt as int),
{
    let sc: i128 = FX_SCALE as i128;
    proof {
        assert(abs_int(v as int * dt as int) <= 0x4000000000000000 && abs_int(
            a as int * dt as int,
        ) <= 0x4000000000000000) by (nonlinear_arith)
            requires
                abs_int(v as int) <= FX_LIM,
                abs_int(a as int) <= FX_LIM,
                abs_int(dt as int) <= FX_LIM,
        ;
        assert(abs_int((a as int * dt as int) * dt as int) <= 0x200000000000000000000000)
            by (nonlinear_arith)
            requires
                abs_int(a as int * dt as int) <= 0x4000000000000000,
                abs_int(dt as int) <= FX_LIM,
        ;
    }
    let q1: i128 = div_tz_i128((v as i128) * (dt as i128), sc);
    let q2: i128 = div_tz_i128((a as i128) * (dt as i128) * (dt as i128), 2 * sc * sc);
    sat_i128((p as i128) + q1 + q2)
}

/// One axis of the velocity step, executable.
fn integrate_velocity_axis(v: i64, a: i64, dt: i64) -> (r: i64)
    requires
        abs_int(v as int) <= FX_LIM,
        abs_int(a as int) <= FX_LIM,
        abs_int(dt as int) <= FX_LIM,
    ensures
        r as int == integrated_velocity_axis(v as int, a as int, dt as int),
{
    proof {
        assert(abs_int(a as int * dt as int) <= 0x4000000000000000) by (nonlinear_arith)
            requires
                abs_int(a as int) <= FX_LIM,
                abs_int(dt as int) <= FX_LIM,
        ;
    }
    let q: i128 = div_tz_i128((a as i128) * (dt as i128), FX_SCALE as i128);
    sat_i128((v as i128) + q)
}

/// Advance every body by one step of length `dt`:
/// `position += velocity*dt + acceleration*dt^2/2`, then
/// `velocity += acceleration*dt`. Pure per-body update; nothing else of the
/// state changes.
pub fn update_rigid_bodies(states: &mut Vec<BodyState>, dt: i64)
    requires
        0 <= dt <= FX_LIM,
        forall|i: int|
            0 <= i < old(states)@.len() ==> body_in_range(#[trigger] old(states)@[i]),
    ensures
        final(states)@.len() == old(states)@.len(),
        forall|i: int|
            0 <= i < old(states)@.len() ==> final(states)@[i] == integrated_state(
                #[trigger] old(states)@[i],
                dt as int,
            ),
{
    let n = states.len();
    let mut i: usize = 0;
    while i < n
        invariant
            i <= n,
            n == states@.len(),
            0 <= dt <= FX_LIM,
            forall|j: int| 0 <= j < n ==> body_in_range(#[trigger] old(states)@[j]),
            forall|j: int| i <= j < n ==> states@[j] == old(states)@[j],
            forall|j: int|
                0 <= j < i ==> states@[j] == integrated_state(#[trigger] old(states)@[j], dt as int),
        decreases n - i,
    {
        let s = states[i];
        let next = BodyState {
            id: s.id,
            position: Vec2 {
                x: integrate_position_axis(
                    s.position.x,
                    s.body.velocity.x,
                    s.body.acceleration.x,
                    dt,
                ),
                y: integrate_position_axis(
                    s.position.y,
                    s.body.velocity.y,
                    s.body.acceleration.y,
                    dt,
                ),
            },
            body: RigidBody {
                mass: s.body.mass,
                velocity: Vec2 {
                    x: integrate_velocity_axis(s.body.velocity.x, s.body.acceleration.x, dt),
                    y: integrate_velocity_axis(s.body.velocity.y, s.body.acceleration.y, dt),
                },
                acceleration: s.body.acceleration,
            },
            collider: s.collider,
        };
        states.set(i, next);
        i = i + 1;
    }
}

/// Integration determinism: the step is a function of position, velocity,
/// acceleration and `dt` alone — two bodies agreeing on those agree on the
/// outcome, however often the step is taken.
pub proof fn lemma_integration_deterministic(s1: BodyState, s2: BodyState, dt: int)
    requires
        s1.position == s2.position,
        s1.body.velocity == s2.body.velocity,
        s1.body.acceleration == s2.body.acceleration,
    ensures
        integrated_state(s1, dt).position == integrated_state(s2, dt).position,
        integrated_state(s1, dt).body.velocity == integrated_state(s2, dt).body.velocity,
{
}

/// One axis of the wall rule: the velocity component is negated when the
/// body touches or crosses the wall on the side it is moving toward.
pub open spec fn reflected_velocity_axis(p: int, v: int, r: int, h: int) -> int {
    if p - r <= -h && v < 0 {
        -v
    } else if p + r >= h && v > 0 {
        -v
    } else {
        v
    }
}

/// Reflect every body off the domain walls: for each axis, a body whose
/// circle reaches a wall while moving toward it has that velocity component
/// negated (perfectly elastic wall, no position correction). Nothing else of
/// the state changes.
pub fn resolve_wall_collisions(states: &mut Vec<BodyState>, half_extents: Vec2)
    requires
        vec2_in_range(half_extents),
        forall|i: int|
            0 <= i < old(states)@.len() ==> body_in_range(#[trigger] old(states)@[i]),
    ensures
        final(states)@.len() == old(states)@.len(),
        forall|i: int|
            0 <= i < old(states)@.len() ==> {
                let s0 = #[trigger] old(states)@[i];
                let s1 = final(states)@[i];
                &&& s1.id == s0.id
                &&& s1.position == s0.position
                &&& s1.collider == s0.collider
                &&& s1.body.mass == s0.body.mass
                &&& s1.body.acceleration == s0.body.acceleration
                &&& s1.body.velocity.x as int == reflected_velocity_axis(
                    s0.position.x as int,
                    s0.body.velocity.x as int,
                    s0.collider.radius as int,
                    half_extents.x as int,
                )
                &&& s1.body.velocity.y as int == reflected_velocity_axis(
                    s0.position.y as int,
                    s0.body.velocity.y as int,
                    s0.collider.radius as int,
                    half_extents.y as int,
                )
            },
{
    let n = states.len();
    let mut i: usize = 0;
    while i < n
        invariant
            i <= n,
            n == states@.len(),
            vec2_in_range(half_extents),
            forall|j: int| 0 <= j < n ==> body_in_range(#[trigger] old(states)@[j]),
            forall|j: int| i <= j < n ==> states@[j] == old(states)@[j],
            forall|j: int|
                0 <= j < i ==> {
                    let s0 = #[trigger] old(states)@[j];
                    let s1 = states@[j];
                    &&& s1.id == s0.id
                    &&& s1.position == s0.position
                    &&& s1.collider == s0.collider
                    &&& s1.body.mass == s0.body.mass
                    &&& s1.body.acceleration == s0.body.acceleration
                    &&& s1.body.velocity.x as int == reflected_velocity_axis(
                        s0.position.x as int,
                        s0.body.velocity.x as int,
                        s0.collider.radius as int,
                        half_extents.x as int,
                    )
                    &&& s1.body.velocity.y as int == reflected_velocity_axis(
                        s0.position.y as int,
                        s0.body.velocity.y as int,
                        s0.collider.radius as int,
                        half_extents.y as int,
                    )
                },
        decreases n - i,
    {
        let s = states[i];
        let r = s.collider.radius;
        let mut vx = s.body.velocity.x;
        let mut vy = s.body.velocity.y;
        if s.position.x - r <= -half_extents.x && vx < 0 {
            vx = -vx;
        } else if s.position.x + r >= half_extents.x && vx > 0 {
            vx = -vx;
        }
        if s.position.y - r <= -half_extents.y && vy < 0 {
            vy = -vy;
        } else if s.position.y + r >= half_extents.y && vy > 0 {
            vy = -vy;
        }
        let next = BodyState {
            id: s.id,
            position: s.position,
            body: RigidBody {
                mass: s.body.mass,
                velocity: Vec2 { x: vx, y: vy },
                acceleration: s.body.acceleration,
            },
            collider: s.collider,
        };
        states.set(i, next);
        i = i + 1;
    }
}

/// Raw dot product of the relative velocity `v2 - v1` with the displacement
/// `d`.
pub open spec fn pair_dot_rel(v1: Vec2, v2: Vec2, d: Vec2) -> int {
    (v2.x - v1.x) * d.x + (v2.y - v1.y) * d.y
}

/// The relative velocity scaled by the elastic mass ratio `2*m2/(m1+m2)`
/// and projected along the displacement, before the final division by
/// `|d|^2`: `2*m2*((v2-v1). d) / (m1+m2)`, rounded toward zero.
pub open spec fn pair_scaled_dot(v1: Vec2, v2: Vec2, m1: int, m2: int, d: Vec2) -> int {
    div_tz(2 * m2 * pair_dot_rel(v1, v2, d), m1 + m2)
}

/// The horizontal velocity increment an overlap with a neighbor contributes:
/// the neighbor's relative velocity projected onto the displacement and
/// scaled by the elastic mass ratio.
pub open spec fn additive_velocity_x(v1: Vec2, v2: Vec2, m1: int, m2: int, d: Vec2) -> int {
    sat64(div_tz(pair_scaled_dot(v1, v2, m1, m2, d) * d.x, dot_int(d, d)))
}

/// The vertical velocity increment, as `additive_velocity_x`.
pub open spec fn additive_velocity_y(v1: Vec2, v2: Vec2, m1: int, m2: int, d: Vec2) -> int {
    sat64(div_tz(pair_scaled_dot(v1, v2, m1, m2, d) * d.y, dot_int(d, d)))
}

/// The velocity increment one overlapping pair contributes to the first
/// body: transform the neighbor's velocity into the first body's frame
/// (`rel = vel_2 - vel_1`), project it onto the displacement
/// `d` (first body minus neighbor), and scale by `2*m2/(m1+m2)`. The
/// displacement may span two domain widths (the difference of two bounded
/// positions); it must not be zero.
pub fn calculate_additive_collision_trajectory(
    vel_1: Vec2,
    vel_2: Vec2,
    m1: i64,
    m2: i64,
    displacement: Vec2,
) -> (r: Vec2)
    requires
        vec2_in_range(vel_1),
        vec2_in_range(vel_2),
        abs_int(displacement.x as int) <= 2 * FX_LIM,
        abs_int(displacement.y as int) <= 2 * FX_LIM,
        displacement.x != 0 || displacement.y != 0,
        0 < m1 <= FX_LIM,
        0 < m2 <= FX_LIM,
    ensures
        r.x as int == additive_velocity_x(vel_1, vel_2, m1 as int, m2 as int, displacement),
        r.y as int == additive_velocity_y(vel_1, vel_2, m1 as int, m2 as int, displacement),
{
    let relx: i64 = vel_2.x - vel_1.x;
    let rely: i64 = vel_2.y - vel_1.y;
    let dx: i128 = displacement.x as i128;
    let dy: i128 = displacement.y as i128;
    proof {
        assert(abs_int(relx as int * displacement.x as int) <= 0x10000000000000000 && abs_int(
            rely as int * displacement.y as int,
        ) <= 0x10000000000000000) by (nonlinear_arith)
            requires
                abs_int(relx as int) <= 2 * FX_LIM,
                abs_int(rely as int) <= 2 * FX_LIM,
                abs_int(displacement.x as int) <= 2 * FX_LIM,
                abs_int(displacement.y as int) <= 2 * FX_LIM,
        ;
        assert(abs_int(displacement.x as int * displacement.x as int) <= 0x10000000000000000
            && abs_int(displacement.y as int * displacement.y as int) <= 0x10000000000000000)
            by (nonlinear_arith)
            requires
                abs_int(displacement.x as int) <= 2 * FX_LIM,
                abs_int(displacement.y as int) <= 2 * FX_LIM,
        ;
        crate::math_helpers::lemma_dot_self_nonneg(displacement);
    }
    let dotn: i128 = (relx as i128) * dx + (rely as i128) * dy;
    proof {
        assert(abs_int(2 * (m2 as int) * (dotn as int)) == 2 * (m2 as int) * abs_int(dotn as int)
            && 2 * (m2 as int) * abs_int(dotn as int) <= 0x400000000000000000000000000)
            by (nonlinear_arith)
            requires
                0 < m2 <= FX_LIM,
                abs_int(dotn as int) <= 0x20000000000000000,
        ;
    }
    let dd: i128 = dx * dx + dy * dy;
    let num: i128 = 2 * (m2 as i128) * dotn;
    proof {
        assert(abs_int(num as int) == 2 * m2 * abs_int(dotn as int)) by (nonlinear_arith)
            requires
                num as int == 2 * m2 * dotn as int,
                m2 > 0,
        ;
        assert(2 * m2 * abs_int(dotn as int) <= (m1 + m2) * (2 * abs_int(dotn as int)))
            by (nonlinear_arith)
            requires
                0 < m1,
                0 < m2,
                0 <= abs_int(dotn as int),
        ;
        vstd::arithmetic::div_mod::lemma_multiply_divide_le(
            abs_int(num as int),
            m1 + m2,
            2 * abs_int(dotn as int),
        );
    }
    let q: i128 = div_tz_i128(num, (m1 as i128) + (m2 as i128));
    proof {
        assert(abs_int(q as int) <= 2 * abs_int(dotn as int));
        assert(abs_int(q as int * displacement.x as int) < i128::MAX && abs_int(
            q as int * displacement.y as int,
        ) < i128::MAX) by (nonlinear_arith)
            requires
                abs_int(q as int) <= 0x40000000000000000,
                abs_int(displacement.x as int) <= 2 * FX_LIM,
                abs_int(displacement.y as int) <= 2 * FX_LIM,
        ;
    }
    let rx = crate::fixed::div_sat(q * dx, dd);
    let ry = crate::fixed::div_sat(q * dy, dd);
    Vec2 { x: rx, y: ry }
}

/// Equal-mass head-on exchange: for two equal masses whose displacement and
/// relative velocity both lie along the horizontal axis, the pairwise
/// increment is exactly the relative velocity — adding it to the first
/// body's velocity yields the neighbor's. No rounding is lost: both
/// divisions divide exact multiples.
pub proof fn lemma_equal_mass_head_on_exchange(v1: Vec2, v2: Vec2, m: int, d: Vec2)
    requires
        0 < m <= FX_LIM,
        d.x != 0,
        d.y == 0,
        v1.y == v2.y,
        vec2_in_range(v1),
        vec2_in_range(v2),
    ensures
        additive_velocity_x(v1, v2, m, m, d) == v2.x - v1.x,
        additive_velocity_y(v1, v2, m, m, d) == 0,
{
    let relx = v2.x - v1.x;
    let dotn = pair_dot_rel(v1, v2, d);
    assert(dotn == relx * d.x);
    // 2*m*(relx*d.x) is the exact multiple (relx*d.x) of (m+m).
    assert(2 * m * (relx * d.x) == (relx * d.x) * (m + m)) by (nonlinear_arith);
    crate::fixed::lemma_div_tz_multiple(relx * d.x, m + m);
    assert(pair_scaled_dot(v1, v2, m, m, d) == relx * d.x);
    // (relx*d.x)*d.x is the exact multiple relx of d.x*d.x.
    assert(dot_int(d, d) == d.x * d.x);
    assert((relx * d.x) * d.x == relx * (d.x * d.x)) by (nonlinear_arith);
    assert(d.x * d.x != 0) by (nonlinear_arith)
        requires
            d.x != 0,
    ;
    crate::fixed::lemma_div_tz_multiple(relx, d.x * d.x);
    assert((relx * d.x) * 0int == 0) by (nonlinear_arith);
    crate::fixed::lemma_div_tz_multiple(0, d.x * d.x);
}

/// Pairwise momentum conservation for equal masses: the increment the
/// second body receives (computed with the roles and the displacement
/// reversed) is exactly the negation of the first body's, so the summed
/// momentum `m*v1 + m*v2` is unchanged by applying both. Stated for
/// increments within the representable range: saturation would break the
/// symmetry.
pub proof fn lemma_equal_mass_pair_momentum(v1: Vec2, v2: Vec2, m: int, d: Vec2, dneg: Vec2)
    requires
        0 < m <= FX_LIM,
        d.x != 0 || d.y != 0,
        dneg.x as int == -(d.x as int),
        dneg.y as int == -(d.y as int),
        vec2_in_range(v1),
        vec2_in_range(v2),
        vec2_in_range(d),
        abs_int(div_tz(pair_scaled_dot(v1, v2, m, m, d) * d.x, dot_int(d, d))) <= i64::MAX,
        abs_int(div_tz(pair_scaled_dot(v1, v2, m, m, d) * d.y, dot_int(d, d))) <= i64::MAX,
    ensures
        additive_velocity_x(v2, v1, m, m, dneg) == -additive_velocity_x(v1, v2, m, m, d),
        additive_velocity_y(v2, v1, m, m, dneg) == -additive_velocity_y(v1, v2, m, m, d),
        m * (v1.x + additive_velocity_x(v1, v2, m, m, d)) + m * (v2.x + additive_velocity_x(
            v2,
            v1,
            m,
            m,
            dneg,
        )) == m * v1.x + m * v2.x,
        m * (v1.y + additive_velocity_y(v1, v2, m, m, d)) + m * (v2.y + additive_velocity_y(
            v2,
            v1,
            m,
            m,
            dneg,
        )) == m * v1.y + m * v2.y,
{
    crate::math_helpers::lemma_dot_self_nonneg(d);
    let dotn = pair_dot_rel(v1, v2, d);
    assert(pair_dot_rel(v2, v1, dneg) == dotn) by (nonlinear_arith)
        requires
            dneg.x as int == -(d.x as int),
            dneg.y as int == -(d.y as int),
            dotn == pair_dot_rel(v1, v2, d),
    ;
    assert(dot_int(dneg, dneg) == dot_int(d, d)) by (nonlinear_arith)
        requires
            dneg.x as int == -(d.x as int),
            dneg.y as int == -(d.y as int),
    ;
    let q = pair_scaled_dot(v1, v2, m, m, d);
    assert(pair_scaled_dot(v2, v1, m, m, dneg) == q);
    let dd = dot_int(d, d);
    assert(q * (dneg.x as int) == -(q * (d.x as int)) && q * (dneg.y as int) == -(q * (d.y
        as int))) by (nonlinear_arith)
        requires
            dneg.x as int == -(d.x as int),
            dneg.y as int == -(d.y as int),
    ;
    lemma_div_tz_neg(q * d.x, dd);
    lemma_sat64_neg(div_tz(q * d.x, dd));
    lemma_div_tz_neg(q * d.y, dd);
    lemma_sat64_neg(div_tz(q * d.y, dd));
    let ax = additive_velocity_x(v1, v2, m, m, d);
    let ay = additive_velocity_y(v1, v2, m, m, d);
    assert(m * (v1.x + ax) + m * (v2.x + -ax) == m * v1.x + m * v2.x) by (nonlinear_arith);
    assert(m * (v1.y + ay) + m * (v2.y + -ay) == m * v1.y + m * v2.y) by (nonlinear_arith);
}

/// Negating the dividend negates the truncated quotient.
proof fn lemma_div_tz_neg(a: int, b: int)
    requires
        b != 0,
    ensures
        div_tz(-a, b) == -div_tz(a, b),
{
    if a == 0 {
        vstd::arithmetic::div_mod::lemma_div_of0(abs_int(b));
    }
}

/// Saturation is odd on values whose negation stays representable.
proof fn lemma_sat64_neg(x: int)
    requires
        abs_int(x) <= i64::MAX,
    ensures
        sat64(-x) == -sat64(x),
{
}

/// Wall reflection: a body resting exactly at `x = half_x - radius` and
/// moving outward has its horizontal velocity negated by the wall rule,
/// while a vertical velocity clear of both horizontal walls is kept.
pub proof fn lemma_wall_reflection(p: Vec2, v: Vec2, r: int, half: Vec2)
    requires
        p.x as int == half.x - r,
        v.x > 0,
        !(p.y - r <= -half.y && v.y < 0),
        !(p.y + r >= half.y && v.y > 0),
    ensures
        reflected_velocity_axis(p.x as int, v.x as int, r, half.x as int) == -v.x,
        reflected_velocity_axis(p.y as int, v.y as int, r, half.y as int) == v.y,
{
}

/// Tolerance for pairing a root of one axis with a root of the other:
/// 64/65536 of a unit. Exact equality of independently rounded roots would
/// be fragile.
pub const ROOT_MATCH_EPS: i64 = 64;

/// Two roots pair up when they differ by at most the tolerance.
pub open spec fn roots_match(p: int, q: int) -> bool {
    abs_int(p - q) <= ROOT_MATCH_EPS
}

/// The candidate collision times of one axis: no finite crossing, a pair of
/// real roots (equal for the linear case), or no real root (negative
/// discriminant; the defined stand-in for a propagating non-number).
#[derive(Clone, Copy, Debug, PartialEq, Eq, Structural)]
pub enum AxisRoots {
    Infinite,
    Roots(i64, i64),
    NoRoot,
}

/// What the per-axis solver returns for coefficients `a`, `b`, `c`: the
/// linear crossing `-c/b` twice when `a == 0` (no finite crossing when
/// `b == 0` too), else the two quadratic roots, or none when the
/// discriminant is negative.
pub open spec fn axis_roots_spec(a: int, b: int, c: int) -> AxisRoots {
    if a == 0 {
        if b == 0 {
            AxisRoots::Infinite
        } else {
            AxisRoots::Roots(
                sat64(div_tz(-c * FX_SCALE as int, b)) as i64,
                sat64(div_tz(-c * FX_SCALE as int, b)) as i64,
            )
        }
    } else if crate::math_helpers::quad_disc(a, b, c) < 0 {
        AxisRoots::NoRoot
    } else {
        AxisRoots::Roots(
            crate::math_helpers::quad_root_pos(a, b, c) as i64,
            crate::math_helpers::quad_root_neg(a, b, c) as i64,
        )
    }
}

/// Solve one axis of the collision-time equation `a*t^2 + b*t + c = 0`.
pub fn axis_collision_time(a: i64, b: i64, c: i64) -> (r: AxisRoots)
    requires
        abs_int(a as int) <= FX_LIM,
        abs_int(b as int) <= 4 * FX_LIM,
        abs_int(c as int) <= 4 * FX_LIM,
    ensures
        r == axis_roots_spec(a as int, b as int, c as int),
{
    if a == 0 {
        if b == 0 {
            AxisRoots::Infinite
        } else {
            let t = crate::fixed::fx_div(-c, b);
            AxisRoots::Roots(t, t)
        }
    } else {
        match crate::math_helpers::quadratic_formula(a, b, c) {
            Some(roots) => AxisRoots::Roots(roots.0, roots.1),
            None => AxisRoots::NoRoot,
        }
    }
}

/// Collision-time solver, zero-acceleration case: the axis carrying the
/// relative motion reports the linear crossing `-c/b` as a double root; an
/// axis with neither relative acceleration nor relative velocity reports no
/// finite crossing.
pub proof fn lemma_axis_time_constant_velocity(a: int, b: int, c: int)
    requires
        a == 0,
    ensures
        b != 0 ==> axis_roots_spec(a, b, c) == AxisRoots::Roots(
            sat64(div_tz(-c * FX_SCALE as int, b)) as i64,
            sat64(div_tz(-c * FX_SCALE as int, b)) as i64,
        ),
        b == 0 ==> axis_roots_spec(a, b, c) == AxisRoots::Infinite,
{
}

/// The collision time combined from the two axes: zero when both report no
/// finite crossing, the finite axis when only one does, else whichever
/// x-root pairs (within tolerance) with a y-root, defaulting to zero. An
/// axis without real roots yields the zero fallback.
pub open spec fn combined_time_spec(tx: AxisRoots, ty: AxisRoots) -> int {
    match (tx, ty) {
        (AxisRoots::Infinite, AxisRoots::Infinite) => 0,
        (AxisRoots::Infinite, AxisRoots::Roots(t, _)) => t as int,
        (AxisRoots::Roots(t, _), AxisRoots::Infinite) => t as int,
        (AxisRoots::Roots(x0, x1), AxisRoots::Roots(y0, y1)) => {
            if roots_match(x0 as int, y0 as int) || roots_match(x0 as int, y1 as int) {
                x0 as int
            } else if roots_match(x1 as int, y1 as int) || roots_match(x1 as int, y0 as int) {
                x1 as int
            } else {
                0
            }
        },
        _ => 0,
    }
}

/// When only one axis reports a finite (double) root, that root is the
/// combined collision time.
pub proof fn lemma_combined_time_single_axis(t: i64)
    ensures
        combined_time_spec(AxisRoots::Roots(t, t), AxisRoots::Infinite) == t as int,
        combined_time_spec(AxisRoots::Infinite, AxisRoots::Roots(t, t)) == t as int,
{
}

/// Do two roots pair up within the tolerance?
fn roots_match64(p: i64, q: i64) -> (r: bool)
    ensures
        r == roots_match(p as int, q as int),
{
    let d: i128 = (p as i128) - (q as i128);
    let m: i128 = if d < 0 {
        -d
    } else {
        d
    };
    m <= ROOT_MATCH_EPS as i128
}

/// Combine the root pairs of the two axes into one collision time.
fn combine_axis_times(tx: AxisRoots, ty: AxisRoots) -> (r: i64)
    ensures
        r as int == combined_time_spec(tx, ty),
{
    match (tx, ty) {
        (AxisRoots::Infinite, AxisRoots::Infinite) => 0,
        (AxisRoots::Infinite, AxisRoots::Roots(t, _)) => t,
        (AxisRoots::Roots(t, _), AxisRoots::Infinite) => t,
        (AxisRoots::Roots(x0, x1), AxisRoots::Roots(y0, y1)) => {
            if roots_match64(x0, y0) || roots_match64(x0, y1) {
                x0
            } else if roots_match64(x1, y1) || roots_match64(x1, y0) {
                x1
            } else {
                0
            }
        },
        _ => 0,
    }
}

/// Horizontal component of the combined radius, signed toward the neighbor:
/// the displacement `x2 - x1` scaled to length `cr` (zero when the
/// positions coincide).
pub open spec fn radius_vector_x(x1: Vec2, x2: Vec2, cr: int) -> int {
    let dx = x2.x - x1.x;
    let dy = x2.y - x1.y;
    let mag = crate::fixed::isqrt_spec((dx * dx + dy * dy) as nat);
    if mag == 0 {
        0
    } else {
        div_tz(dx * cr, mag as int)
    }
}

/// Vertical component of the combined radius, signed toward the neighbor.
pub open spec fn radius_vector_y(x1: Vec2, x2: Vec2, cr: int) -> int {
    let dx = x2.x - x1.x;
    let dy = x2.y - x1.y;
    let mag = crate::fixed::isqrt_spec((dx * dx + dy * dy) as nat);
    if mag == 0 {
        0
    } else {
        div_tz(dy * cr, mag as int)
    }
}

/// The time within the current step at which the two parabolic trajectories
/// reach combined-radius separation, solved per axis and combined; clamped
/// into the physics range so the position roll-back stays representable.
pub open spec fn collision_time_spec(
    x1: Vec2,
    x2: Vec2,
    rb1: RigidBody,
    rb2: RigidBody,
    cr: int,
) -> int {
    let ax = div_tz(rb2.acceleration.x - rb1.acceleration.x, 2);
    let bx = (rb2.velocity.x - rb2.acceleration.x) - (rb1.velocity.x - rb1.acceleration.x);
    let cx = x1.x - x2.x - radius_vector_x(x1, x2, cr);
    let ay = div_tz(rb2.acceleration.y - rb1.acceleration.y, 2);
    let by = (rb2.velocity.y - rb2.acceleration.y) - (rb1.velocity.y - rb1.acceleration.y);
    let cy = x1.y - x2.y - radius_vector_y(x1, x2, cr);
    crate::fixed::clamp_fx(
        combined_time_spec(
            axis_roots_spec(ax, bx, cx),
            axis_roots_spec(ay, by, cy),
        ),
    )
}

/// Solve for the exact collision time of two bodies within the current
/// step: per axis, a quadratic (or linear) crossing of the
/// combined-radius separation, the two axes' roots then paired.
pub fn calculate_exact_collision_time(
    x1: Vec2,
    x2: Vec2,
    rb1: &RigidBody,
    rb2: &RigidBody,
    combined_radius: i64,
) -> (r: i64)
    requires
        vec2_in_range(x1),
        vec2_in_range(x2),
        vec2_in_range(rb1.velocity),
        vec2_in_range(rb1.acceleration),
        vec2_in_range(rb2.velocity),
        vec2_in_range(rb2.acceleration),
        0 <= combined_radius <= 2 * FX_LIM,
    ensures
        r as int == collision_time_spec(x1, x2, *rb1, *rb2, combined_radius as int),
        abs_int(r as int) <= FX_LIM,
{
    let dx: i64 = x2.x - x1.x;
    let dy: i64 = x2.y - x1.y;
    proof {
        assert(abs_int(dx as int * dx as int) <= 0x10000000000000000 && abs_int(
            dy as int * dy as int,
        ) <= 0x10000000000000000 && dx as int * dx as int >= 0 && dy as int * dy as int >= 0)
            by (nonlinear_arith)
            requires
                abs_int(dx as int) <= 2 * FX_LIM,
                abs_int(dy as int) <= 2 * FX_LIM,
        ;
    }
    let msq: i128 = (dx as i128) * (dx as i128) + (dy as i128) * (dy as i128);
    let mag: u128 = crate::fixed::isqrt_u128(msq as u128);
    let cr128: i128 = combined_radius as i128;
    let rvx: i64;
    let rvy: i64;
    if mag == 0 {
        rvx = 0;
        rvy = 0;
    } else {
        proof {
            assert(abs_int(dx as int) <= mag && abs_int(dy as int) <= mag && mag
                <= 0x400000000) by (nonlinear_arith)
                requires
                    dx as int * dx as int <= msq,
                    dy as int * dy as int <= msq,
                    mag * mag <= msq < (mag + 1) * (mag + 1),
                    msq <= 0x20000000000000000,
                    mag >= 0,
            ;
            assert(abs_int(dx as int * combined_radius as int) <= 0x10000000000000000 && abs_int(
                dy as int * combined_radius as int,
            ) <= 0x10000000000000000) by (nonlinear_arith)
                requires
                    abs_int(dx as int) <= 2 * FX_LIM,
                    abs_int(dy as int) <= 2 * FX_LIM,
                    0 <= combined_radius <= 2 * FX_LIM,
            ;
            assert(abs_int(dx as int * combined_radius as int) == abs_int(dx as int)
                * combined_radius && abs_int(dy as int * combined_radius as int) == abs_int(
                dy as int,
            ) * combined_radius && abs_int(dx as int) * combined_radius <= mag as int
                * combined_radius && abs_int(dy as int) * combined_radius <= mag as int
                * combined_radius) by (nonlinear_arith)
                requires
                    0 <= combined_radius,
                    abs_int(dx as int) <= mag,
                    abs_int(dy as int) <= mag,
            ;
            vstd::arithmetic::div_mod::lemma_multiply_divide_le(
                abs_int(dx as int * combined_radius as int),
                mag as int,
                combined_radius as int,
            );
            vstd::arithmetic::div_mod::lemma_multiply_divide_le(
                abs_int(dy as int * combined_radius as int),
                mag as int,
                combined_radius as int,
            );
        }
        rvx = crate::fixed::div_sat((dx as i128) * cr128, mag as i128);
        rvy = crate::fixed::div_sat((dy as i128) * cr128, mag as i128);
    }
    proof {
        assert(rvx as int == radius_vector_x(x1, x2, combined_radius as int));
        assert(rvy as int == radius_vector_y(x1, x2, combined_radius as int));
        assert(abs_int(rvx as int) <= 2 * FX_LIM && abs_int(rvy as int) <= 2 * FX_LIM);
    }
    let adiff_x: i128 = (rb2.acceleration.x as i128) - (rb1.acceleration.x as i128);
    let adiff_y: i128 = (rb2.acceleration.y as i128) - (rb1.acceleration.y as i128);
    proof {
        vstd::arithmetic::div_mod::lemma_div_is_ordered(
            abs_int(adiff_x as int),
            0x100000000,
            2,
        );
        vstd::arithmetic::div_mod::lemma_div_is_ordered(
            abs_int(adiff_y as int),
            0x100000000,
            2,
        );
    }
    let ax = crate::fixed::div_sat(adiff_x, 2);
    let ay = crate::fixed::div_sat(adiff_y, 2);
    let bx: i64 = (rb2.velocity.x - rb2.acceleration.x) - (rb1.velocity.x - rb1.acceleration.x);
    let by: i64 = (rb2.velocity.y - rb2.acceleration.y) - (rb1.velocity.y - rb1.acceleration.y);
    let cx: i64 = x1.x - x2.x - rvx;
    let cy: i64 = x1.y - x2.y - rvy;
    let tx = axis_collision_time(ax, bx, cx);
    let ty = axis_collision_time(ay, by, cy);
    let combined = combine_axis_times(tx, ty);
    crate::fixed::clamp_fx64(combined)
}

/// Collision-time solver, head-on case, end to end: for two bodies with
/// zero acceleration approaching along the horizontal axis (equal vertical
/// velocities), the perpendicular axis reports no finite crossing and the
/// solver returns exactly the single root of the aligned axis:
/// `(x2 - x1 + cr) / (v2 - v1)` as a fixed-point division (the separation
/// to the far-side crossing over the signed relative velocity, following
/// the sign conventions of the coefficients `b = v2 - v1` and
/// `c = x1 - x2 - cr`).
pub proof fn lemma_collision_time_head_on(
    x1: Vec2,
    x2: Vec2,
    rb1: RigidBody,
    rb2: RigidBody,
    cr: int,
)
    requires
        rb1.acceleration.x == 0,
        rb1.acceleration.y == 0,
        rb2.acceleration.x == 0,
        rb2.acceleration.y == 0,
        x1.y == x2.y,
        x1.x < x2.x,
        rb1.velocity.y == rb2.velocity.y,
        rb1.velocity.x != rb2.velocity.x,
        0 <= cr,
    ensures
        collision_time_spec(x1, x2, rb1, rb2, cr) == crate::fixed::clamp_fx(
            sat64(
                div_tz(
                    (x2.x - x1.x + cr) * FX_SCALE as int,
                    rb2.velocity.x - rb1.velocity.x,
                ),
            ),
        ),
{
    let dx = x2.x - x1.x;
    crate::fixed::lemma_isqrt_perfect_square(dx);
    assert(dx * dx + (x2.y - x1.y) * (x2.y - x1.y) == dx * dx);
    assert(dx * cr == cr * dx) by (nonlinear_arith);
    crate::fixed::lemma_div_tz_multiple(cr, dx);
    assert(radius_vector_x(x1, x2, cr) == cr);
    assert((x2.y - x1.y) * cr == 0 * dx) by (nonlinear_arith)
        requires
            x2.y - x1.y == 0,
    ;
    crate::fixed::lemma_div_tz_multiple(0, dx);
    assert(radius_vector_y(x1, x2, cr) == 0);
    assert(0int * 2 == 0) by (nonlinear_arith);
    crate::fixed::lemma_div_tz_multiple(0, 2);
    let bx = rb2.velocity.x - rb1.velocity.x;
    let cx = x1.x - x2.x - cr;
    let t = sat64(div_tz(-cx * FX_SCALE as int, bx));
    assert(-cx == dx + cr);
    assert(axis_roots_spec(0, bx, cx) == AxisRoots::Roots(t as i64, t as i64));
    assert(axis_roots_spec(0, 0, 0) == AxisRoots::Infinite);
}

/// Some body in `snap` carries identity `id`.
pub open spec fn has_id(snap: Seq<BodyState>, id: u64) -> bool {
    exists|j: int| 0 <= j < snap.len() && snap[j].id == id
}

/// The index of the body with identity `id`; meaningful when ids are unique
/// and `has_id` holds.
pub open spec fn id_index(snap: Seq<BodyState>, id: u64) -> int {
    choose|j: int| 0 <= j < snap.len() && snap[j].id == id
}

/// No two bodies share an identity.
pub open spec fn unique_ids(snap: Seq<BodyState>) -> bool {
    forall|i: int, j: int| 0 <= i < j < snap.len() ==> snap[i].id != snap[j].id
}

/// Strict circle-circle overlap of two centres at combined radius `cr`.
pub open spec fn circles_overlap(p1: Vec2, p2: Vec2, cr: int) -> bool {
    (p1.x - p2.x) * (p1.x - p2.x) + (p1.y - p2.y) * (p1.y - p2.y) < cr * cr
}

/// One axis of the roll to the exact contact point: the integrator's
/// kinematic step, clamped into the physics range so later pairs of the
/// same pass stay representable.
pub open spec fn moved_position_axis(p: int, v: int, a: int, t: int) -> int {
    crate::fixed::clamp_fx(
        p + div_tz(v * t, FX_SCALE as int) + div_tz(
            a * t * t,
            2 * FX_SCALE as int * FX_SCALE as int,
        ),
    )
}

/// What resolving the first `k` neighbors of `related` does to body `s`:
/// its position, rolled to the contact point at each overlap, and the two
/// accumulated velocity increments. Neighbors equal to `s` itself, unknown
/// identities, non-overlapping neighbors and a coincident contact point
/// (no displacement to project on) contribute nothing.
pub open spec fn resolve_pairs_spec(
    snap: Seq<BodyState>,
    s: BodyState,
    related: Seq<u64>,
    k: int,
) -> (Vec2, int, int)
    decreases k,
{
    if k <= 0 {
        (s.position, 0, 0)
    } else {
        let prev = resolve_pairs_spec(snap, s, related, k - 1);
        let oid = related[k - 1];
        if oid == s.id || !has_id(snap, oid) {
            prev
        } else {
            let o = snap[id_index(snap, oid)];
            let cr = s.collider.radius + o.collider.radius;
            if !circles_overlap(prev.0, o.position, cr) {
                prev
            } else {
                let t = collision_time_spec(prev.0, o.position, s.body, o.body, cr);
                let np = Vec2 {
                    x: moved_position_axis(
                        prev.0.x as int,
                        s.body.velocity.x as int,
                        s.body.acceleration.x as int,
                        t,
                    ) as i64,
                    y: moved_position_axis(
                        prev.0.y as int,
                        s.body.velocity.y as int,
                        s.body.acceleration.y as int,
                        t,
                    ) as i64,
                };
                if np.x == o.position.x && np.y == o.position.y {
                    (np, prev.1, prev.2)
                } else {
                    let d = Vec2 {
                        x: (np.x - o.position.x) as i64,
                        y: (np.y - o.position.y) as i64,
                    };
                    (
                        np,
                        prev.1 + additive_velocity_x(
                            s.body.velocity,
                            o.body.velocity,
                            s.body.mass as int,
                            o.body.mass as int,
                            d,
                        ),
                        prev.2 + additive_velocity_y(
                            s.body.velocity,
                            o.body.velocity,
                            s.body.mass as int,
                            o.body.mass as int,
                            d,
                        ),
                    )
                }
            }
        }
    }
}

/// The position and velocity of body `i` after one resolution pass over the
/// snapshot `snap` and the grid: nothing changes when the neighborhood
/// holds at most the body itself; otherwise the position is rolled to the
/// last contact point and the velocity gains the summed pairwise
/// increments.
pub open spec fn resolve_entity_spec(snap: Seq<BodyState>, grid: EntityMap, i: int) -> (
    Vec2,
    Vec2,
) {
    let s = snap[i];
    let related = grid.related_spec(s.position);
    if related.len() <= 1 {
        (s.position, s.body.velocity)
    } else {
        let f = resolve_pairs_spec(snap, s, related, related.len() as int);
        (
            f.0,
            Vec2 {
                x: sat64(s.body.velocity.x + f.1) as i64,
                y: sat64(s.body.velocity.y + f.2) as i64,
            },
        )
    }
}

/// Grid neighbor completeness, in the resolver's vocabulary: when two
/// bodies' circles overlap and the grid's cell side is at least their
/// combined radius, a body inserted at the cell of its position is found by
/// the broad-phase query at the other body's position — the narrow phase
/// never misses a pair the broad phase filtered away.
pub proof fn lemma_broad_phase_complete(map: EntityMap, s1: BodyState, s2: BodyState)
    requires
        map.wf(),
        s1.collider.radius >= 0,
        s2.collider.radius >= 0,
        s1.collider.radius + s2.collider.radius <= map.container_size,
        circles_overlap(
            s1.position,
            s2.position,
            s1.collider.radius + s2.collider.radius,
        ),
        map.cells()[map.index_of_spec(s2.position)].contains(s2.id),
    ensures
        map.related_spec(s1.position).contains(s2.id),
{
    map.lemma_neighbor_completeness(
        s1.position,
        s1.collider.radius as int,
        s2.position,
        s2.collider.radius as int,
        s2.id,
    );
}

/// The first body carrying identity `id`, if any.
fn find_by_id(snap: &Vec<BodyState>, id: u64) -> (r: Option<usize>)
    ensures
        r is Some <==> has_id(snap@, id),
        r matches Some(k) ==> k < snap@.len() && snap@[k as int].id == id,
{
    let n = snap.len();
    let mut i: usize = 0;
    while i < n
        invariant
            i <= n,
            n == snap@.len(),
            forall|j: int| 0 <= j < i ==> snap@[j].id != id,
        decreases n - i,
    {
        if snap[i].id == id {
            return Some(i);
        }
        i = i + 1;
    }
    None
}

/// One axis of the roll to the contact point, executable.
fn move_position_axis(p: i64, v: i64, a: i64, t: i64) -> (r: i64)
    requires
        abs_int(p as int) <= FX_LIM,
        abs_int(v as int) <= FX_LIM,
        abs_int(a as int) <= FX_LIM,
        abs_int(t as int) <= FX_LIM,
    ensures
        r as int == moved_position_axis(p as int, v as int, a as int, t as int),
        abs_int(r as int) <= FX_LIM,
{
    let sc: i128 = FX_SCALE as i128;
    proof {
        assert(abs_int(v as int * t as int) <= 0x4000000000000000 && abs_int(a as int * t as int)
            <= 0x4000000000000000) by (nonlinear_arith)
            requires
                abs_int(v as int) <= FX_LIM,
                abs_int(a as int) <= FX_LIM,
                abs_int(t as int) <= FX_LIM,
        ;
        assert(abs_int((a as int * t as int) * t as int) <= 0x200000000000000000000000)
            by (nonlinear_arith)
            requires
                abs_int(a as int * t as int) <= 0x4000000000000000,
                abs_int(t as int) <= FX_LIM,
        ;
    }
    let q1: i128 = div_tz_i128((v as i128) * (t as i128), sc);
    let q2: i128 = div_tz_i128((a as i128) * (t as i128) * (t as i128), 2 * sc * sc);
    let sum: i128 = (p as i128) + q1 + q2;
    if sum > FX_LIM as i128 {
        FX_LIM
    } else if sum < -(FX_LIM as i128) {
        -FX_LIM
    } else {
        sum as i64
    }
}

/// Resolve particle-particle collisions: for each body, query the grid's
/// 3x3 neighborhood of its position; against every other overlapping
/// neighbor (read from an immutable snapshot of the pre-resolution state),
/// roll the body to the exact contact point and accumulate the elastic
/// velocity increment; finally add the summed increments to the body's
/// velocity. Only the body's own position and velocity change.
pub fn resolve_particle_collisions(states: &mut Vec<BodyState>, entity_map: &EntityMap)
    requires
        entity_map.wf(),
        unique_ids(old(states)@),
        forall|i: int| 0 <= i < old(states)@.len() ==> body_in_range(#[trigger] old(states)@[i]),
    ensures
        final(states)@.len() == old(states)@.len(),
        forall|i: int|
            0 <= i < old(states)@.len() ==> {
                let s0 = #[trigger] old(states)@[i];
                let s1 = final(states)@[i];
                let rr = resolve_entity_spec(old(states)@, *entity_map, i);
                &&& s1.id == s0.id
                &&& s1.collider == s0.collider
                &&& s1.body.mass == s0.body.mass
                &&& s1.body.acceleration == s0.body.acceleration
                &&& s1.position == rr.0
                &&& s1.body.velocity == rr.1
            },
{
    let n = states.len();
    let mut snapshot: Vec<BodyState> = Vec::new();
    let mut i: usize = 0;
    while i < n
        invariant
            i <= n,
            n == states@.len(),
            states@ == old(states)@,
            snapshot@ == states@.subrange(0, i as int),
        decreases n - i,
    {
        snapshot.push(states[i]);
        proof {
            assert(states@.subrange(0, i + 1 as int) =~= states@.subrange(0, i as int).push(
                states@[i as int],
            ));
        }
        i = i + 1;
    }
    proof {
        assert(snapshot@ =~= old(states)@);
    }
    let mut i: usize = 0;
    while i < n
        invariant
            i <= n,
            n == states@.len(),
            n == old(states)@.len(),
            snapshot@ == old(states)@,
            entity_map.wf(),
            unique_ids(snapshot@),
            forall|j: int| 0 <= j < n ==> body_in_range(#[trigger] snapshot@[j]),
            forall|j: int| i <= j < n ==> states@[j] == old(states)@[j],
            forall|j: int|
                0 <= j < i ==> {
                    let s0 = #[trigger] old(states)@[j];
                    let s1 = states@[j];
                    let rr = resolve_entity_spec(old(states)@, *entity_map, j);
                    &&& s1.id == s0.id
                    &&& s1.collider == s0.collider
                    &&& s1.body.mass == s0.body.mass
                    &&& s1.body.acceleration == s0.body.acceleration
                    &&& s1.position == rr.0
                    &&& s1.body.velocity == rr.1
                },
        decreases n - i,
    {
        let s = snapshot[i];
        proof {
            assert(body_in_range(snapshot@[i as int]));
        }
        let related = entity_map.get_related_entities(s.position);
        if related.len() > 1 {
            let m = related.len();
            let mut pos = s.position;
            let mut accx: i128 = 0;
            let mut accy: i128 = 0;
            let mut k: usize = 0;
            while k < m
                invariant
                    k <= m,
                    m == related@.len(),
                    related@ == entity_map.related_spec(s.position),
                    snapshot@ == old(states)@,
                    unique_ids(snapshot@),
                    forall|j: int| 0 <= j < snapshot@.len() ==> body_in_range(
                        #[trigger] snapshot@[j],
                    ),
                    s == snapshot@[i as int],
                    0 <= i < snapshot@.len(),
                    body_in_range(s),
                    pos == resolve_pairs_spec(snapshot@, s, related@, k as int).0,
                    accx as int == resolve_pairs_spec(snapshot@, s, related@, k as int).1,
                    accy as int == resolve_pairs_spec(snapshot@, s, related@, k as int).2,
                    abs_int(pos.x as int) <= FX_LIM,
                    abs_int(pos.y as int) <= FX_LIM,
                    abs_int(accx as int) <= k as int * 0x8000000000000000,
                    abs_int(accy as int) <= k as int * 0x8000000000000000,
                decreases m - k,
            {
                let oid = related[k];
                if oid != s.id {
                    match find_by_id(&snapshot, oid) {
                        Some(j) => {
                            let o = snapshot[j];
                            proof {
                                assert(body_in_range(snapshot@[j as int]));
                                let jj = id_index(snapshot@, oid);
                                assert(0 <= jj < snapshot@.len() && snapshot@[jj].id == oid);
                                if jj != j as int {
                                    assert(false);
                                }
                            }
                            let cr = s.collider.radius + o.collider.radius;
                            let dx = pos.x - o.position.x;
                            let dy = pos.y - o.position.y;
                            proof {
                                assert(abs_int(dx as int * dx as int) <= 0x10000000000000000
                                    && abs_int(dy as int * dy as int) <= 0x10000000000000000
                                    && abs_int(cr as int * cr as int) <= 0x10000000000000000)
                                    by (nonlinear_arith)
                                    requires
                                        abs_int(dx as int) <= 2 * FX_LIM,
                                        abs_int(dy as int) <= 2 * FX_LIM,
                                        abs_int(cr as int) <= 2 * FX_LIM,
                                ;
                            }
                            let overlap = (dx as i128) * (dx as i128) + (dy as i128) * (dy as i128)
                                < (cr as i128) * (cr as i128);
                            if overlap {
                                let t = calculate_exact_collision_time(
                                    pos,
                                    o.position,
                                    &s.body,
                                    &o.body,
                                    cr,
                                );
                                let npx = move_position_axis(
                                    pos.x,
                                    s.body.velocity.x,
                                    s.body.acceleration.x,
                                    t,
                                );
                                let npy = move_position_axis(
                                    pos.y,
                                    s.body.velocity.y,
                                    s.body.acceleration.y,
                                    t,
                                );
                                pos = Vec2 { x: npx, y: npy };
                                let ddx = pos.x - o.position.x;
                                let ddy = pos.y - o.position.y;
                                if ddx != 0 || ddy != 0 {
                                    let add = calculate_additive_collision_trajectory(
                                        s.body.velocity,
                                        o.body.velocity,
                                        s.body.mass,
                                        o.body.mass,
                                        Vec2 { x: ddx, y: ddy },
                                    );
                                    accx = accx + (add.x as i128);
                                    accy = accy + (add.y as i128);
                                }
                            }
                        },
                        None => {},
                    }
                }
                k = k + 1;
            }
            let nvx = sat_i128((s.body.velocity.x as i128) + accx);
            let nvy = sat_i128((s.body.velocity.y as i128) + accy);
            states.set(
                i,
                BodyState {
                    id: s.id,
                    position: pos,
                    body: RigidBody {
                        mass: s.body.mass,
                        velocity: Vec2 { x: nvx, y: nvy },
                        acceleration: s.body.acceleration,
                    },
                    collider: s.collider,
                },
            );
        }
        i = i + 1;
    }
}

} // verus!
