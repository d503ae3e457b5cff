//! Diagnostics: the total kinetic energy and total linear momentum of the
//! simulation, the numbers behind the on-screen physics readout.

use vstd::prelude::*;

use crate::fixed::{abs_int, div_tz, div_tz_i128, sat64, sat_i128, FX_LIM, FX_SCALE};
use crate::math_helpers::Vec2;
use crate::physics::{body_in_range, BodyState};

verus! {

/// Marker for the text display that carries the physics readout.
pub struct DebugPhysicsText;

/// One body's kinetic energy, `m * |v|^2 / 2`, as a raw fixed-point value.
pub open spec fn kinetic_energy_term(s: BodyState) -> int {
    div_tz(
        s.body.mass * (s.body.velocity.x * s.body.velocity.x + s.body.velocity.y
            * s.body.velocity.y),
        2 * FX_SCALE as int * FX_SCALE as int,
    )
}

/// The summed kinetic energy of the first `k` bodies.
pub open spec fn total_kinetic_energy_spec(snap: Seq<BodyState>, k: int) -> int
    decreases k,
{
    if k <= 0 {
        0
    } else {
        total_kinetic_energy_spec(snap, k - 1) + kinetic_energy_term(snap[k - 1])
    }
}

/// One axis of a body's momentum, `m * v`, as a raw fixed-point value.
pub open spec fn momentum_term(mass: int, v: int) -> int {
    div_tz(mass * v, FX_SCALE as int)
}

/// The summed momentum of the first `k` bodies, per axis.
pub open spec fn total_momentum_spec(snap: Seq<BodyState>, k: int) -> (int, int)
    decreases k,
{
    if k <= 0 {
        (0, 0)
    } else {
        let prev = total_momentum_spec(snap, k - 1);
        (
            prev.0 + momentum_term(snap[k - 1].body.mass as int, snap[k - 1].body.velocity.x as int),
            prev.1 + momentum_term(snap[k - 1].body.mass as int, snap[k - 1].body.velocity.y as int),
        )
    }
}

/// The total kinetic energy `sum of m*|v|^2/2` over all bodies, saturated.
pub fn total_kinetic_energy(states: &Vec<BodyState>) -> (r: i64)
    requires
        forall|i: int| 0 <= i < states@.len() ==> body_in_range(#[trigger] states@[i]),
    ensures
        r as int == sat64(total_kinetic_energy_spec(states@, states@.len() as int)),
{
    let n = states.len();
    let mut sum: i128 = 0;
    let mut i: usize = 0;
    while i < n
        invariant
            i <= n,
            n == states@.len(),
            forall|j: int| 0 <= j < n ==> body_in_range(#[trigger] states@[j]),
            sum as int == total_kinetic_energy_spec(states@, i as int),
            abs_int(sum as int) <= i as int * 0x2000000000000000,
        decreases n - i,
    {
        let s = states[i];
        proof {
            assert(body_in_range(states@[i as int]));
            assert(abs_int(s.body.velocity.x as int * s.body.velocity.x as int)
                <= 0x4000000000000000 && abs_int(
                s.body.velocity.y as int * s.body.velocity.y as int,
            ) <= 0x4000000000000000) by (nonlinear_arith)
                requires
                    abs_int(s.body.velocity.x as int) <= FX_LIM,
                    abs_int(s.body.velocity.y as int) <= FX_LIM,
            ;
        }
        let vsq: i128 = (s.body.velocity.x as i128) * (s.body.velocity.x as i128) + (
        s.body.velocity.y as i128) * (s.body.velocity.y as i128);
        proof {
            assert(abs_int(s.body.mass as int * vsq as int) <= 0x400000000000000000000000)
                by (nonlinear_arith)
                requires
                    0 < s.body.mass <= FX_LIM,
                    abs_int(vsq as int) <= 0x8000000000000000,
            ;
            vstd::arithmetic::div_mod::lemma_div_is_ordered(
                abs_int(s.body.mass as int * vsq as int),
                0x400000000000000000000000,
                2 * FX_SCALE as int * FX_SCALE as int,
            );
        }
        let sc: i128 = FX_SCALE as i128;
        let term: i128 = div_tz_i128((s.body.mass as i128) * vsq, 2 * sc * sc);
        sum = sum + term;
        i = i + 1;
    }
    sat_i128(sum)
}

/// The total linear momentum `sum of m*v` over all bodies, per axis,
/// saturated.
pub fn total_linear_momentum(states: &Vec<BodyState>) -> (r: Vec2)
    requires
        forall|i: int| 0 <= i < states@.len() ==> body_in_range(#[trigger] states@[i]),
    ensures
        r.x as int == sat64(total_momentum_spec(states@, states@.len() as int).0),
        r.y as int == sat64(total_momentum_spec(states@, states@.len() as int).1),
{
    let n = states.len();
    let mut sum_x: i128 = 0;
    let mut sum_y: i128 = 0;
    let mut i: usize = 0;
    while i < n
        invariant
            i <= n,
            n == states@.len(),
            forall|j: int| 0 <= j < n ==> body_in_range(#[trigger] states@[j]),
            sum_x as int == total_momentum_spec(states@, i as int).0,
            sum_y as int == total_momentum_spec(states@, i as int).1,
            abs_int(sum_x as int) <= i as int * 0x400000000000,
            abs_int(sum_y as int) <= i as int * 0x400000000000,
        decreases n - i,
    {
        let s = states[i];
        proof {
            assert(body_in_range(states@[i as int]));
            assert(abs_int(s.body.mass as int * s.body.velocity.x as int) <= 0x4000000000000000
                && abs_int(s.body.mass as int * s.body.velocity.y as int)
                <= 0x4000000000000000) by (nonlinear_arith)
                requires
                    0 < s.body.mass <= FX_LIM,
                    abs_int(s.body.velocity.x as int) <= FX_LIM,
                    abs_int(s.body.velocity.y as int) <= FX_LIM,
            ;
            vstd::arithmetic::div_mod::lemma_div_is_ordered(
                abs_int(s.body.mass as int * s.body.velocity.x as int),
                0x4000000000000000,
                FX_SCALE as int,
            );
            vstd::arithmetic::div_mod::lemma_div_is_ordered(
                abs_int(s.body.mass as int * s.body.velocity.y as int),
                0x4000000000000000,
                FX_SCALE as int,
            );
        }
        let tx: i128 = div_tz_i128(
            (s.body.mass as i128) * (s.body.velocity.x as i128),
            FX_SCALE as i128,
        );
        let ty: i128 = div_tz_i128(
            (s.body.mass as i128) * (s.body.velocity.y as i128),
            FX_SCALE as i128,
        );
        sum_x = sum_x + tx;
        sum_y = sum_y + ty;
        i = i + 1;
    }
    Vec2 { x: sat_i128(sum_x), y: sat_i128(sum_y) }
}

} // verus!
