use particle_sandbox::fixed::{clamp_fx64, fx_div, fx_mul, isqrt_u128};
use particle_sandbox::math_helpers::{
    quadratic_formula, vector_dot_product, vector_magnitude, vector_project, Vec2,
};

const S: i64 = 65536;

#[test]
fn fixed_point_products_and_quotients() {
    // 1.5 * 2.0 == 3.0
    assert_eq!(fx_mul(3 * S / 2, 2 * S), 3 * S);
    // Rounding is toward zero on both signs.
    assert_eq!(fx_mul(1, 1), 0);
    assert_eq!(fx_mul(-1, 1), 0);
    // 3.0 / 2.0 == 1.5
    assert_eq!(fx_div(3 * S, 2 * S), 3 * S / 2);
    assert_eq!(fx_div(-3 * S, 2 * S), -(3 * S / 2));
}

#[test]
fn isqrt_exact_and_floor() {
    assert_eq!(isqrt_u128(0), 0);
    assert_eq!(isqrt_u128(1), 1);
    assert_eq!(isqrt_u128(24), 4);
    assert_eq!(isqrt_u128(25), 5);
    assert_eq!(isqrt_u128(26), 5);
    assert_eq!(isqrt_u128(u128::MAX), 0xFFFFFFFFFFFFFFFF);
}

#[test]
fn clamping() {
    assert_eq!(clamp_fx64(i64::MAX), 0x80000000);
    assert_eq!(clamp_fx64(i64::MIN), -0x80000000);
    assert_eq!(clamp_fx64(12345), 12345);
}

#[test]
fn dot_product_exact() {
    // (3,4).(3,4) == 25
    let v = Vec2::new(3 * S, 4 * S);
    assert_eq!(vector_dot_product(v, v), 25 * S);
    // (1,2).(3,-4) == -5
    assert_eq!(
        vector_dot_product(Vec2::new(S, 2 * S), Vec2::new(3 * S, -4 * S)),
        -5 * S
    );
}

#[test]
fn magnitude_of_pythagorean_vector() {
    assert_eq!(vector_magnitude(Vec2::new(3 * S, 4 * S)), 5 * S);
    assert_eq!(vector_magnitude(Vec2::new(0, 0)), 0);
    assert_eq!(vector_magnitude(Vec2::new(-3 * S, -4 * S)), 5 * S);
}

#[test]
fn projection_onto_axis() {
    // (2,2) projected onto the x axis is (2,0).
    let r = vector_project(Vec2::new(2 * S, 2 * S), Vec2::new(S, 0));
    assert_eq!(r, Vec2::new(2 * S, 0));
    // (2,2) projected onto (1,1) is (2,2) itself.
    let r = vector_project(Vec2::new(2 * S, 2 * S), Vec2::new(S, S));
    assert_eq!(r, Vec2::new(2 * S, 2 * S));
}

#[test]
fn quadratic_with_integer_roots() {
    // t^2 - 3t + 2 has roots 2 and 1.
    let r = quadratic_formula(S, -3 * S, 2 * S).unwrap();
    assert_eq!(r.0, 2 * S);
    assert_eq!(r.1, S);
}

#[test]
fn quadratic_negative_discriminant() {
    // t^2 + 1 has no real root.
    assert!(quadratic_formula(S, 0, S).is_none());
}
