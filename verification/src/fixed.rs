//! Fixed-point scalars.
//!
//! A scalar is an `i64` holding the real value times `FX_SCALE` (a power of
//! two, so binary fractions such as a time step of 1/128 are exact). Products
//! and quotients are computed in 128-bit intermediates, rounded toward zero,
//! and saturated to the `i64` range; `sat64` and `div_tz` state that exactly.

use vstd::prelude::*;

verus! {

/// One unit, as a raw fixed-point value: raw = real * FX_SCALE.
pub const FX_SCALE: i64 = 65536;

/// Bound on the raw magnitude of physical quantities (positions, velocities,
/// accelerations, masses, radii, time steps) accepted by the physics
/// functions: 2^31 raw, i.e. 32768.0 in real units. Within this bound every
/// 128-bit intermediate of the library fits.
pub const FX_LIM: i64 = 2147483648;

/// Magnitude of a mathematical integer.
pub open spec fn abs_int(x: int) -> int {
    if x < 0 {
        -x
    } else {
        x
    }
}

/// Saturation of a mathematical integer into the `i64` range.
pub open spec fn sat64(x: int) -> int {
    if x > i64::MAX {
        i64::MAX as int
    } else if x < i64::MIN {
        i64::MIN as int
    } else {
        x
    }
}

/// Quotient of `a` and `b`, rounded toward zero. This is the rounding of
/// every division in this library. Meaningful only for `b != 0`.
pub open spec fn div_tz(a: int, b: int) -> int {
    if (a < 0) == (b < 0) {
        abs_int(a) / abs_int(b)
    } else {
        -(abs_int(a) / abs_int(b))
    }
}

/// The integer square root: the largest `r` with `r * r <= n`.
pub open spec fn isqrt_spec(n: nat) -> nat
    decreases n,
{
    if n == 0 {
        0
    } else {
        let r = isqrt_spec((n - 1) as nat);
        if (r + 1) * (r + 1) <= n {
            r + 1
        } else {
            r
        }
    }
}

/// `isqrt_spec(n)` is indeed the integer square root of `n`.
pub proof fn lemma_isqrt_spec_bounds(n: nat)
    ensures
        isqrt_spec(n) * isqrt_spec(n) <= n,
        n < (isqrt_spec(n) + 1) * (isqrt_spec(n) + 1),
    decreases n,
{
    let s = isqrt_spec(n);
    if n == 0 {
        assert(s == 0);
        assert(s * s == 0 && (s + 1) * (s + 1) == 1) by (nonlinear_arith)
            requires
                s == 0,
        ;
    } else {
        lemma_isqrt_spec_bounds((n - 1) as nat);
        let r = isqrt_spec((n - 1) as nat);
        if (r + 1) * (r + 1) <= n {
            assert(s == r + 1);
            assert(s * s == (r + 1) * (r + 1) && (s + 1) * (s + 1) > (r + 1) * (r + 1))
                by (nonlinear_arith)
                requires
                    s == r + 1,
            ;
            assert(n <= (r + 1) * (r + 1));
        } else {
            assert(s == r);
            assert(s * s == r * r && (s + 1) * (s + 1) == (r + 1) * (r + 1))
                by (nonlinear_arith)
                requires
                    s == r,
            ;
        }
    }
}

/// Two integer square roots of the same number are equal.
pub proof fn lemma_isqrt_unique(n: nat, r1: nat, r2: nat)
    requires
        r1 * r1 <= n < (r1 + 1) * (r1 + 1),
        r2 * r2 <= n < (r2 + 1) * (r2 + 1),
    ensures
        r1 == r2,
{
    if r1 < r2 {
        assert((r1 + 1) * (r1 + 1) <= r2 * r2) by (nonlinear_arith)
            requires
                r1 + 1 <= r2,
        ;
    }
    if r2 < r1 {
        assert((r2 + 1) * (r2 + 1) <= r1 * r1) by (nonlinear_arith)
            requires
                r2 + 1 <= r1,
        ;
    }
}

/// The integer square root of a perfect square is exact.
pub proof fn lemma_isqrt_perfect_square(n: int)
    requires
        0 <= n,
    ensures
        isqrt_spec((n * n) as nat) == n,
{
    lemma_isqrt_spec_bounds((n * n) as nat);
    let r = isqrt_spec((n * n) as nat);
    assert(n * n < (n + 1) * (n + 1)) by (nonlinear_arith)
        requires
            n >= 0,
    ;
    lemma_isqrt_unique((n * n) as nat, r, n as nat);
}

/// The product of two `i64` values stays strictly inside the `i128` range.
proof fn lemma_i64_mul_fits(a: int, b: int)
    by (nonlinear_arith)
    requires
        i64::MIN <= a <= i64::MAX,
        i64::MIN <= b <= i64::MAX,
    ensures
        -0x40000000000000000000000000000000 <= a * b
            <= 0x40000000000000000000000000000000,
{
}

/// Split a 128-bit value into sign and magnitude.
fn sign_mag_i128(p: i128) -> (r: (bool, u128))
    requires
        p > i128::MIN,
    ensures
        r.1 as int == abs_int(p as int),
        r.0 == (p < 0),
{
    if p < 0 {
        (true, (-p) as u128)
    } else {
        (false, p as u128)
    }
}

/// Rebuild an `i64` from sign and magnitude, saturating at the `i64` range.
fn sat_sign_mag(neg: bool, mag: u128) -> (r: i64)
    ensures
        r as int == sat64(
            if neg {
                -(mag as int)
            } else {
                mag as int
            },
        ),
{
    if neg {
        if mag >= 0x8000000000000000u128 {
            i64::MIN
        } else {
            -(mag as i64)
        }
    } else {
        if mag >= 0x8000000000000000u128 {
            i64::MAX
        } else {
            mag as i64
        }
    }
}

/// Saturate a 128-bit value into the `i64` range.
pub fn sat_i128(x: i128) -> (r: i64)
    ensures
        r as int == sat64(x as int),
{
    if x > i64::MAX as i128 {
        i64::MAX
    } else if x < i64::MIN as i128 {
        i64::MIN
    } else {
        x as i64
    }
}

/// Signed 128-bit division rounded toward zero. The quotient is never larger
/// in magnitude than the dividend.
pub fn div_tz_i128(num: i128, den: i128) -> (r: i128)
    requires
        den != 0,
        num > i128::MIN,
        den > i128::MIN,
    ensures
        r as int == div_tz(num as int, den as int),
        abs_int(r as int) <= abs_int(num as int),
{
    let (nn, nm) = sign_mag_i128(num);
    let (dn, dm) = sign_mag_i128(den);
    let q: u128 = nm / dm;
    proof {
        vstd::arithmetic::div_mod::lemma_div_nonincreasing(nm as int, dm as int);
    }
    if nn != dn {
        -(q as i128)
    } else {
        q as i128
    }
}

/// Signed 128-bit division rounded toward zero, saturated to `i64`.
pub fn div_sat(num: i128, den: i128) -> (r: i64)
    requires
        den != 0,
        num > i128::MIN,
        den > i128::MIN,
    ensures
        r as int == sat64(div_tz(num as int, den as int)),
{
    let q = div_tz_i128(num, den);
    sat_i128(q)
}

/// Clamp a value into the physics range `[-FX_LIM, FX_LIM]`.
pub open spec fn clamp_fx(x: int) -> int {
    if x > FX_LIM {
        FX_LIM as int
    } else if x < -(FX_LIM as int) {
        -(FX_LIM as int)
    } else {
        x
    }
}

/// Clamp a scalar into the physics range `[-FX_LIM, FX_LIM]`.
pub fn clamp_fx64(x: i64) -> (r: i64)
    ensures
        r as int == clamp_fx(x as int),
        abs_int(r as int) <= FX_LIM,
{
    if x > FX_LIM {
        FX_LIM
    } else if x < -FX_LIM {
        -FX_LIM
    } else {
        x
    }
}

/// Dividing an exact multiple rounds nothing away: `(a * b) / b == a`.
pub proof fn lemma_div_tz_multiple(a: int, b: int)
    requires
        b != 0,
    ensures
        div_tz(a * b, b) == a,
{
    assert(abs_int(a * b) == abs_int(a) * abs_int(b)) by (nonlinear_arith);
    assert(abs_int(a) * abs_int(b) == abs_int(b) * abs_int(a)) by (nonlinear_arith);
    vstd::arithmetic::div_mod::lemma_div_multiples_vanish(abs_int(a), abs_int(b));
    assert((abs_int(b) * abs_int(a)) / abs_int(b) == abs_int(a));
    if a == 0 {
        assert(div_tz(0, b) == 0int / abs_int(b));
        vstd::arithmetic::div_mod::lemma_div_of0(abs_int(b));
    } else {
        assert(((a * b) < 0) == ((a < 0) != (b < 0))) by (nonlinear_arith)
            requires
                a != 0 && b != 0,
        ;
    }
}

/// Fixed-point product: `a * b / FX_SCALE`, rounded toward zero, saturated.
pub fn fx_mul(a: i64, b: i64) -> (r: i64)
    ensures
        r as int == sat64(div_tz(a as int * b as int, FX_SCALE as int)),
{
    proof {
        lemma_i64_mul_fits(a as int, b as int);
    }
    let p: i128 = (a as i128) * (b as i128);
    div_sat(p, FX_SCALE as i128)
}

/// Fixed-point quotient: `a * FX_SCALE / b`, rounded toward zero, saturated.
pub fn fx_div(a: i64, b: i64) -> (r: i64)
    requires
        b != 0,
    ensures
        r as int == sat64(div_tz(a as int * FX_SCALE as int, b as int)),
{
    proof {
        lemma_i64_mul_fits(a as int, FX_SCALE as int);
    }
    let num: i128 = (a as i128) * (FX_SCALE as i128);
    div_sat(num, b as i128)
}

/// Integer square root of a 128-bit value, by binary search.
pub fn isqrt_u128(n: u128) -> (r: u128)
    ensures
        r as nat == isqrt_spec(n as nat),
        r * r <= n < (r + 1) * (r + 1),
{
    let mut lo: u128 = 0;
    let mut hi: u128 = 0xFFFFFFFFFFFFFFFFu128;
    proof {
        assert((hi + 1) * (hi + 1) > n as int) by (nonlinear_arith)
            requires
                hi == 0xFFFFFFFFFFFFFFFFu128,
                n <= u128::MAX,
        ;
    }
    while lo < hi
        invariant
            lo <= hi,
            hi <= 0xFFFFFFFFFFFFFFFFu128,
            lo * lo <= n,
            n < (hi + 1) * (hi + 1),
        decreases hi - lo,
    {
        let mid: u128 = lo + (hi - lo + 1) / 2;
        proof {
            assert(mid <= hi);
            assert(mid * mid <= 0xFFFFFFFFFFFFFFFFu128 * 0xFFFFFFFFFFFFFFFFu128)
                by (nonlinear_arith)
                requires
                    mid <= 0xFFFFFFFFFFFFFFFFu128,
            ;
        }
        if mid * mid <= n {
            lo = mid;
        } else {
            hi = mid - 1;
        }
    }
    proof {
        lemma_isqrt_spec_bounds(n as nat);
        lemma_isqrt_unique(n as nat, lo as nat, isqrt_spec(n as nat));
    }
    lo
}

} // verus!
