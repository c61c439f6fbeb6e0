//! Integer trigonometry over turn-unit angles.
//!
//! Angles count turn units: `TURN` units make one full circle, so a half
//! circle is `HALF_TURN` units. `sin_turn` and `cos_turn` evaluate a
//! rational approximation of the sine (exact at every quarter turn);
//! `atan2_turn` maps a vector to its direction by octant reduction and a
//! rational approximation of the arctangent (exact on the axes and
//! diagonals). Each carries its defining formula as a spec function, so
//! callers reason about the exact value computed.

use vstd::prelude::*;

use crate::fixed::{wrap_mod, SCALE, TURN};

verus! {

/// Turn units in half a circle.
pub open const HALF_TURN: i64 = 500_000;

/// Turn units in a quarter circle.
pub open const QUARTER_TURN: i64 = 250_000;

/// Turn units in an eighth of a circle.
pub open const EIGHTH_TURN: i64 = 125_000;

/// The sine over the first half circle, `0 <= x <= HALF_TURN`, as a
/// fixed-point value: `16 x (H - x) / (5 H^2 - 4 x (H - x))` scaled,
/// for `H` the half turn.
pub open spec fn spec_sin_half(x: int) -> int {
    let p = x * (500_000 - x);
    (16 * p * 1_000_000) / (1_250_000_000_000 - 4 * p)
}

/// The sine of an angle in `[0, TURN)`, as a fixed-point value.
pub open spec fn spec_sin_turn(a: int) -> int {
    if a <= HALF_TURN {
        spec_sin_half(a)
    } else {
        -spec_sin_half(a - HALF_TURN)
    }
}

/// The cosine of an angle in `[0, TURN)`, as a fixed-point value.
pub open spec fn spec_cos_turn(a: int) -> int {
    spec_sin_turn((a + QUARTER_TURN) % (TURN as int))
}

fn sin_half(x: i64) -> (r: i64)
    requires
        0 <= x <= HALF_TURN,
    ensures
        r == spec_sin_half(x as int),
        0 <= r <= SCALE,
{
    let xu: u64 = x as u64;
    let hu: u64 = 500_000 - xu;
    assert(xu * hu <= 62_500_000_000) by (nonlinear_arith)
        requires
            xu <= 500_000,
            hu == 500_000 - xu,
    ;
    let p: u64 = xu * hu;
    let num: u64 = 16 * p * 1_000_000;
    let den: u64 = 1_250_000_000_000 - 4 * p;
    let q: u64 = num / den;
    proof {
        assert(num as int <= den as int * 1_000_000);
        vstd::arithmetic::div_mod::lemma_div_is_ordered(num as int, den as int * 1_000_000, den as int);
        vstd::arithmetic::div_mod::lemma_div_multiples_vanish(1_000_000, den as int);
        assert(q <= 1_000_000);
    }
    q as i64
}

/// The sine of an angle, `SCALE` units standing for `1.0`.
pub fn sin_turn(a: i64) -> (r: i64)
    requires
        0 <= a < TURN,
    ensures
        r == spec_sin_turn(a as int),
        -SCALE <= r <= SCALE,
{
    if a <= HALF_TURN {
        sin_half(a)
    } else {
        -sin_half(a - HALF_TURN)
    }
}

/// The cosine of an angle, `SCALE` units standing for `1.0`.
pub fn cos_turn(a: i64) -> (r: i64)
    requires
        0 <= a < TURN,
    ensures
        r == spec_cos_turn(a as int),
        -SCALE <= r <= SCALE,
{
    let b: i64 = wrap_mod(a + QUARTER_TURN, TURN);
    sin_turn(b)
}

/// The arctangent of `num / den` for `0 <= num <= den`, in turn units:
/// `z / 8 + 0.043446 z (1 - z)` of a turn, for the fixed-point ratio `z`.
pub open spec fn spec_atan_frac(num: int, den: int) -> int {
    let z = (num * 1_000_000) / den;
    z / 8 + (43_446 * (z * (1_000_000 - z))) / 1_000_000_000_000
}

/// The first-quadrant direction of `(ax, ay)`, both non-negative.
pub open spec fn spec_octant(ax: int, ay: int) -> int {
    if ax >= ay {
        spec_atan_frac(ay, ax)
    } else {
        QUARTER_TURN - spec_atan_frac(ax, ay)
    }
}

/// The direction of the vector `(x, y)` measured from the positive x axis,
/// in turn units in `[-HALF_TURN, HALF_TURN]`.
pub open spec fn spec_atan2_turn(y: int, x: int) -> int {
    let ax = if x >= 0 { x } else { -x };
    let ay = if y >= 0 { y } else { -y };
    let t = spec_octant(ax, ay);
    if x >= 0 && y >= 0 {
        t
    } else if x < 0 && y >= 0 {
        HALF_TURN - t
    } else if x < 0 {
        -(HALF_TURN - t)
    } else {
        -t
    }
}

fn atan_frac(num: i64, den: i64) -> (r: i64)
    requires
        0 <= num <= den,
        1 <= den <= 2_000_000,
    ensures
        r == spec_atan_frac(num as int, den as int),
        0 <= r <= 135_862,
{
    let zn: u64 = (num as u64) * 1_000_000;
    let z: u64 = zn / (den as u64);
    proof {
        assert(zn as int <= den as int * 1_000_000);
        vstd::arithmetic::div_mod::lemma_div_is_ordered(zn as int, den as int * 1_000_000, den as int);
        vstd::arithmetic::div_mod::lemma_div_multiples_vanish(1_000_000, den as int);
        assert(z <= 1_000_000);
    }
    let t1: u64 = z / 8;
    assert(z * (1_000_000 - z) <= 250_000_000_000) by (nonlinear_arith)
        requires
            z <= 1_000_000,
    ;
    let w: u64 = z * (1_000_000 - z);
    let t2: u64 = (43_446 * w) / 1_000_000_000_000;
    proof {
        vstd::arithmetic::div_mod::lemma_div_is_ordered(z as int, 1_000_000, 8);
        vstd::arithmetic::div_mod::lemma_div_is_ordered(
            43_446 * w as int,
            10_861_500_000_000_000,
            1_000_000_000_000,
        );
    }
    (t1 + t2) as i64
}

/// The direction of the vector `(x, y)` in turn units, `atan2` over
/// fixed-point coordinates.
pub fn atan2_turn(y: i64, x: i64) -> (r: i64)
    requires
        -2_000_000 <= x <= 2_000_000,
        -2_000_000 <= y <= 2_000_000,
        !(x == 0 && y == 0),
    ensures
        r == spec_atan2_turn(y as int, x as int),
        -HALF_TURN <= r <= HALF_TURN,
{
    let ax: i64 = if x >= 0 { x } else { -x };
    let ay: i64 = if y >= 0 { y } else { -y };
    let t: i64 = if ax >= ay {
        atan_frac(ay, ax)
    } else {
        QUARTER_TURN - atan_frac(ax, ay)
    };
    if x >= 0 && y >= 0 {
        t
    } else if x < 0 && y >= 0 {
        HALF_TURN - t
    } else if x < 0 {
        -(HALF_TURN - t)
    } else {
        -t
    }
}

} // verus!
