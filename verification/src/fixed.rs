//! Fixed-point scalar arithmetic.
//!
//! Every real-valued quantity of the simulation (weights, positions, speeds,
//! sensor energies) is an `i64` counting millionths: `SCALE` units stand for
//! the real value `1.0`. Angles are measured in turn units: `TURN` units make
//! one full circle.

use vstd::prelude::*;

verus! {

/// Fixed-point units in the real value `1.0`.
pub open const SCALE: i64 = 1_000_000;

/// Angle units in one full circle.
pub open const TURN: i64 = 1_000_000;

/// Largest magnitude any signal (gene, activation, sensor energy) may carry:
/// the representable range of the library's number line, in the way the
/// finite range of a floating-point type bounds its values.
pub open const SIGNAL_LIMIT: i64 = 1_000_000_000_000;

/// Every element of `s` lies within the signal range.
pub open spec fn all_in_signal(s: Seq<i64>) -> bool {
    forall|i: int| 0 <= i < s.len() ==> -SIGNAL_LIMIT <= #[trigger] s[i] <= SIGNAL_LIMIT
}

/// `x` clamped into `[lo, hi]`.
pub open spec fn clamped(lo: int, x: int, hi: int) -> int {
    if x < lo {
        lo
    } else if x > hi {
        hi
    } else {
        x
    }
}

/// Clamp `x` into `[lo, hi]`.
pub fn clamp_i64(lo: i64, x: i64, hi: i64) -> (r: i64)
    requires
        lo <= hi,
    ensures
        r == clamped(lo as int, x as int, hi as int),
{
    if x < lo {
        lo
    } else if x > hi {
        hi
    } else {
        x
    }
}

/// Division that truncates toward zero, the rounding of every scale
/// reduction in this library.
pub open spec fn div_trunc(a: int, b: int) -> int
    recommends
        b > 0,
{
    if a >= 0 {
        a / b
    } else {
        -((-a) / b)
    }
}

/// Divide a wide intermediate by `SCALE`, truncating toward zero.
pub fn div_scale(a: i128) -> (r: i128)
    requires
        a > i128::MIN,
    ensures
        r == div_trunc(a as int, SCALE as int),
        a >= 0 ==> 0 <= r <= a,
        a < 0 ==> a <= r <= 0,
{
    if a >= 0 {
        let q: u128 = (a as u128) / (SCALE as u128);
        q as i128
    } else {
        let q: u128 = ((-a) as u128) / (SCALE as u128);
        -(q as i128)
    }
}

/// A wide intermediate clamped into the signal range and narrowed.
pub fn clamp_signal(x: i128) -> (r: i64)
    ensures
        r == clamped(-SIGNAL_LIMIT as int, x as int, SIGNAL_LIMIT as int),
{
    if x < -SIGNAL_LIMIT as i128 {
        -SIGNAL_LIMIT
    } else if x > SIGNAL_LIMIT as i128 {
        SIGNAL_LIMIT
    } else {
        x as i64
    }
}

/// A scale reduction keeps its bound: a product of a `bound`-sized factor
/// and a unit-sized factor, reduced by the scale, stays within `bound`.
pub proof fn lemma_div_trunc_bound(m: int, bound: int)
    requires
        0 <= bound,
        -(bound * 1_000_000) <= m <= bound * 1_000_000,
    ensures
        -bound <= div_trunc(m, 1_000_000) <= bound,
{
    vstd::arithmetic::div_mod::lemma_div_multiples_vanish(bound, 1_000_000);
    vstd::arithmetic::div_mod::lemma_div_basics(1_000_000);
    if m >= 0 {
        vstd::arithmetic::div_mod::lemma_div_is_ordered(0, m, 1_000_000);
        vstd::arithmetic::div_mod::lemma_div_is_ordered(m, bound * 1_000_000, 1_000_000);
    } else {
        vstd::arithmetic::div_mod::lemma_div_is_ordered(0, -m, 1_000_000);
        vstd::arithmetic::div_mod::lemma_div_is_ordered(-m, bound * 1_000_000, 1_000_000);
    }
}

/// Wrap `x` into `[0, m)`, for an `x` that has drifted at most one whole
/// period out of range: the remainder of `x` modulo `m`.
pub fn wrap_mod(x: i64, m: i64) -> (r: i64)
    requires
        m >= 1,
        -m <= x < 2 * m,
    ensures
        0 <= r < m,
        r == (x as int) % (m as int),
{
    if x < 0 {
        proof {
            vstd::arithmetic::div_mod::lemma_mod_multiples_vanish(-1, x + m, m as int);
            vstd::arithmetic::div_mod::lemma_small_mod((x + m) as nat, m as nat);
        }
        x + m
    } else if x >= m {
        proof {
            vstd::arithmetic::div_mod::lemma_mod_multiples_vanish(1, x - m, m as int);
            vstd::arithmetic::div_mod::lemma_small_mod((x - m) as nat, m as nat);
        }
        x - m
    } else {
        proof {
            vstd::arithmetic::div_mod::lemma_small_mod(x as nat, m as nat);
        }
        x
    }
}

/// The integer square root of a non-negative value: the largest `r` with
/// `r * r <= x`.
pub open spec fn spec_isqrt(x: int) -> int {
    choose|r: int| 0 <= r && #[trigger] (r * r) <= x < (r + 1) * (r + 1)
}

/// The integer square root is unique, so any witness pins `spec_isqrt`.
pub proof fn lemma_isqrt_unique(x: int, r: int)
    requires
        0 <= r,
        r * r <= x,
        x < (r + 1) * (r + 1),
    ensures
        spec_isqrt(x) == r,
{
    assert(0 <= r && r * r <= x < (r + 1) * (r + 1));
    let r2 = spec_isqrt(x);
    assert(0 <= r2 && r2 * r2 <= x < (r2 + 1) * (r2 + 1));
    assert(r == r2) by (nonlinear_arith)
        requires
            0 <= r,
            0 <= r2,
            r * r <= x,
            x < (r + 1) * (r + 1),
            r2 * r2 <= x,
            x < (r2 + 1) * (r2 + 1),
    ;
}

/// The integer square root: the largest `r` with `r * r <= x`.
pub fn isqrt(x: u64) -> (r: u64)
    requires
        x <= 4_000_000_000_000,
    ensures
        r * r <= x < (r + 1) * (r + 1),
        r == spec_isqrt(x as int),
        r <= 2_000_000,
{
    if x == 0 {
        proof {
            lemma_isqrt_unique(x as int, 0);
        }
        return 0;
    }
    let mut lo: u64 = 0;
    let mut hi: u64 = 2_000_001;
    while lo + 1 < hi
        invariant
            lo < hi <= 2_000_001,
            lo * lo <= x,
            x < hi * hi,
        decreases hi - lo,
    {
        let mid = lo + (hi - lo) / 2;
        assert(mid * mid <= 2_000_001 * 2_000_001) by (nonlinear_arith)
            requires
                mid <= 2_000_001,
        ;
        if mid * mid <= x {
            lo = mid;
        } else {
            hi = mid;
        }
    }
    proof {
        lemma_isqrt_unique(x as int, lo as int);
    }
    lo
}

} // verus!
