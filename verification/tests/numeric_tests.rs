//! The fixed-point numeric core: wrapping, square roots, trigonometry,
//! and the randomness plumbing.

use evosim::fixed::{clamp_i64, div_scale, isqrt, wrap_mod};
use evosim::rng::SimRng;
use evosim::trig::{atan2_turn, cos_turn, sin_turn};

#[test]
fn wrap_mod_wraps_the_torus() {
    // Past 1.0, a coordinate reappears at the corresponding offset from 0.
    assert_eq!(wrap_mod(1_000_300, 1_000_000), 300);
    // Below 0.0, it reappears near 1.0.
    assert_eq!(wrap_mod(-300, 1_000_000), 999_700);
    // In range, it stays.
    assert_eq!(wrap_mod(437_000, 1_000_000), 437_000);
}

#[test]
fn isqrt_exact_values() {
    assert_eq!(isqrt(0), 0);
    assert_eq!(isqrt(1), 1);
    assert_eq!(isqrt(3), 1);
    assert_eq!(isqrt(4), 2);
    assert_eq!(isqrt(1_000_000_000_000), 1_000_000);
    assert_eq!(isqrt(2_000_000_000_000), 1_414_213);
}

#[test]
fn div_scale_truncates_toward_zero() {
    assert_eq!(div_scale(1_500_000), 1);
    assert_eq!(div_scale(-1_500_000), -1);
    assert_eq!(div_scale(999_999), 0);
    assert_eq!(div_scale(-999_999), 0);
}

#[test]
fn clamp_i64_clamps() {
    assert_eq!(clamp_i64(-5, 10, 5), 5);
    assert_eq!(clamp_i64(-5, -10, 5), -5);
    assert_eq!(clamp_i64(-5, 3, 5), 3);
}

#[test]
fn sine_is_exact_at_quarter_turns() {
    assert_eq!(sin_turn(0), 0);
    assert_eq!(sin_turn(250_000), 1_000_000);
    assert_eq!(sin_turn(500_000), 0);
    assert_eq!(sin_turn(750_000), -1_000_000);
    assert_eq!(cos_turn(0), 1_000_000);
    assert_eq!(cos_turn(250_000), 0);
    assert_eq!(cos_turn(500_000), -1_000_000);
}

#[test]
fn sine_approximation_stays_close() {
    // At an eighth of a turn the sine is about 0.7071; the rational
    // approximation lands within two thousandths of it.
    let s = sin_turn(125_000);
    assert!((s - 707_107).abs() < 2_000);
}

#[test]
fn atan2_is_exact_on_axes_and_diagonals() {
    assert_eq!(atan2_turn(0, 1_000_000), 0);
    assert_eq!(atan2_turn(1_000_000, 0), 250_000);
    assert_eq!(atan2_turn(0, -1_000_000), 500_000);
    assert_eq!(atan2_turn(-1_000_000, 0), -250_000);
    assert_eq!(atan2_turn(500_000, 500_000), 125_000);
    assert_eq!(atan2_turn(500_000, -500_000), 375_000);
}

#[test]
fn rng_draws_stay_in_range_and_vary() {
    let mut rng = SimRng::from_seed(9);
    let mut below_seen = [false; 7];
    let mut coin_true = false;
    let mut coin_false = false;
    for _ in 0..1000 {
        let d = rng.next_below(7);
        assert!(d < 7);
        below_seen[d as usize] = true;
        if rng.coin() {
            coin_true = true;
        } else {
            coin_false = true;
        }
        let g = rng.gene();
        assert!(-1_000_000 <= g && g <= 1_000_000);
        let c = rng.coord();
        assert!(0 <= c && c < 1_000_000);
        let a = rng.angle();
        assert!(0 <= a && a < 1_000_000);
    }
    assert!(below_seen.iter().all(|b| *b));
    assert!(coin_true && coin_false);
}
