//! The vision sensor: a fixed ring of photoreceptor cells.
//!
//! Each food within the field-of-view radius and angle falls into the cell
//! its bearing selects, and adds an energy that falls off linearly with
//! distance: zero at the edge of view, one (in fixed point) at zero
//! distance. Foods sharing a cell sum their energies.

use vstd::prelude::*;

use crate::fixed::{isqrt, spec_isqrt, wrap_mod, SCALE, SIGNAL_LIMIT, TURN};
use crate::trig::{atan2_turn, spec_atan2_turn, HALF_TURN};
use crate::world::Food;

verus! {

/// The sensor's immutable parameters.
#[derive(Clone, Copy, Debug)]
pub struct Eye {
    /// How far the eye sees, in fixed-point units.
    pub fov_range: i64,
    /// The angular width of the field of view, in turn units.
    pub fov_angle: i64,
    /// How many photoreceptor cells the eye has.
    pub cells: usize,
}

/// The energy one food at `dist` contributes, linearly inverse to the
/// distance: zero at the edge of view, `SCALE` at zero distance.
pub open spec fn spec_energy(dist: int, range: int) -> int {
    (range - dist) * 1_000_000 / range
}

/// A sighted food falls off linearly with distance, stays within the unit
/// energy range, vanishes exactly at the edge of view, and is full at zero
/// distance.
pub proof fn lemma_energy_bounds(dist: int, range: int)
    requires
        1 <= range,
        0 <= dist <= range,
    ensures
        0 <= spec_energy(dist, range) <= SCALE,
        dist == range ==> spec_energy(dist, range) == 0,
        dist == 0 ==> spec_energy(dist, range) == SCALE,
{
    let num = (range - dist) * 1_000_000;
    assert(0 <= num <= range * 1_000_000) by (nonlinear_arith)
        requires
            0 <= dist <= range,
            num == (range - dist) * 1_000_000,
    ;
    vstd::arithmetic::div_mod::lemma_div_is_ordered(0, num, range);
    vstd::arithmetic::div_mod::lemma_div_is_ordered(num, range * 1_000_000, range);
    vstd::arithmetic::div_mod::lemma_div_multiples_vanish(1_000_000, range);
    assert(0int / range == 0) by {
        vstd::arithmetic::div_mod::lemma_div_basics(range);
    }
}

/// What one food looks like to an eye at `(px, py)` facing `rot`: the cell
/// its bearing selects and the energy it contributes, or nothing when it
/// is out of range or outside the field of view.
pub open spec fn spec_sighting(eye: Eye, px: int, py: int, rot: int, fx: int, fy: int) -> Option<
    (int, int),
> {
    let dx = fx - px;
    let dy = fy - py;
    let dist = spec_isqrt(dx * dx + dy * dy);
    if dist > eye.fov_range {
        None
    } else {
        let a0 = if dx == 0 && dy == 0 {
            0
        } else {
            spec_atan2_turn(-dx, dy)
        };
        let w = (a0 - rot + TURN) % (TURN as int);
        let s = if w > HALF_TURN {
            w - TURN
        } else {
            w
        };
        let half = eye.fov_angle as int / 2;
        if s < -half || s > half {
            None
        } else {
            let shifted = s + half;
            let cell0 = shifted * (eye.cells as int) / (eye.fov_angle as int);
            let cell = if cell0 >= eye.cells {
                eye.cells as int - 1
            } else {
                cell0
            };
            Some((cell, spec_energy(dist, eye.fov_range as int)))
        }
    }
}

/// The sensory vector an eye reads from `foods`: per food, its sighting
/// accumulated into the cell it falls in.
pub open spec fn spec_vision(eye: Eye, px: int, py: int, rot: int, foods: Seq<Food>) -> Seq<i64>
    decreases foods.len(),
{
    if foods.len() == 0 {
        Seq::new(eye.cells as nat, |i: int| 0i64)
    } else {
        let prev = spec_vision(eye, px, py, rot, foods.drop_last());
        match spec_sighting(eye, px, py, rot, foods.last().x as int, foods.last().y as int) {
            Option::None => prev,
            Option::Some(ce) => prev.update(ce.0, (prev[ce.0] + ce.1) as i64),
        }
    }
}

impl Eye {
    /// The parameters are usable: positive range within the unit, a
    /// positive angle of at most a full circle, and a sensible cell count.
    pub open spec fn wf(&self) -> bool {
        &&& 1 <= self.fov_range <= SCALE
        &&& 1 <= self.fov_angle <= TURN
        &&& 1 <= self.cells <= 10_000
    }

    pub fn new(fov_range: i64, fov_angle: i64, cells: usize) -> (r: Eye)
        requires
            1 <= fov_range <= SCALE,
            1 <= fov_angle <= TURN,
            1 <= cells <= 10_000,
        ensures
            r == (Eye { fov_range, fov_angle, cells }),
            r.wf(),
    {
        Eye { fov_range, fov_angle, cells }
    }

    /// How many photoreceptor cells the eye has.
    pub fn cells(&self) -> (r: usize)
        ensures
            r == self.cells,
    {
        self.cells
    }

    /// The sensory vector the eye reads at `(px, py)` facing `rot`.
    pub fn process_vision(&self, px: i64, py: i64, rot: i64, foods: &Vec<Food>) -> (r: Vec<i64>)
        requires
            self.wf(),
            0 <= px < SCALE,
            0 <= py < SCALE,
            0 <= rot < TURN,
            foods@.len() <= 1_000_000,
            forall|i: int| 0 <= i < foods@.len() ==> (#[trigger] foods@[i]).wf(),
        ensures
            r@.len() == self.cells,
            r@ == spec_vision(*self, px as int, py as int, rot as int, foods@),
            forall|i: int| 0 <= i < r@.len() ==> 0 <= #[trigger] r@[i] <= SIGNAL_LIMIT,
    {
        let n_cells = self.cells;
        let mut cells: Vec<i64> = Vec::new();
        let mut c: usize = 0;
        while c < n_cells
            invariant
                c <= n_cells,
                cells@.len() == c,
                forall|i: int| 0 <= i < c ==> #[trigger] cells@[i] == 0i64,
            decreases n_cells - c,
        {
            cells.push(0);
            c += 1;
        }
        let n = foods.len();
        let mut k: usize = 0;
        proof {
            assert(cells@ =~= spec_vision(*self, px as int, py as int, rot as int, foods@.take(0)));
        }
        while k < n
            invariant
                k <= n,
                n == foods@.len() <= 1_000_000,
                self.wf(),
                0 <= px < SCALE,
                0 <= py < SCALE,
                0 <= rot < TURN,
                n_cells == self.cells,
                forall|i: int| 0 <= i < n ==> (#[trigger] foods@[i]).wf(),
                cells@.len() == n_cells,
                cells@ == spec_vision(*self, px as int, py as int, rot as int, foods@.take(k as int)),
                forall|i: int|
                    0 <= i < n_cells ==> 0 <= #[trigger] cells@[i] <= (k as int) * 1_000_000,
            decreases n - k,
        {
            proof {
                assert(foods@.take(k as int + 1).drop_last() =~= foods@.take(k as int));
                assert(foods@.take(k as int + 1).last() == foods@[k as int]);
            }
            let food = foods[k];
            let dx: i64 = food.x - px;
            let dy: i64 = food.y - py;
            assert(0 <= dx * dx <= 1_000_000_000_000 && 0 <= dy * dy <= 1_000_000_000_000)
                by (nonlinear_arith)
                requires
                    -1_000_000 <= dx <= 1_000_000,
                    -1_000_000 <= dy <= 1_000_000,
            ;
            let d2: u64 = ((dx * dx) as u64) + ((dy * dy) as u64);
            let dist_u: u64 = isqrt(d2);
            let dist: i64 = dist_u as i64;
            if dist <= self.fov_range {
                let a0: i64 = if dx == 0 && dy == 0 {
                    0
                } else {
                    atan2_turn(-dx, dy)
                };
                let w: i64 = wrap_mod(a0 - rot + TURN, TURN);
                let s: i64 = if w > HALF_TURN {
                    w - TURN
                } else {
                    w
                };
                let half: i64 = (((self.fov_angle) as u64) / 2) as i64;
                if -half <= s && s <= half {
                    let shifted: u64 = (s + half) as u64;
                    assert(shifted * (n_cells as u64) <= 10_000_000_000) by (nonlinear_arith)
                        requires
                            shifted <= 1_000_000,
                            n_cells as u64 <= 10_000,
                    ;
                    let cell0: u64 = (shifted * (n_cells as u64)) / (self.fov_angle as u64);
                    let cell: usize = if cell0 >= n_cells as u64 {
                        n_cells - 1
                    } else {
                        cell0 as usize
                    };
                    let num: u64 = ((self.fov_range - dist) as u64) * 1_000_000;
                    let energy: i64 = (num / (self.fov_range as u64)) as i64;
                    proof {
                        lemma_energy_bounds(dist as int, self.fov_range as int);
                    }
                    let prev = cells[cell];
                    cells.set(cell, prev + energy);
                }
            }
            k += 1;
        }
        proof {
            assert(foods@.take(n as int) =~= foods@);
        }
        cells
    }
}

impl Default for Eye {
    /// The reference sensor: a quarter-unit range, five eighths of a turn,
    /// nine cells.
    fn default() -> (r: Eye)
        ensures
            r == (Eye { fov_range: 250_000, fov_angle: 625_000, cells: 9 }),
            r.wf(),
    {
        Eye { fov_range: 250_000, fov_angle: 625_000, cells: 9 }
    }
}

} // verus!
