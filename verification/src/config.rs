//! The simulation's tuning values, carried as one explicit value so that
//! several simulations with different tuning can coexist.

use vstd::prelude::*;

use crate::eye::Eye;
use crate::fixed::{SCALE, TURN};

verus! {

/// Tuning values of one simulation instance.
#[derive(Clone, Copy, Debug)]
pub struct Config {
    /// The sensor every animal carries.
    pub eye: Eye,
    /// The slowest an animal may move, per tick.
    pub speed_min: i64,
    /// The fastest an animal may move, per tick.
    pub speed_max: i64,
    /// The speed every animal starts and restarts with.
    pub speed_start: i64,
    /// The largest speed change one brain decision may apply.
    pub speed_accel: i64,
    /// The largest rotation change one brain decision may apply, in turn
    /// units.
    pub rotation_accel: i64,
    /// Ticks in one generation.
    pub generation_length: u32,
    /// How close an animal must come to a food to eat it.
    pub eat_range: i64,
    /// Animals in the world.
    pub n_animals: usize,
    /// Foods in the world.
    pub n_foods: usize,
}

impl Config {
    /// The tuning is usable.
    pub open spec fn wf(&self) -> bool {
        &&& self.eye.wf()
        &&& 0 < self.speed_min <= self.speed_start <= self.speed_max <= SCALE
        &&& 0 <= self.speed_accel <= SCALE
        &&& 0 <= self.rotation_accel <= TURN
        &&& 1 <= self.generation_length <= 1_000_000
        &&& 0 <= self.eat_range <= SCALE
        &&& 1 <= self.n_animals <= 10_000
        &&& 1 <= self.n_foods <= 10_000
    }
}

/// The reference tuning: a quarter-unit eye of nine cells spanning five
/// eighths of a turn, speeds of a few thousandths per tick, and
/// twenty-five-hundred-tick generations.
pub open spec fn spec_default_config() -> Config {
    Config {
        eye: Eye { fov_range: 250_000, fov_angle: 625_000, cells: 9 },
        speed_min: 1_000,
        speed_max: 5_000,
        speed_start: 2_000,
        speed_accel: 200_000,
        rotation_accel: 250_000,
        generation_length: 2_500,
        eat_range: 10_000,
        n_animals: 40,
        n_foods: 60,
    }
}

impl Default for Config {
    /// The reference tuning, as a value.
    fn default() -> (r: Config)
        ensures
            r.wf(),
            r == spec_default_config(),
    {
        Config {
            eye: Eye { fov_range: 250_000, fov_angle: 625_000, cells: 9 },
            speed_min: 1_000,
            speed_max: 5_000,
            speed_start: 2_000,
            speed_accel: 200_000,
            rotation_accel: 250_000,
            generation_length: 2_500,
            eat_range: 10_000,
            n_animals: 40,
            n_foods: 60,
        }
    }
}

} // verus!
