//! The configuration of a simulation.

use vstd::prelude::*;
use crate::fixed::UNIT;

verus! {

/// The largest value of a speed, field-of-view or size setting, and of the
/// mutation scale: one thousand.
pub const KNOB_MAX: i64 = 1_000_000_000;

/// The largest energy that a configuration may allow a creature: one million.
pub const ENERGY_CAP: i64 = 1_000_000_000_000;

/// The largest number of creatures, and of pieces of food, in one world.
pub const POPULATION_MAX: usize = 1_000_000;

/// The numeric settings of a simulation. All but the three counts are
/// fixed-point numbers.
#[derive(Clone, Copy, Debug)]
pub struct Opts {
    /// The number of creatures that each generation starts with.
    pub creature_count: usize,
    /// The number of pieces of food laid out for each generation.
    pub food_count: usize,
    /// A generation ends once no more creatures than this are alive.
    pub generation_threshold: usize,
    /// The probability that a creature of a new generation mutates.
    pub mutation_probability: i64,
    /// The upper bound of the noise that a mutation adds to each trait.
    pub mutation_scale: i64,
    /// The energy that no creature exceeds.
    pub max_energy: i64,
    /// The energy of every creature when a generation starts.
    pub start_energy: i64,
    /// The speed of a creature whose speed trait is zero.
    pub base_speed: i64,
    /// The speed gained per unit of the speed trait.
    pub speed_factor: i64,
    /// The fraction of its speed at which an unhurried creature moves.
    pub normal_speed: i64,
    /// Held for the caller; no formula reads it.
    pub stamina_factor: i64,
    /// The sight radius of a creature whose field-of-view trait is zero.
    pub base_fov: i64,
    /// The sight radius gained per unit of the field-of-view trait.
    pub fov_factor: i64,
    /// The body radius of a creature whose size trait is zero.
    pub base_size: i64,
    /// The body radius gained per unit of the size trait.
    pub size_factor: i64,
}

impl Opts {
    /// The configuration is well formed: every setting is in the range in
    /// which all of the simulation's arithmetic is defined. The base speed is
    /// positive, so that every creature can move; no creature starts with
    /// more than the maximal energy.
    pub open spec fn wf(self) -> bool {
        &&& self.creature_count <= POPULATION_MAX
        &&& self.food_count <= POPULATION_MAX
        &&& 0 <= self.mutation_probability <= UNIT
        &&& 0 <= self.mutation_scale <= KNOB_MAX
        &&& 0 <= self.start_energy <= self.max_energy <= ENERGY_CAP
        &&& 1 <= self.base_speed <= KNOB_MAX
        &&& 0 <= self.speed_factor <= KNOB_MAX
        &&& 0 <= self.normal_speed <= KNOB_MAX
        &&& 0 <= self.base_fov <= KNOB_MAX
        &&& 0 <= self.fov_factor <= KNOB_MAX
        &&& 0 <= self.base_size <= KNOB_MAX
        &&& 0 <= self.size_factor <= KNOB_MAX
    }

    /// Tells whether the configuration is well formed.
    pub fn is_valid(&self) -> (r: bool)
        ensures
            r == self.wf(),
    {
        self.creature_count <= POPULATION_MAX && self.food_count <= POPULATION_MAX
            && 0 <= self.mutation_probability && self.mutation_probability <= UNIT
            && 0 <= self.mutation_scale && self.mutation_scale <= KNOB_MAX
            && 0 <= self.start_energy && self.start_energy <= self.max_energy
            && self.max_energy <= ENERGY_CAP && 1 <= self.base_speed && self.base_speed
            <= KNOB_MAX && 0 <= self.speed_factor && self.speed_factor <= KNOB_MAX && 0
            <= self.normal_speed && self.normal_speed <= KNOB_MAX && 0 <= self.base_fov
            && self.base_fov <= KNOB_MAX && 0 <= self.fov_factor && self.fov_factor
            <= KNOB_MAX && 0 <= self.base_size && self.base_size <= KNOB_MAX && 0
            <= self.size_factor && self.size_factor <= KNOB_MAX
    }
}

} // verus!
