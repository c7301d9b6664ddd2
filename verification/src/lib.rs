//! A simulation of evolving creatures in a bounded, wrapping, two-dimensional
//! world.
//!
//! Creatures with four traits (speed, stamina, field of view, size) and a
//! diet look for food, hunt each other and flee from each other, tick by
//! tick. Those that have energy left at the end of a generation breed the
//! next one: parents are drawn in proportion to their energy, children blend
//! the traits of their parents, and some creatures mutate.
//!
//! All of it is computed in exact fixed-point arithmetic. Every quantity that
//! the simulation works with (a trait, an energy, a coordinate, a
//! configuration value) is an integer number of millionths: the real number
//! `1.0` is stored as [`fixed::UNIT`]. Quotients are rounded toward zero, and
//! lengths are rounded up, so that a vector brought to a length is never
//! longer than asked for. The four traits of a creature add up to exactly
//! two at all times.
//!
//! - [`fixed`] and [`vector`]: the arithmetic, points and vectors.
//! - [`opts`]: the configuration.
//! - [`creature`] and [`food`]: what lives and lies in the world.
//! - [`round`]: perception, the turn of one creature, ticks and batches of
//!   ticks.
//! - [`selection`], [`breeding`] and [`mutation`]: from one generation to
//!   the next.
//! - [`stats`]: the statistics of a generation.
//! - [`rng`]: the random draws, which come from a generator of the caller.

pub mod breeding;
pub mod creature;
pub mod fixed;
pub mod food;
pub mod mutation;
pub mod opts;
pub mod rng;
pub mod round;
pub mod selection;
pub mod stats;
pub mod vector;
