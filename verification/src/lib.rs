//! An evolution playground: simple agents that sense food with a synthetic
//! eye, steer with a small feed-forward neural network, and improve across
//! generations through a genetic algorithm over the network's weight vector.
//!
//! All quantities are fixed-point integers: a value of `1.0` is represented
//! by [`fixed::SCALE`] units, and a full circle by [`fixed::TURN`] angle
//! units, so every arithmetic step has an exact, verifiable meaning.

pub mod brain;
pub mod chromosome;
pub mod config;
pub mod crossover;
pub mod eye;
pub mod fixed;
pub mod ga;
pub mod individual;
pub mod mutation;
pub mod nn;
pub mod rng;
pub mod selection;
pub mod sim;
pub mod trig;
pub mod world;
