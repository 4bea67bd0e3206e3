//! Genetic programming over a small register-machine language.
//!
//! Programs are flat token sequences that encode a pre-order tree. The crate
//! provides structural navigation over that encoding, a bounded interpreter,
//! random program growth, crossover and mutation that keep programs
//! syntactically valid, and a steady-state evolutionary driver.

pub mod params;
pub mod problem;
pub mod tinygp;
pub mod benchmark;
