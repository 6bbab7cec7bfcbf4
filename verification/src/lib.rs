//! A demonstration genetic-algorithm engine that evolves a population of
//! fixed-length character genomes toward a known target string, using
//! fitness-proportional selection over an expanded index pool, uniform
//! crossover, and per-gene mutation.

pub mod config;
pub mod fitness;
pub mod genome;
pub mod population;
pub mod reproducer;
pub mod rng;
pub mod selector;
