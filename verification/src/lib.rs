//! A toroidal grid of particles that store energy, discharge into their four
//! neighbours once they pass a threshold, and fade back to darkness.

pub mod engine;
pub mod grid;
pub mod particle;
pub mod random;
pub mod reaction;
pub mod topology;
