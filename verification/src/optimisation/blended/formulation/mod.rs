//! The model of a blended optimisation, as columns and rows for a solver.

pub mod base;
pub mod model;
pub mod cells;
pub mod piles;
pub mod chunked;
pub mod rules;
pub mod quality;
pub mod formulate;
pub mod laws;
pub mod working;
pub mod fleet;
pub mod loads;
pub mod stores;
pub mod readiness;
pub mod sources;
