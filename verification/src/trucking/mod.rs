//! The truck fleet: classes of haul truck, the rules that say which of them may
//! serve which movement, and the arithmetic that turns both into truck-hours.
//!
//! A class is a pool of trucks, not a vehicle. Rules say what is permitted:
//! every enabled rule that matches a movement adds its classes, and a movement
//! that no rule matches may be served by none.

pub mod calendar;
pub mod rules;
pub mod fleet;
pub mod permits;
pub mod transport;
pub mod loading;
pub mod laws;
pub mod spans;
pub mod hauls;
pub mod edits;
pub mod faults;
pub mod fingerprints;
