//! Publishing what a solved parcel model says: numbers that a solver leaves a
//! little off are moved to where they add up.

pub mod receipts;
pub mod rows;
pub mod balances;
pub mod outcome;
pub mod totals;
