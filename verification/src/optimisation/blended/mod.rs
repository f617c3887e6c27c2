//! Stockpiles whose material blends, so that what leaves them has the grade of
//! the mixture.

pub mod grade;
pub mod input;
pub mod report;
pub mod totals;
pub mod chunks;
pub mod piles;
pub mod bars;
pub mod order;
pub mod replay;
pub mod formulation;
pub mod extraction;
pub mod estimates;
pub mod iterative;
pub mod laws;
pub mod tallies;
pub mod holdings;
pub mod guesses;
pub mod priorities;
pub mod readings;
