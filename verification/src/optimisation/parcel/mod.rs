//! Stockpiles that keep what they receive apart, parcel by parcel.

pub mod base;
pub mod columns;
pub mod lists;
pub mod reclaims;
pub mod declare;
pub mod select;
pub mod ground;
pub mod tasks;
pub mod positions;
pub mod piles;
pub mod limits;
pub mod budget;
pub mod publish;
pub mod costs;
pub mod solve;
pub mod export;
pub mod laws;
pub mod keeping;
pub mod amounts;
pub mod workings;
pub mod counts;
pub mod stores;
pub mod worth;
