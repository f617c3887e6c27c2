//! Schedules for open-pit material movement: fleet rules, dig sequences,
//! production buckets, optimisation inputs, models and audits.
#![allow(unused_imports)]

pub mod cancellation;
pub mod ledger;
pub mod listing;
pub mod scalar;
pub mod text;
pub mod optimisation;
pub mod error;
pub mod trucking;
pub mod production;
pub mod periods;
pub mod sequence;
