//! Choosing what every loader works on over a horizon: the inputs, the models
//! handed to a solver, and the audits of what comes back.

pub mod audit;
pub mod authored;
pub mod blended;
pub mod ids;
pub mod input;
pub mod intervals;
pub mod result;
pub mod sheet;
pub mod parcel;
pub mod points;
pub mod validity;
