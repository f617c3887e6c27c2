//! Dig sequences: the ordered ground a loader works through, and references to
//! ground that outlive a run.
//!
//! A reference names the whole of the ground it was captured from: its sources,
//! its band, its outline and its volume. Only ground that agrees in all of them
//! resolves it; every other answer says what has changed.

pub mod footprint;
pub mod reference;
pub mod order;
pub mod laws;
pub mod cycles;
pub mod winding;
pub mod drawing;
pub mod resolving;
