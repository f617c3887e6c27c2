//! Holding a published result against the inputs it was made from.

pub mod issue;
pub mod totals;
pub mod walk;
pub mod parcels;
pub mod laws;
pub mod turns;
pub mod limits;
pub mod books;
pub mod inventory;
pub mod receipts;
