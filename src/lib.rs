//! An in-memory ledger of DVD rentals: creating rentals, marking returns,
//! cancelling, and listing records by customer or by pending status.

pub mod clock;
pub mod rental;
pub mod ledger;
pub mod laws;
