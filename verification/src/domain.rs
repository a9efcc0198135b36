//! The entities of the ledger and their mathematical views.

pub mod errors;
pub mod members;
pub mod expenses;
pub mod groups;
pub mod balances;
pub mod conservation;
