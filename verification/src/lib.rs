//! Shared-expense ledger: named groups of members, the expenses they record,
//! and each member's net balance.
//!
//! The library is a state machine over a store of groups. Every operation of
//! [`application::LedgerService`] takes the service by exclusive reference for
//! as long as it reads, changes and writes back a group, so two operations on
//! the same group can never interleave: whoever shares a service between
//! threads has to put it behind a lock and hold that lock across the whole
//! call.

pub mod identifiers;
pub mod clock;
pub mod domain;
pub mod repositories;
pub mod adapters;
pub mod application;
