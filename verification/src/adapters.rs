//! Stores of groups.

pub mod group_repository;

pub use group_repository::InMemoryGroupRepo;
