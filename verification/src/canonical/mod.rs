//! The store that the daemon works on.

pub mod command_laws;
pub mod guarantees;
pub mod laws;
pub mod receipts;
pub mod repository;
