//! Reconciles versioned SQL migration files with the history a database
//! keeps of them: what is already recorded is checked for edits, what is
//! missing is applied in name order.

pub mod catalog;
pub mod checksum;
pub mod error;
pub mod guarantees;
pub mod order;
pub mod reconcile;
