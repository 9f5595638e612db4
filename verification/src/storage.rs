//! The store and its expiry machinery.

pub mod db;
pub mod expiry;

pub use db::{Entry, Store};
pub use expiry::{cleanup_all_expired, run_expiry_cycle, ExpiryConfig, ExpiryStats};
