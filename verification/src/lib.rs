//! An in-memory key-value store with time-limited entries, spoken to
//! over a line-oriented text protocol.
//!
//! Keys expire in two ways. A command that touches an expired key removes
//! it on the spot (lazy expiry), and a periodic reaper evicts expired keys
//! from a bounded sample of the store (active expiry).
//!
//! The library never reads a clock and never blocks. Every operation takes
//! the current instant as an argument, in nanoseconds on a monotonic clock
//! of the caller's choosing, and works on a store that the caller holds
//! exclusively for the duration of the call. One command, or one reaper
//! cycle, is therefore one atomic step at one instant.

pub mod protocol;
pub mod storage;
pub mod text;

pub use protocol::process_command;
pub use storage::{cleanup_all_expired, run_expiry_cycle, Entry, ExpiryConfig, ExpiryStats, Store};
