//! The line protocol: numbers, commands and their responses.

pub mod command;
pub mod guarantees;
pub mod number;

pub use command::process_command;
