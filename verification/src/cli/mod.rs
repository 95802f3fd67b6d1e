//! Command-line front end: strict argument parsing, range and target
//! resolution, and display formatting.

pub mod commands;
pub mod formatter;
pub mod list;
pub mod search;
pub mod show;
pub mod utils;
