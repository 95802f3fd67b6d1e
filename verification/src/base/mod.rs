//! Shared plumbing: constants, byte/MIME utilities, the configuration file
//! parser, and the locations derived from the environment.

pub mod config;
pub mod constants;
pub mod paths;
pub mod utils;
