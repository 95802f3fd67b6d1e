//! y4p: the rules of a Wayland clipboard manager — what is recorded, how it
//! is stored and rotated, how it is served back, and the strict command
//! line around it — each with its contract.

pub mod base;
pub mod bytes;
pub mod cli;
pub mod daemon;
pub mod num;
pub mod storage;
pub mod text;
pub mod wayland;
