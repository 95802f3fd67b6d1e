//! Decisions of the Wayland clipboard side: which globals to bind, the
//! monitor's state machine, which offered format to take and how it becomes
//! a storage job, what a paste request is served, and the scanners for the
//! compositor's focused-window replies.

pub mod active_app;
pub mod buffer;
pub mod egress;
pub mod globals;
pub mod selection;
pub mod state;
