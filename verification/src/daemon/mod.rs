//! The daemon's control plane: the IPC wire format, its counters, and how
//! a restored record is offered back to the clipboard.

pub mod ipc;
pub mod metrics;
pub mod restore;
