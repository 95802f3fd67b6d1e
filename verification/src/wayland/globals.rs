//! Which compositor globals the client binds: the data-control manager and
//! the first seat, each re-bound when the compositor announces it again
//! after removing it.

use vstd::prelude::*;
use crate::base::constants::{INTERFACE_MANAGER, INTERFACE_SEAT};
use crate::text::str_eq;

verus! {

/// Highest interface versions this client speaks.
pub const MANAGER_VERSION: u32 = 1;
pub const SEAT_VERSION: u32 = 7;

/// What to do with an announced global.
#[derive(Debug, Clone, Copy, PartialEq, Eq, Structural)]
pub enum GlobalBinding {
    /// Bind the data-control manager at this version.
    Manager(u32),
    /// Bind the seat at this version.
    Seat(u32),
    Ignore,
}

/// The registry names of the globals currently bound.
#[derive(Debug, Clone, Copy, PartialEq, Eq, Structural)]
pub struct Globals {
    pub manager_id: Option<u32>,
    pub seat_id: Option<u32>,
}

pub open spec fn min_u32(a: u32, b: u32) -> u32 {
    if a < b {
        a
    } else {
        b
    }
}

/// An announcement: the manager is always (re)bound; a seat only while none
/// is bound.
pub open spec fn global_step(g: Globals, name: u32, interface: Seq<char>, version: u32) -> (Globals, GlobalBinding) {
    if interface == INTERFACE_MANAGER@ {
        (Globals { manager_id: Some(name), ..g }, GlobalBinding::Manager(min_u32(version, MANAGER_VERSION)))
    } else if interface == INTERFACE_SEAT@ && g.seat_id is None {
        (Globals { seat_id: Some(name), ..g }, GlobalBinding::Seat(min_u32(version, SEAT_VERSION)))
    } else {
        (g, GlobalBinding::Ignore)
    }
}

/// A removal: a bound global that goes away is forgotten, and the data
/// device bound through it must be dropped.
pub open spec fn remove_step(g: Globals, name: u32) -> (Globals, bool) {
    let m = g.manager_id == Some(name);
    let s = g.seat_id == Some(name);
    (
        Globals {
            manager_id: if m { None } else { g.manager_id },
            seat_id: if s { None } else { g.seat_id },
        },
        m || s,
    )
}

impl Globals {
    pub fn new() -> (r: Self)
        ensures
            r.manager_id is None,
            r.seat_id is None,
    {
        Globals { manager_id: None, seat_id: None }
    }

    pub fn on_global(&mut self, name: u32, interface: &str, version: u32) -> (r: GlobalBinding)
        ensures
            (*final(self), r) == global_step(*old(self), name, interface@, version),
    {
        if str_eq(interface, INTERFACE_MANAGER) {
            self.manager_id = Some(name);
            GlobalBinding::Manager(if version < MANAGER_VERSION { version } else { MANAGER_VERSION })
        } else if str_eq(interface, INTERFACE_SEAT) && self.seat_id.is_none() {
            self.seat_id = Some(name);
            GlobalBinding::Seat(if version < SEAT_VERSION { version } else { SEAT_VERSION })
        } else {
            GlobalBinding::Ignore
        }
    }

    /// Whether the data device has to be dropped.
    pub fn on_global_remove(&mut self, name: u32) -> (r: bool)
        ensures
            (*final(self), r) == remove_step(*old(self), name),
    {
        let m = self.manager_id == Some(name);
        let s = self.seat_id == Some(name);
        if m {
            self.manager_id = None;
        }
        if s {
            self.seat_id = None;
        }
        m || s
    }
}

/// A seat that goes away and comes back (under any registry name) is bound
/// again, and its removal drops the data device: the daemon heals after a
/// seat hot-unplug.
pub proof fn law_seat_rebound_after_removal(g: Globals, name: u32, new_name: u32, version: u32)
    requires
        g.seat_id == Some(name),
    ensures
        remove_step(g, name).1,
        global_step(remove_step(g, name).0, new_name, INTERFACE_SEAT@, version).1 == GlobalBinding::Seat(
            min_u32(version, SEAT_VERSION),
        ),
{
    reveal_strlit("wl_seat");
    reveal_strlit("ext_data_control_manager_v1");
    assert(INTERFACE_SEAT@.len() != INTERFACE_MANAGER@.len());
}

} // verus!
