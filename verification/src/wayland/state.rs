//! The clipboard monitor's own state and the values handed between its
//! threads: offered sources, ingestion jobs, and the bookkeeping that keeps
//! the daemon from re-recording what it restored itself.

use vstd::prelude::*;
use crate::daemon::ipc::Command;

verus! {

/// Where an offered source's bytes are: in memory, or in a cache file.
pub enum SourcePayload {
    Owned(Vec<u8>),
    File(String),
}

/// The record a clipboard source currently offers.
pub struct SourceMetadata {
    pub mime: String,
    pub payload: SourcePayload,
}

/// A finished payload on its way to the storage worker.
pub struct ClipboardJob {
    pub mime: String,
    pub data: Vec<u8>,
    pub hash: String,
}

/// What the monitor does with a selection event.
#[derive(Debug, Clone, Copy, PartialEq, Eq, Structural)]
pub enum SelectionGate {
    /// The echo of a source this daemon set itself: not recorded.
    OwnEcho,
    /// Monitoring is paused: not recorded.
    Paused,
    /// Record it.
    Ingest,
}

/// What the daemon does about a control command.
#[derive(Debug, Clone, Copy, PartialEq, Eq, Structural)]
pub enum CommandEffect {
    /// Leave the event loop.
    Stop,
    /// Put this record back on the clipboard.
    Serve(i64),
    /// Nothing more (a status request has already been answered).
    Nothing,
    /// Monitoring was paused.
    NowPaused,
    /// Monitoring was resumed.
    NowResumed,
}

/// The monitor's bookkeeping: sources it set whose selection echo is still
/// due, whether monitoring is paused, and whether any selection arrived.
#[derive(Debug, Clone, Copy, PartialEq, Eq, Structural)]
pub struct MonitorState {
    pub provider_locks: u32,
    pub paused: bool,
    pub selection_received: bool,
}

/// A selection event: the echo of an own source uses up one lock;
/// otherwise it is dropped while paused, and recorded when not.
pub open spec fn selection_step(s: MonitorState) -> (MonitorState, SelectionGate) {
    let s1 = MonitorState { selection_received: true, ..s };
    if s.provider_locks > 0 {
        (MonitorState { provider_locks: (s.provider_locks - 1) as u32, ..s1 }, SelectionGate::OwnEcho)
    } else if s.paused {
        (s1, SelectionGate::Paused)
    } else {
        (s1, SelectionGate::Ingest)
    }
}

/// Setting a source of our own: its echo is expected.
pub open spec fn source_step(s: MonitorState) -> MonitorState {
    MonitorState { provider_locks: (s.provider_locks + 1) as u32, ..s }
}

pub open spec fn command_step(s: MonitorState, cmd: Command) -> (MonitorState, CommandEffect) {
    match cmd {
        Command::Exit => (s, CommandEffect::Stop),
        Command::Restore(id) => (s, CommandEffect::Serve(id)),
        Command::Status => (s, CommandEffect::Nothing),
        Command::Pause => (MonitorState { paused: true, ..s }, CommandEffect::NowPaused),
        Command::Resume => (MonitorState { paused: false, ..s }, CommandEffect::NowResumed),
    }
}

impl MonitorState {
    pub fn new() -> (r: Self)
        ensures
            r.provider_locks == 0,
            !r.paused,
            !r.selection_received,
    {
        MonitorState { provider_locks: 0, paused: false, selection_received: false }
    }

    /// Decides about a selection event and updates the bookkeeping.
    pub fn on_selection(&mut self) -> (r: SelectionGate)
        ensures
            (*final(self), r) == selection_step(*old(self)),
    {
        self.selection_received = true;
        if self.provider_locks > 0 {
            self.provider_locks = self.provider_locks - 1;
            return SelectionGate::OwnEcho;
        }
        if self.paused {
            SelectionGate::Paused
        } else {
            SelectionGate::Ingest
        }
    }

    /// Notes that this daemon just set a clipboard source of its own.
    pub fn on_source_set(&mut self)
        requires
            old(self).provider_locks < u32::MAX,
        ensures
            *final(self) == source_step(*old(self)),
    {
        self.provider_locks = self.provider_locks + 1;
    }

    /// Applies a control command.
    pub fn on_command(&mut self, cmd: Command) -> (r: CommandEffect)
        ensures
            (*final(self), r) == command_step(*old(self), cmd),
    {
        match cmd {
            Command::Exit => CommandEffect::Stop,
            Command::Restore(id) => CommandEffect::Serve(id),
            Command::Status => CommandEffect::Nothing,
            Command::Pause => {
                self.paused = true;
                CommandEffect::NowPaused
            },
            Command::Resume => {
                self.paused = false;
                CommandEffect::NowResumed
            },
        }
    }
}

/// A record the daemon restores is not recorded again: the selection echo
/// of its own source is recognised, and the bookkeeping returns to where
/// it was (the selection having been seen).
pub proof fn law_own_restore_not_reingested(s: MonitorState)
    requires
        s.provider_locks < u32::MAX,
    ensures
        selection_step(source_step(s)).1 == SelectionGate::OwnEcho,
        selection_step(source_step(s)).0 == (MonitorState { selection_received: true, ..s }),
{
}

/// While paused, and with no own echo pending, every selection is dropped
/// and monitoring stays paused.
pub proof fn law_paused_records_nothing(s: MonitorState)
    requires
        s.paused,
        s.provider_locks == 0,
    ensures
        selection_step(s).1 == SelectionGate::Paused,
        selection_step(s).0.paused,
{
}

/// Pausing and then resuming leaves monitoring active, with nothing else
/// changed; no other command touches the paused flag.
pub proof fn law_pause_then_resume(s: MonitorState, cmd: Command)
    ensures
        command_step(command_step(s, Command::Pause).0, Command::Resume).0 == (MonitorState { paused: false, ..s }),
        (cmd != Command::Pause && cmd != Command::Resume) ==> command_step(s, cmd).0 == s,
{
}

} // verus!
