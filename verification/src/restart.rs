//! When a supervised actor is restarted, by how its task ended.
use vstd::prelude::*;

verus! {

/// How an actor's task ended.
#[derive(Debug, Clone, Copy, PartialEq, Eq, Structural, Hash)]
pub enum ExitStatus {
    /// It returned normally.
    Normal,
    /// It panicked.
    Panicked,
    /// It was aborted.
    Aborted,
    /// It returned an error that nothing handled.
    UnhandledError,
}

/// Controls when an actor should be restarted.
#[derive(Debug, Clone, Copy, PartialEq, Eq, Structural, Hash)]
pub enum RestartMode {
    /// Always restart, regardless of how the actor exited.
    Always,
    /// Restart only if the actor exited abnormally.
    OnError,
    /// Never restart.
    Never,
}

/// The recipe for an HTTP server actor. It has no settings yet.
#[derive(Debug, Clone, Copy, PartialEq, Eq)]
pub struct ServerBlueprint {}

/// Whether an actor that ended with `exit` is restarted under `mode`.
pub open spec fn restarts(mode: RestartMode, exit: ExitStatus) -> bool {
    match mode {
        RestartMode::Always => true,
        RestartMode::Never => false,
        RestartMode::OnError => exit != ExitStatus::Normal,
    }
}

impl Default for RestartMode {
    /// Restarting on errors only.
    fn default() -> (r: Self)
        ensures
            r == RestartMode::OnError,
    {
        RestartMode::OnError
    }
}

impl RestartMode {
    /// Returns `true` if an actor that exited with `exit` should be restarted
    /// under this mode.
    pub fn should_restart(&self, exit: &ExitStatus) -> (r: bool)
        ensures
            r == restarts(*self, *exit),
    {
        match (self, exit) {
            (RestartMode::Always, _) => true,
            (RestartMode::Never, _) => false,
            (RestartMode::OnError, ExitStatus::Panicked)
            | (RestartMode::OnError, ExitStatus::Aborted)
            | (RestartMode::OnError, ExitStatus::UnhandledError) => true,
            (RestartMode::OnError, ExitStatus::Normal) => false,
        }
    }
}

} // verus!
