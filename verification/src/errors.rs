//! The error taxonomy of the library.

use vstd::prelude::*;

verus! {

/// Everything that can go wrong in the scheduling core or in the control
/// commands built on it.
#[derive(Clone, Copy, Debug, PartialEq, Eq, Structural)]
pub enum DaemonError {
    /// The interval (or mode) string does not match the accepted grammar,
    /// or its value is too large to represent.
    Format,
    /// The interval string parsed, but both components are zero.
    ZeroDuration,
    /// The daemon is already running, so it cannot be started again.
    AlreadyRunning,
    /// No daemon is running, so there is nothing to control.
    NotRunning,
    /// The persisted state record exists but cannot be parsed.
    CorruptState,
}

impl DaemonError {
    /// A one-line human-readable description, for the control commands to print.
    pub fn message(&self) -> (r: &'static str)
        ensures
            *self == DaemonError::Format ==> r@ == "Invalid interval format. Use: 1h, 30m, 1h30m, 90m"@,
            *self == DaemonError::ZeroDuration ==> r@ == "Interval must be greater than 0"@,
            *self == DaemonError::AlreadyRunning ==> r@ == "Daemon is already running"@,
            *self == DaemonError::NotRunning ==> r@ == "No daemon is running"@,
            *self == DaemonError::CorruptState ==> r@ == "State file is corrupt"@,
    {
        match self {
            DaemonError::Format => "Invalid interval format. Use: 1h, 30m, 1h30m, 90m",
            DaemonError::ZeroDuration => "Interval must be greater than 0",
            DaemonError::AlreadyRunning => "Daemon is already running",
            DaemonError::NotRunning => "No daemon is running",
            DaemonError::CorruptState => "State file is corrupt",
        }
    }
}

} // verus!
