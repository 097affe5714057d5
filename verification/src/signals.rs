//! Job-control signal delivery to child processes.

use vstd::prelude::*;

verus! {

/// An action to apply to a live child process.
#[derive(Clone, Copy, Debug, PartialEq, Eq, Structural)]
pub enum ProcessAction {
    Pause,
    Resume,
    Kill,
}

/// Relies on `nix::sys::signal::kill`: delivers SIGSTOP, SIGCONT or SIGKILL
/// to the process with the given id, and returns `Ok` exactly when the OS
/// accepted the signal. Nothing more is assumed of the outcome.
#[verifier::external_body]
pub(crate) fn send_signal_raw(pid: i32, action: ProcessAction) -> Result<(), String> {
    let sig = match action {
        ProcessAction::Pause => nix::sys::signal::Signal::SIGSTOP,
        ProcessAction::Resume => nix::sys::signal::Signal::SIGCONT,
        ProcessAction::Kill => nix::sys::signal::Signal::SIGKILL,
    };
    match nix::sys::signal::kill(nix::unistd::Pid::from_raw(pid), sig) {
        Ok(()) => Ok(()),
        Err(e) => Err(format!("{e}")),
    }
}

}
