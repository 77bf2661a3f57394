//! What to do about the events that are not writes: signals and failed
//! accepts. Also the settings of a listening socket and the status with which
//! the process ends.

use vstd::prelude::*;
use crate::error::IoKind;

verus! {

/// Connection attempts that may wait for a free place, per listener.
pub const LISTEN_BACKLOG: u32 = 1024;

/// The receive buffer of a listening socket, in bytes: as small as it gets.
pub const RECV_BUFFER_SIZE: u32 = 1;

/// The send buffer of a listening socket, in bytes.
pub const SEND_BUFFER_SIZE: u32 = 32;

/// How long accepting pauses after an accept has failed, in milliseconds.
pub const ACCEPT_BACKOFF_MILLIS: u64 = 100;

/// The signals that the tarpit answers.
#[derive(Debug, Clone, Copy, PartialEq, Eq, Structural)]
pub enum Signal {
    Info,
    Hangup,
    Terminate,
    Interrupt,
}

/// What a signal asks for.
#[derive(Debug, Clone, Copy, PartialEq, Eq, Structural)]
pub enum SignalAction {
    /// Report the counters and go on.
    Report,
    /// Report the counters and stop.
    Shutdown,
}

/// What to do after an accept has failed.
#[derive(Debug, Clone, Copy, PartialEq, Eq, Structural)]
pub enum AcceptAction {
    /// The peer was gone already: go on at once.
    Ignore,
    /// Pause for this many milliseconds before accepting again.
    Backoff(u64),
}

impl Signal {
    /// What the signal asks for: an info or hangup signal asks for a
    /// report, every other signal for the end.
    pub open spec fn action(self) -> SignalAction {
        match self {
            Signal::Info | Signal::Hangup => SignalAction::Report,
            Signal::Terminate | Signal::Interrupt => SignalAction::Shutdown,
        }
    }

    /// The short name of the signal.
    pub open spec fn spec_name(self) -> Seq<char> {
        match self {
            Signal::Info => "INFO"@,
            Signal::Hangup => "HUP"@,
            Signal::Terminate => "TERM"@,
            Signal::Interrupt => "INT"@,
        }
    }

    /// The short name of the signal, as it is logged.
    pub fn name(self) -> (name: &'static str)
        ensures
            name@ == self.spec_name(),
    {
        match self {
            Signal::Info => "INFO",
            Signal::Hangup => "HUP",
            Signal::Terminate => "TERM",
            Signal::Interrupt => "INT",
        }
    }
}

impl SignalAction {
    /// The word under which the action is logged.
    pub open spec fn spec_label(self) -> Seq<char> {
        match self {
            SignalAction::Report => "info"@,
            SignalAction::Shutdown => "shutdown"@,
        }
    }

    /// The word under which the action is logged.
    pub fn label(self) -> (label: &'static str)
        ensures
            label@ == self.spec_label(),
    {
        match self {
            SignalAction::Report => "info",
            SignalAction::Shutdown => "shutdown",
        }
    }

    /// Whether the event loop goes on after the action.
    pub fn keeps_running(self) -> (on: bool)
        ensures
            on == (self == SignalAction::Report),
    {
        match self {
            SignalAction::Report => true,
            SignalAction::Shutdown => false,
        }
    }
}

/// What to do about a signal.
pub fn on_signal(signal: Signal) -> (action: SignalAction)
    ensures
        action == signal.action(),
{
    match signal {
        Signal::Info | Signal::Hangup => SignalAction::Report,
        Signal::Terminate | Signal::Interrupt => SignalAction::Shutdown,
    }
}

/// What to do after an accept has failed with an error of `kind`: nothing
/// when the peer had gone already, a short pause otherwise.
pub open spec fn accept_action(kind: IoKind) -> AcceptAction {
    match kind {
        IoKind::ConnectionRefused | IoKind::ConnectionAborted | IoKind::ConnectionReset =>
            AcceptAction::Ignore,
        _ => AcceptAction::Backoff(100),
    }
}

/// What to do after an accept has failed with an error of `kind`.
pub fn on_accept_error(kind: IoKind) -> (action: AcceptAction)
    ensures
        action == accept_action(kind),
{
    match kind {
        IoKind::ConnectionRefused | IoKind::ConnectionAborted | IoKind::ConnectionReset =>
            AcceptAction::Ignore,
        _ => AcceptAction::Backoff(ACCEPT_BACKOFF_MILLIS),
    }
}

/// Why the process ends.
#[derive(Debug, Clone, Copy, PartialEq, Eq, Structural)]
pub enum Ending {
    /// A signal asked for the end.
    Clean,
    /// The command line was wrong.
    Usage,
    /// The operating system refused something that was needed: an address
    /// to listen on, or the drop of privileges.
    System,
    /// The event loop or its timers could not be had.
    Unavailable,
}

impl Ending {
    /// The exit status of the process for this ending: zero for a clean
    /// one, and a status of its own for each kind of failure.
    pub open spec fn spec_exit_status(self) -> int {
        match self {
            Ending::Clean => 0,
            Ending::Usage => 64,
            Ending::System => 71,
            Ending::Unavailable => 69,
        }
    }

    /// The exit status of the process for this ending.
    pub fn exit_status(self) -> (code: i32)
        ensures
            code == self.spec_exit_status(),
    {
        match self {
            Ending::Clean => status_ok(),
            Ending::Usage => status_usage(),
            Ending::System => status_os_error(),
            Ending::Unavailable => status_unavailable(),
        }
    }
}

/// Gives the constant `exitcode::OK`, the status of a successful exit. It
/// is taken on trust that the constant is 0.
#[verifier::external_body]
fn status_ok() -> (code: i32)
    ensures
        code == 0,
{
    exitcode::OK
}

/// Gives the constant `exitcode::USAGE`, the status for a command that was
/// used incorrectly. It is taken on trust that the constant is 64.
#[verifier::external_body]
fn status_usage() -> (code: i32)
    ensures
        code == 64,
{
    exitcode::USAGE
}

/// Gives the constant `exitcode::OSERR`, the status for an error of the
/// operating system. It is taken on trust that the constant is 71.
#[verifier::external_body]
fn status_os_error() -> (code: i32)
    ensures
        code == 71,
{
    exitcode::OSERR
}

/// Gives the constant `exitcode::UNAVAILABLE`, the status for a service
/// that is not to be had. It is taken on trust that the constant is 69.
#[verifier::external_body]
fn status_unavailable() -> (code: i32)
    ensures
        code == 69,
{
    exitcode::UNAVAILABLE
}

} // verus!
