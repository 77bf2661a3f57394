//! Why a connection or a timer gave up, in values that carry no handle of
//! the operating system.

use vstd::prelude::*;
use vstd::std_specs::convert::FromSpecImpl;

verus! {

/// The kinds of input/output failure that the engine tells apart.
#[derive(Debug, Clone, Copy, PartialEq, Eq, Structural)]
pub enum IoKind {
    /// A non-blocking operation could not proceed right now.
    WouldBlock,
    /// The operation was interrupted before it did anything.
    Interrupted,
    /// The peer refused the connection.
    ConnectionRefused,
    /// The connection was aborted before it could be used.
    ConnectionAborted,
    /// The peer reset the connection.
    ConnectionReset,
    /// Anything else.
    Other,
}

/// An input/output failure: its kind and what the system said of it.
#[derive(Debug, Clone, PartialEq, Eq)]
pub struct IoFailure {
    pub kind: IoKind,
    pub message: String,
}

/// How a timer can fail.
#[derive(Debug, Clone, Copy, PartialEq, Eq, Structural)]
pub enum TimerFault {
    /// The timer holds as many deadlines as it can.
    AtCapacity,
    /// The timer has gone away.
    Shutdown,
}

/// How an operation under a deadline can fail.
#[derive(Debug, Clone, PartialEq, Eq)]
pub enum DeadlineFault {
    /// The deadline passed first.
    Elapsed,
    /// The operation itself failed.
    Inner(IoFailure),
    /// The timer that kept the deadline failed.
    Timer(TimerFault),
}

/// Why a connection was given up.
#[derive(Debug, Clone, PartialEq, Eq)]
pub enum Error {
    Io(IoFailure),
    Timeout,
    TimerFull,
    TimerShutdown,
}

impl Error {
    /// The words that `description` gives for this error.
    pub open spec fn spec_description(&self) -> Seq<char> {
        match self {
            Error::Io(failure) => failure.message@,
            Error::Timeout => "timed out"@,
            Error::TimerFull => "timer at capacity"@,
            Error::TimerShutdown => "timer shutdown"@,
        }
    }

    /// A short description of the error, fit for a log line.
    pub fn description(&self) -> (text: String)
        ensures
            text@ == self.spec_description(),
    {
        match self {
            Error::Io(failure) => failure.message.clone(),
            Error::Timeout => "timed out".to_owned(),
            Error::TimerFull => "timer at capacity".to_owned(),
            Error::TimerShutdown => "timer shutdown".to_owned(),
        }
    }
}

impl From<IoFailure> for Error {
    fn from(failure: IoFailure) -> (error: Error) {
        Error::Io(failure)
    }
}

impl FromSpecImpl<IoFailure> for Error {
    open spec fn obeys_from_spec() -> bool {
        true
    }

    open spec fn from_spec(failure: IoFailure) -> Error {
        Error::Io(failure)
    }
}

impl From<TimerFault> for Error {
    fn from(fault: TimerFault) -> (error: Error) {
        match fault {
            TimerFault::AtCapacity => Error::TimerFull,
            TimerFault::Shutdown => Error::TimerShutdown,
        }
    }
}

impl FromSpecImpl<TimerFault> for Error {
    open spec fn obeys_from_spec() -> bool {
        true
    }

    open spec fn from_spec(fault: TimerFault) -> Error {
        match fault {
            TimerFault::AtCapacity => Error::TimerFull,
            TimerFault::Shutdown => Error::TimerShutdown,
        }
    }
}

impl From<DeadlineFault> for Error {
    fn from(fault: DeadlineFault) -> (error: Error) {
        match fault {
            DeadlineFault::Elapsed => Error::Timeout,
            DeadlineFault::Inner(failure) => Error::Io(failure),
            DeadlineFault::Timer(TimerFault::AtCapacity) => Error::TimerFull,
            DeadlineFault::Timer(TimerFault::Shutdown) => Error::TimerShutdown,
        }
    }
}

impl FromSpecImpl<DeadlineFault> for Error {
    open spec fn obeys_from_spec() -> bool {
        true
    }

    open spec fn from_spec(fault: DeadlineFault) -> Error {
        match fault {
            DeadlineFault::Elapsed => Error::Timeout,
            DeadlineFault::Inner(failure) => Error::Io(failure),
            DeadlineFault::Timer(TimerFault::AtCapacity) => Error::TimerFull,
            DeadlineFault::Timer(TimerFault::Shutdown) => Error::TimerShutdown,
        }
    }
}

} // verus!
