//! How operations fail.

use crate::release::ParseError;
use vstd::prelude::*;
use vstd::std_specs::convert::FromSpecImpl;

verus! {

/// What went wrong outside the library while it waited for an answer.
#[derive(Debug, Clone, Copy, PartialEq, Eq, Structural)]
pub enum Failure {
    /// The file system refused an operation.
    Filesystem,
    /// The network failed, or a server answered with an error status.
    Transport,
    /// An archive could not be read or unpacked.
    Archive,
    /// The task that unpacked an archive did not run to its end.
    Task,
}

/// The two kinds of error that an operation can end with. None is retried:
/// the caller decides whether to start the operation again.
#[derive(Debug, Clone, Copy, PartialEq, Eq, Structural)]
pub enum Error {
    /// Something failed on this machine: the file system, an archive, a task,
    /// the server program, or the text that names a release.
    IOFailed,
    /// A request over the network failed.
    RequestFailed,
}

impl Error {
    /// The kind of error that a failure is: a failed request for what the
    /// network did, a local error for everything else.
    pub open spec fn of(failure: Failure) -> Error {
        match failure {
            Failure::Transport => Error::RequestFailed,
            Failure::Filesystem | Failure::Archive | Failure::Task => Error::IOFailed,
        }
    }
}

impl From<Failure> for Error {
    /// The kind of error that a failure is.
    fn from(failure: Failure) -> (error: Error) {
        match failure {
            Failure::Transport => Error::RequestFailed,
            Failure::Filesystem | Failure::Archive | Failure::Task => Error::IOFailed,
        }
    }
}

impl FromSpecImpl<Failure> for Error {
    open spec fn obeys_from_spec() -> bool {
        true
    }

    open spec fn from_spec(failure: Failure) -> Error {
        Error::of(failure)
    }
}

impl From<ParseError> for Error {
    /// A text that names no release is a local error, never a failed request.
    fn from(cause: ParseError) -> (error: Error) {
        Error::IOFailed
    }
}

impl FromSpecImpl<ParseError> for Error {
    open spec fn obeys_from_spec() -> bool {
        true
    }

    open spec fn from_spec(cause: ParseError) -> Error {
        Error::IOFailed
    }
}

} // verus!
