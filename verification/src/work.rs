//! The work that the library leaves to its caller. The library decides what
//! is to be done to the files and over the network, and in which order; the
//! caller does it and says how it went.

use crate::artifact::Artifact;
use crate::cache::Place;
use crate::error::{Error, Failure};
use vstd::prelude::*;

verus! {

/// One thing for the caller to do. Places are places in the cache of the
/// release that is being installed.
#[derive(Debug, Clone, Copy, PartialEq, Eq, Structural)]
pub enum Request {
    /// Create the directory at the place, and those above it, unless they
    /// are there.
    CreateDirectories(Place),
    /// Tell whether anything is at the place.
    Exists(Place),
    /// Create an empty file at the place, in place of what may be there.
    CreateFile(Place),
    /// Fetch the archive of the artifact from its address into the file at
    /// the place, and see that all of it is written.
    Fetch(Artifact, Place),
    /// Unpack the archive at the first place into the directory at the
    /// second. This may take long: it must not hold up what else is going on.
    Extract(Place, Place),
    /// Remove the file at the place.
    RemoveFile(Place),
    /// Remove the directory at the place with all that is in it.
    RemoveDirectories(Place),
    /// Create the directory at the place.
    CreateDirectory(Place),
    /// Begin to read the entries of the directory at the place.
    ReadDirectory(Place),
    /// Read the next entry of the directory at the place.
    NextEntry(Place),
    /// Tell whether the directory at the place holds anything with the name
    /// of the entry that was read last.
    ExistsEntry(Place),
    /// Make the entry that was read last from the directory at the first
    /// place appear under the same name in the directory at the second, as a
    /// hard link.
    LinkEntry(Place, Place),
}

/// How the caller's work went.
#[derive(Debug, Clone, Copy, PartialEq, Eq, Structural)]
pub enum Reply {
    /// It is done.
    Done,
    /// Whether what was asked about is there.
    Found(bool),
    /// An entry was read, and whether it is a regular file.
    Entry(bool),
    /// No entry is left to read.
    End,
    /// It failed.
    Failed(Failure),
}

/// Where an operation stands, as its caller sees it: it asks for work, or it
/// has ended.
#[derive(Debug, PartialEq, Eq, Structural)]
pub enum Step<T> {
    /// The caller is to do this and to come back with its reply.
    Ask(Request),
    /// The operation has ended well, with this.
    Done(T),
    /// The operation has ended with this error.
    Failed(Error),
}

/// Where an operation stands, as it keeps it: in one of its phases, or at
/// its end.
#[derive(Debug, PartialEq, Eq, Structural)]
pub enum Status<P> {
    /// The operation waits for the reply to what this phase asks for.
    Active(P),
    /// The operation has ended well.
    Finished,
    /// The operation has ended with this error.
    Failed(Error),
}

impl Reply {
    /// Whether the reply is one that the request can be answered with. Any
    /// request can fail.
    pub open spec fn answers(self, request: Request) -> bool {
        match self {
            Reply::Failed(_) => true,
            Reply::Found(_) => request is Exists || request is ExistsEntry,
            Reply::Entry(_) | Reply::End => request is NextEntry,
            Reply::Done => !(request is Exists || request is ExistsEntry || request is NextEntry),
        }
    }
}

} // verus!
