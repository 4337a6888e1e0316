//! Error types of the supervisor core.

use vstd::prelude::*;

verus! {

/// Errors from operations on the registry or on one record.
#[derive(Clone, Debug)]
pub enum ProcError {
    /// No record with the given id exists.
    NoProcId(String),
    /// The record is still running, so it cannot be removed.
    ProcRunning(String),
    /// The given fd is not configured for the process.
    NoFd(i32),
    /// The process no longer exists in the host process table.
    NoProc,
}

/// Pre-flight errors on a batch of process specifications; these are
/// reported to the caller before anything is started.
#[derive(Clone, Debug)]
pub enum SpecError {
    /// A proc id already in use, in the registry or within the batch.
    DuplicateProcId(String),
    /// An fd name that is neither a standard stream name nor a number.
    InvalidFdName(String),
    /// A duplicated fd refers to an fd that the same spec does not set up.
    UnknownFdRef(String),
    /// Duplicated fds form a cycle.
    FdDupCycle(String),
    /// A specification that does not satisfy its own constraints.
    MalformedSpec(String),
}

} // verus!
