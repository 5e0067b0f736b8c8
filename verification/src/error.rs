//! Errors the library reports.  Every user-facing error is terminal for the
//! invocation that raised it: nothing is partially applied and nothing
//! retries.

use vstd::prelude::*;

verus! {

/// What went wrong with one invocation.
#[derive(Clone, Copy, Debug, PartialEq, Eq, Structural)]
pub enum Error {
    /// No recognized combination of inputs.
    UnknownCommand,
    /// A message was to be set on a command variant that carries none.
    NoMessage,
    /// More entries were requested than the list holds: requested, then
    /// available.
    ToFewJobs(usize, usize),
    /// A persisted timestamp could not be read.
    DateTimeParse,
}

} // verus!
