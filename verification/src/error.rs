//! The ways a run can fail.

use vstd::prelude::*;

verus! {

/// Why a gate, a worker or a whole run gave up. Every one of them is fatal:
/// nothing is retried and no partial output counts as a result.
#[derive(Clone, Copy, Debug, PartialEq, Eq, Structural)]
pub enum PipelineError {
    /// A chunk size of zero was asked for; no read could ever come up short.
    ZeroChunkSize,
    /// No worker was asked for, or none came back; nobody could have read the
    /// input.
    NoWorkers,
    /// A turn was completed by a slot that does not own it, or on a gate that
    /// is already exhausted.
    NotAdmitted,
    /// The turn counter cannot be advanced any further.
    TurnOverflow,
    /// The write gate was exhausted while a worker still held a chunk for it.
    ClosedEarly,
    /// The input could not be read.
    SourceFailed,
    /// The encoder refused a payload or could not be finished.
    SinkFailed,
    /// The output was asked for before every worker was done.
    Incomplete,
    /// A worker ended without saying how.
    WorkerLost,
}

} // verus!
