//! The worker: one slot's loop of reading a chunk, preparing it and writing
//! it, as a machine that is moved one attempt at a time.
//!
//! An attempt never waits. Where a gate answers `Wait` the attempt changes
//! nothing and reports `Idle`; whoever drives the worker decides when to try
//! again.

use vstd::prelude::*;
use crate::codec::feed_accepted;
use crate::error::PipelineError;
use crate::gate::Admission;
use crate::gate::GateState;
use crate::gate::TurnGate;
use crate::sink::ChunkSink;
use crate::source::ChunkSource;
use crate::source::SourceState;

verus! {

/// Where a worker stands in its loop.
#[derive(Clone, Copy, Debug, PartialEq, Eq, Structural)]
pub enum Phase {
    /// It wants a read turn.
    Reading,
    /// It holds a chunk that it has read and prepares it for the sink. No
    /// gate is involved.
    Transforming,
    /// It holds a prepared chunk and wants a write turn.
    Writing,
    /// It has left its loop for good.
    Done,
}

/// What one attempt achieved.
#[derive(Clone, Copy, Debug, PartialEq, Eq, Structural)]
pub enum Progress {
    /// The worker moved on to another phase.
    Advanced,
    /// Nothing changed: the worker has to wait for its turn, or is done.
    Idle,
}

/// What a worker is, mathematically.
pub struct WorkerState {
    /// The slot of the worker, fixed for its lifetime.
    pub slot: nat,
    /// Where it stands in its loop.
    pub phase: Phase,
    /// The chunk it holds, if it holds one.
    pub chunk: Seq<u8>,
    /// Whether the chunk it read last was short, and so the final one.
    pub last: bool,
    /// The number of the read turn in which it got the chunk it holds.
    pub ticket: nat,
}

/// A read attempt and what it leaves behind.
pub struct ReadAttempt {
    pub worker: WorkerState,
    pub gate: GateState,
    pub source: SourceState,
    pub outcome: Result<Progress, PipelineError>,
}

/// A write attempt and what it leaves behind if the sink takes the chunk.
pub struct WriteAttempt {
    pub worker: WorkerState,
    pub gate: GateState,
    pub sink: Seq<Seq<u8>>,
    pub outcome: Result<Progress, PipelineError>,
}

/// Whether a read of `length` bytes came up short of a full chunk, which
/// marks the end of the input.
pub open spec fn is_short(length: nat, chunk_size: nat) -> bool {
    length < chunk_size
}

impl WorkerState {
    /// A worker before its first attempt.
    pub open spec fn fresh(slot: nat) -> WorkerState {
        WorkerState { slot, phase: Phase::Reading, chunk: Seq::empty(), last: false, ticket: 0 }
    }

    /// Whether the worker holds a chunk that is not yet in the sink.
    pub open spec fn holding(self) -> bool {
        self.phase == Phase::Transforming || self.phase == Phase::Writing
    }

    /// The worker after it has left its loop.
    pub open spec fn retired(self) -> WorkerState {
        WorkerState { phase: Phase::Done, ..self }
    }

    /// The worker after it has taken `chunk`, read in turn `ticket`.
    pub open spec fn loaded(self, chunk: Seq<u8>, last: bool, ticket: nat) -> WorkerState {
        WorkerState { slot: self.slot, phase: Phase::Transforming, chunk, last, ticket }
    }

    /// The worker after it has prepared its chunk. The payload is the chunk
    /// as it was read: compressing it is left to the sink's encoder.
    pub open spec fn prepared(self) -> WorkerState {
        WorkerState { phase: Phase::Writing, ..self }
    }

    /// The worker after its chunk went into the sink: back to reading, or
    /// done if the chunk was the final one.
    pub open spec fn unloaded(self) -> WorkerState {
        WorkerState {
            phase: if self.last {
                Phase::Done
            } else {
                Phase::Reading
            },
            chunk: Seq::empty(),
            ..self
        }
    }

    /// Why the worker cannot take a chunk under `gate`, if it cannot.
    pub open spec fn accept_refusal(self, gate: GateState) -> Option<PipelineError> {
        if self.phase != Phase::Reading {
            Some(PipelineError::NotAdmitted)
        } else {
            gate.refusal(self.slot)
        }
    }

    /// What a worker that wants to read is told by `gate`: `Granted` to read
    /// now, `Wait` to come back later, `Exhausted` to leave its loop. A worker
    /// that is not reading has nothing to read now. A slot that `gate` does
    /// not know is refused, and so is a turn whose number cannot be followed
    /// by another.
    pub open spec fn read_cue(self, gate: GateState) -> Result<Admission, PipelineError> {
        if self.phase != Phase::Reading {
            Ok(Admission::Wait)
        } else if self.slot >= gate.slots {
            Err(PipelineError::NotAdmitted)
        } else if gate.admission(self.slot) == Admission::Granted && gate.turn >= usize::MAX {
            Err(PipelineError::TurnOverflow)
        } else {
            Ok(gate.admission(self.slot))
        }
    }

    /// One read attempt against a gate and the source that it guards.
    pub open spec fn read_attempt(self, gate: GateState, source: SourceState) -> ReadAttempt {
        let unchanged = ReadAttempt { worker: self, gate, source, outcome: Ok(Progress::Idle) };
        if self.phase != Phase::Reading {
            unchanged
        } else if self.slot >= gate.slots {
            ReadAttempt { outcome: Err(PipelineError::NotAdmitted), ..unchanged }
        } else {
            match gate.admission(self.slot) {
                Admission::Exhausted => ReadAttempt {
                    worker: self.retired(),
                    outcome: Ok(Progress::Advanced),
                    ..unchanged
                },
                Admission::Wait => unchanged,
                Admission::Granted => if gate.turn >= usize::MAX {
                    ReadAttempt { outcome: Err(PipelineError::TurnOverflow), ..unchanged }
                } else {
                    let chunk = source.next_chunk();
                    let last = is_short(chunk.len(), source.chunk_size);
                    ReadAttempt {
                        worker: self.loaded(chunk, last, gate.turn),
                        gate: gate.advanced(last),
                        source: source.advanced(),
                        outcome: Ok(Progress::Advanced),
                    }
                },
            }
        }
    }

    /// Whether a write attempt under `gate` gets as far as handing the chunk
    /// to the sink.
    pub open spec fn reaches_sink(self, gate: GateState) -> bool {
        &&& self.phase == Phase::Writing
        &&& self.slot < gate.slots
        &&& gate.admission(self.slot) == Admission::Granted
        &&& gate.turn < usize::MAX
    }

    /// One write attempt against a gate and the sink that it guards, for a
    /// sink that takes what it is handed.
    pub open spec fn write_attempt(self, gate: GateState, sink: Seq<Seq<u8>>) -> WriteAttempt {
        let unchanged = WriteAttempt { worker: self, gate, sink, outcome: Ok(Progress::Idle) };
        if self.phase != Phase::Writing {
            unchanged
        } else if self.slot >= gate.slots {
            WriteAttempt { outcome: Err(PipelineError::NotAdmitted), ..unchanged }
        } else {
            match gate.admission(self.slot) {
                Admission::Exhausted => WriteAttempt {
                    outcome: Err(PipelineError::ClosedEarly),
                    ..unchanged
                },
                Admission::Wait => unchanged,
                Admission::Granted => if gate.turn >= usize::MAX {
                    WriteAttempt { outcome: Err(PipelineError::TurnOverflow), ..unchanged }
                } else {
                    WriteAttempt {
                        worker: self.unloaded(),
                        gate: gate.advanced(self.last),
                        sink: sink.push(self.chunk),
                        outcome: Ok(Progress::Advanced),
                    }
                },
            }
        }
    }
}

/// One slot's worker.
pub struct Worker {
    slot: usize,
    phase: Phase,
    chunk: Vec<u8>,
    last: bool,
    ticket: Ghost<nat>,
}

impl View for Worker {
    type V = WorkerState;

    closed spec fn view(&self) -> WorkerState {
        WorkerState {
            slot: self.slot as nat,
            phase: self.phase,
            chunk: self.chunk@,
            last: self.last,
            ticket: self.ticket@,
        }
    }
}

impl Worker {
    /// A worker for `slot`, about to ask for its first read turn.
    pub fn new(slot: usize) -> (worker: Worker)
        ensures
            worker@ == WorkerState::fresh(slot as nat),
    {
        Worker { slot, phase: Phase::Reading, chunk: Vec::new(), last: false, ticket: Ghost(0) }
    }

    /// The slot of the worker.
    pub fn slot(&self) -> (slot: usize)
        ensures
            slot == self@.slot,
    {
        self.slot
    }

    /// Where the worker stands in its loop.
    pub fn phase(&self) -> (phase: Phase)
        ensures
            phase == self@.phase,
    {
        self.phase
    }

    /// Whether the worker has left its loop.
    pub fn is_done(&self) -> (done: bool)
        ensures
            done == (self@.phase == Phase::Done),
    {
        self.phase == Phase::Done
    }

    /// Whether the chunk that the worker read last was the final one.
    pub fn read_last(&self) -> (last: bool)
        ensures
            last == self@.last,
    {
        self.last
    }

    /// The worker leaves its loop, whatever it holds.
    pub fn retire(&mut self)
        ensures
            final(self)@ == old(self)@.retired(),
    {
        self.phase = Phase::Done;
    }

    /// Asks `gate` for a read turn. On `Granted` the caller reads the next
    /// chunk for this worker and hands it in with `accept_chunk`, all while
    /// it holds `gate`. On `Exhausted` the worker has left its loop. On `Wait`
    /// nothing has changed.
    pub fn begin_read(&mut self, gate: &TurnGate) -> (outcome: Result<Admission, PipelineError>)
        ensures
            outcome == old(self)@.read_cue(gate@),
            final(self)@ == if outcome == Ok::<Admission, PipelineError>(Admission::Exhausted) {
                old(self)@.retired()
            } else {
                old(self)@
            },
    {
        if self.phase != Phase::Reading {
            return Ok(Admission::Wait);
        }
        if self.slot >= gate.slots() {
            return Err(PipelineError::NotAdmitted);
        }
        match gate.request_turn(self.slot) {
            Admission::Exhausted => {
                self.retire();
                Ok(Admission::Exhausted)
            },
            Admission::Wait => Ok(Admission::Wait),
            Admission::Granted => {
                if gate.turn() == usize::MAX {
                    Err(PipelineError::TurnOverflow)
                } else {
                    Ok(Admission::Granted)
                }
            },
        }
    }

    /// Takes a chunk that was read for this worker in the turn that `gate`
    /// has granted it, and completes that turn. A chunk shorter than
    /// `chunk_size` is the final one and exhausts this gate. A worker that is
    /// not reading, or that this gate has not granted the turn, is refused,
    /// and nothing changes.
    pub fn accept_chunk(&mut self, gate: &mut TurnGate, chunk: Vec<u8>, chunk_size: usize) -> (outcome: Result<(), PipelineError>)
        ensures
            match outcome {
                Ok(_) => old(self)@.accept_refusal(old(gate)@) is None
                    && final(gate)@ == old(gate)@.advanced(is_short(chunk@.len(), chunk_size as nat))
                    && final(self)@ == old(self)@.loaded(
                        chunk@,
                        is_short(chunk@.len(), chunk_size as nat),
                        old(gate)@.turn,
                    ),
                Err(error) => old(self)@.accept_refusal(old(gate)@) == Some(error)
                    && final(gate)@ == old(gate)@
                    && final(self)@ == old(self)@,
            },
    {
        if self.phase != Phase::Reading {
            return Err(PipelineError::NotAdmitted);
        }
        let last = chunk.len() < chunk_size;
        match gate.complete_turn(self.slot, last) {
            Ok(ticket) => {
                self.phase = Phase::Transforming;
                self.chunk = chunk;
                self.last = last;
                self.ticket = Ghost(ticket as nat);
                Ok(())
            },
            Err(error) => Err(error),
        }
    }

    /// One read attempt: asks `gate` for a turn and, if it is granted, reads
    /// the next chunk from `source` and completes the turn.
    pub fn read_step(&mut self, gate: &mut TurnGate, source: &mut ChunkSource) -> (outcome: Result<Progress, PipelineError>)
        requires
            old(source)@.wf(),
        ensures
            outcome == old(self)@.read_attempt(old(gate)@, old(source)@).outcome,
            final(self)@ == old(self)@.read_attempt(old(gate)@, old(source)@).worker,
            final(gate)@ == old(self)@.read_attempt(old(gate)@, old(source)@).gate,
            final(source)@ == old(self)@.read_attempt(old(gate)@, old(source)@).source,
            final(source)@.wf(),
    {
        match self.begin_read(gate) {
            Ok(Admission::Exhausted) => Ok(Progress::Advanced),
            Ok(Admission::Wait) => Ok(Progress::Idle),
            Ok(Admission::Granted) => {
                let chunk = source.read_chunk();
                match self.accept_chunk(gate, chunk, source.chunk_size()) {
                    Ok(_) => Ok(Progress::Advanced),
                    Err(error) => Err(error),
                }
            },
            Err(error) => Err(error),
        }
    }

    /// One step of preparing the chunk: a worker that is transforming moves
    /// on to writing.
    pub fn transform_step(&mut self) -> (progress: Progress)
        ensures
            old(self)@.phase == Phase::Transforming ==> progress == Progress::Advanced && final(self)@
                == old(self)@.prepared(),
            old(self)@.phase != Phase::Transforming ==> progress == Progress::Idle && final(self)@
                == old(self)@,
    {
        if self.phase == Phase::Transforming {
            self.phase = Phase::Writing;
            Progress::Advanced
        } else {
            Progress::Idle
        }
    }

    /// One write attempt: asks `gate` for a turn and, if it is granted,
    /// appends the chunk to `sink` and completes the turn; the final chunk
    /// exhausts `gate`. An attempt that hands the chunk to the sink succeeds
    /// exactly when the encoder accepts it. A failed attempt leaves worker
    /// and gate as they were: the chunk is not written and the turn is still
    /// open.
    pub fn write_step(&mut self, gate: &mut TurnGate, sink: &mut ChunkSink) -> (outcome: Result<Progress, PipelineError>)
        ensures
            outcome is Ok <==> (if old(self)@.reaches_sink(old(gate)@) {
                feed_accepted(old(sink)@, old(self)@.chunk)
            } else {
                old(self)@.write_attempt(old(gate)@, old(sink)@).outcome is Ok
            }),
            match outcome {
                Ok(progress) => {
                    let attempt = old(self)@.write_attempt(old(gate)@, old(sink)@);
                    &&& attempt.outcome == Ok::<Progress, PipelineError>(progress)
                    &&& final(self)@ == attempt.worker
                    &&& final(gate)@ == attempt.gate
                    &&& final(sink)@ == attempt.sink
                },
                Err(error) => {
                    let attempt = old(self)@.write_attempt(old(gate)@, old(sink)@);
                    &&& final(self)@ == old(self)@
                    &&& final(gate)@ == old(gate)@
                    &&& if old(self)@.reaches_sink(old(gate)@) {
                        error == PipelineError::SinkFailed
                    } else {
                        &&& attempt.outcome == Err::<Progress, PipelineError>(error)
                        &&& final(sink)@ == old(sink)@
                    }
                },
            },
    {
        if self.phase != Phase::Writing {
            return Ok(Progress::Idle);
        }
        if self.slot >= gate.slots() {
            return Err(PipelineError::NotAdmitted);
        }
        match gate.request_turn(self.slot) {
            Admission::Exhausted => Err(PipelineError::ClosedEarly),
            Admission::Wait => Ok(Progress::Idle),
            Admission::Granted => {
                if gate.turn() == usize::MAX {
                    return Err(PipelineError::TurnOverflow);
                }
                match sink.append(self.chunk.as_slice()) {
                    Ok(_) => {},
                    Err(error) => {
                        return Err(error);
                    },
                }
                match gate.complete_turn(self.slot, self.last) {
                    Ok(_) => {},
                    Err(error) => {
                        return Err(error);
                    },
                }
                self.chunk = Vec::new();
                self.phase = if self.last {
                    Phase::Done
                } else {
                    Phase::Reading
                };
                Ok(Progress::Advanced)
            },
        }
    }
}

} // verus!
