//! The run as a whole, as an object: a source, a sink, two gates and the
//! workers, moved one attempt at a time.
//!
//! A `Pipeline` makes the attempts one after the other, in whatever order it
//! is asked to, or in an order of its own choosing until every worker is
//! done. Its state at any moment is a `PipelineState`, and what is proved of
//! all runs there holds of it.

use vstd::prelude::*;
use crate::codec::feed_accepted;
use crate::codec::gzip_stream;
use crate::error::PipelineError;
use crate::gate::TurnGate;
use crate::model::PipelineState;
use crate::codec::stream_finished;
use crate::model::lemma_complete_run;
use crate::model::lemma_sink_gets_next_chunk;
use crate::model::lemma_takes_all_prefix;
use crate::model::sink_takes;
use crate::model::lemma_run_keeps_inv;
use crate::model::lemma_fresh_inv;
use crate::model::lemma_idle_changes_nothing;
use crate::model::lemma_only_overflow_faults;
use crate::model::law_no_run_gets_stuck;
use crate::model::law_every_advance_uses_effort;
use crate::model::lemma_step_keeps_inv;
use crate::sink::ChunkSink;
use crate::source::ChunkSource;
use crate::source::chunks;
use crate::worker::Phase;
use crate::worker::Progress;
use crate::worker::Worker;
use crate::worker::WorkerState;

verus! {

/// A run over an input held in memory.
pub struct Pipeline {
    source: ChunkSource,
    read_gate: TurnGate,
    write_gate: TurnGate,
    sink: ChunkSink,
    workers: Vec<Worker>,
}

impl View for Pipeline {
    type V = PipelineState;

    closed spec fn view(&self) -> PipelineState {
        PipelineState {
            source: self.source@,
            read_gate: self.read_gate@,
            write_gate: self.write_gate@,
            sink: self.sink@,
            workers: self.workers@.map_values(|worker: Worker| worker@),
        }
    }
}

impl Pipeline {
    /// A run over `input` in chunks of `chunk_size` bytes with `workers`
    /// workers, before its first attempt. A chunk size of zero is refused,
    /// and so is a run without workers, which could not read its input.
    pub fn new(input: Vec<u8>, chunk_size: usize, workers: usize) -> (outcome: Result<Pipeline, PipelineError>)
        ensures
            match outcome {
                Ok(pipeline) => chunk_size > 0 && workers > 0 && pipeline@ == PipelineState::fresh(
                    input@,
                    chunk_size as nat,
                    workers as nat,
                ) && pipeline@.inv(),
                Err(error) => if chunk_size == 0 {
                    error == PipelineError::ZeroChunkSize
                } else {
                    workers == 0 && error == PipelineError::NoWorkers
                },
            },
    {
        let source = match ChunkSource::new(input, chunk_size) {
            Ok(source) => source,
            Err(error) => {
                return Err(error);
            },
        };
        if workers == 0 {
            return Err(PipelineError::NoWorkers);
        }
        let mut crew: Vec<Worker> = Vec::new();
        let mut slot: usize = 0;
        while slot < workers
            invariant
                slot <= workers,
                crew@.len() == slot,
                forall|i: int| 0 <= i < slot ==> (#[trigger] crew@[i])@ == WorkerState::fresh(i as nat),
            decreases workers - slot,
        {
            crew.push(Worker::new(slot));
            slot += 1;
        }
        let pipeline = Pipeline {
            source,
            read_gate: TurnGate::new(workers),
            write_gate: TurnGate::new(workers),
            sink: ChunkSink::new(),
            workers: crew,
        };
        proof {
            let fresh = PipelineState::fresh(input@, chunk_size as nat, workers as nat);
            lemma_fresh_inv(input@, chunk_size as nat, workers as nat);
            assert(pipeline@.workers =~= fresh.workers);
        }
        Ok(pipeline)
    }

    /// The number of workers.
    pub fn worker_count(&self) -> (count: usize)
        ensures
            count == self@.workers.len(),
    {
        self.workers.len()
    }

    /// The number of chunks that the sink has taken.
    pub fn chunks_written(&self) -> (count: usize)
        requires
            self@.inv(),
        ensures
            count == self@.sink.len(),
    {
        self.write_gate.turn() - 1
    }

    /// The number of chunks that have been read from the source.
    pub fn chunks_read(&self) -> (count: usize)
        requires
            self@.inv(),
        ensures
            count == self@.read_gate.turn - 1,
            count >= self@.sink.len(),
    {
        self.read_gate.turn() - 1
    }

    /// One attempt by `slot`: a read attempt, a step of preparing or a write
    /// attempt, according to the phase of its worker. A slot without a worker
    /// and a worker that is done are idle. An attempt that hands a chunk to
    /// the sink succeeds exactly when the encoder accepts the chunk; if it
    /// does not, the attempt fails with `SinkFailed`. A failed attempt leaves
    /// source, gates and workers as they were.
    pub fn step(&mut self, slot: usize) -> (outcome: Result<Progress, PipelineError>)
        requires
            old(self)@.inv(),
        ensures
            outcome is Ok <==> old(self)@.takes(slot as nat),
            match outcome {
                Ok(progress) => old(self)@.outcome(slot as nat) == Ok::<Progress, PipelineError>(progress)
                    && final(self)@ == old(self)@.step(slot as nat)
                    && final(self)@.inv(),
                Err(error) => {
                    &&& final(self)@.source == old(self)@.source
                    &&& final(self)@.read_gate == old(self)@.read_gate
                    &&& final(self)@.write_gate == old(self)@.write_gate
                    &&& final(self)@.workers == old(self)@.workers
                    &&& if old(self)@.reaches_sink(slot as nat) {
                        error == PipelineError::SinkFailed
                    } else {
                        old(self)@.outcome(slot as nat) == Err::<Progress, PipelineError>(error)
                            && error == PipelineError::TurnOverflow
                            && old(self)@.all_chunks().len() >= usize::MAX
                            && final(self)@ == old(self)@
                    }
                },
            },
    {
        if slot >= self.workers.len() {
            return Ok(Progress::Idle);
        }
        proof {
            lemma_step_keeps_inv(self@, slot as nat);
            if self@.outcome(slot as nat) is Err {
                lemma_only_overflow_faults(self@, slot as nat);
            }
        }
        let phase = self.workers[slot].phase();
        let outcome = match phase {
            Phase::Reading => self.workers[slot].read_step(&mut self.read_gate, &mut self.source),
            Phase::Transforming => Ok(self.workers[slot].transform_step()),
            Phase::Writing => self.workers[slot].write_step(&mut self.write_gate, &mut self.sink),
            Phase::Done => Ok(Progress::Idle),
        };
        proof {
            if outcome is Ok {
                assert(self@.workers =~= old(self)@.step(slot as nat).workers);
            } else {
                assert(self@.workers =~= old(self)@.workers);
            }
        }
        outcome
    }

    /// Whether every worker is done.
    pub fn is_complete(&self) -> (done: bool)
        ensures
            done == self@.complete(),
    {
        let mut slot: usize = 0;
        while slot < self.workers.len()
            invariant
                slot <= self.workers.len(),
                forall|i: int| 0 <= i < slot ==> (#[trigger] self@.workers[i]).phase == Phase::Done,
            decreases self.workers.len() - slot,
        {
            if !self.workers[slot].is_done() {
                assert(self@.workers[slot as int].phase != Phase::Done);
                return false;
            }
            slot += 1;
        }
        true
    }

    /// Makes the attempts of `schedule`, in order, and stops at the first
    /// that fails. It succeeds exactly when every attempt does.
    pub fn run_schedule(&mut self, schedule: &[usize]) -> (outcome: Result<(), PipelineError>)
        requires
            old(self)@.inv(),
        ensures
            outcome is Ok <==> old(self)@.takes_all(slots_of(schedule@)),
            match outcome {
                Ok(_) => final(self)@ == old(self)@.run(slots_of(schedule@)) && final(self)@.inv(),
                Err(error) => error == PipelineError::SinkFailed || (error == PipelineError::TurnOverflow
                    && old(self)@.all_chunks().len() >= usize::MAX),
            },
    {
        let ghost start = self@;
        let mut index: usize = 0;
        while index < schedule.len()
            invariant
                index <= schedule.len(),
                start == old(self)@,
                self@.inv(),
                self@ == start.run(slots_of(schedule@.take(index as int))),
                start.takes_all(slots_of(schedule@.take(index as int))),
                self@.all_chunks() == start.all_chunks(),
            decreases schedule.len() - index,
        {
            proof {
                let done = slots_of(schedule@.take(index as int));
                let more = slots_of(schedule@.take(index + 1));
                assert(more.drop_last() == done);
                assert(more.last() == schedule@[index as int] as nat);
                assert(more == slots_of(schedule@).take(index + 1));
                if start.takes_all(slots_of(schedule@)) {
                    lemma_takes_all_prefix(start, slots_of(schedule@), index + 1);
                }
                lemma_step_keeps_data(start.run(done), schedule@[index as int] as nat);
            }
            match self.step(schedule[index]) {
                Ok(_) => {},
                Err(error) => {
                    return Err(error);
                },
            }
            index += 1;
        }
        assert(schedule@.take(index as int) == schedule@);
        Ok(())
    }

    /// Makes attempts, slot after slot and round after round, until every
    /// worker is done. What was reached is then what some schedule reaches.
    /// A run that is complete already succeeds at once. Any other succeeds
    /// exactly when the input has fewer chunks than a turn counter can count
    /// and the encoder accepts each chunk that is still to be written, after
    /// all the chunks before it.
    pub fn run_to_completion(&mut self) -> (outcome: Result<(), PipelineError>)
        requires
            old(self)@.inv(),
        ensures
            outcome is Ok <==> old(self)@.complete() || (old(self)@.all_chunks().len() < usize::MAX
                && sink_takes(old(self)@.all_chunks(), old(self)@.sink.len())),
            match outcome {
                Ok(_) => final(self)@.complete() && final(self)@.inv()
                    && exists|schedule: Seq<nat>| final(self)@ == old(self)@.run(schedule),
                Err(error) => error == PipelineError::SinkFailed || (error == PipelineError::TurnOverflow
                    && old(self)@.all_chunks().len() >= usize::MAX),
            },
    {
        let ghost start = self@;
        let ghost all = self@.all_chunks();
        let ghost mut schedule: Seq<nat> = Seq::empty();
        let count = self.workers.len();
        loop
            invariant
                start == old(self)@,
                all == start.all_chunks(),
                self@.inv(),
                self@ == start.run(schedule),
                self@.all_chunks() == all,
                count == self@.workers.len(),
                start.complete() ==> self@.complete(),
                start.sink.len() <= self@.sink.len(),
                forall|k: int| start.sink.len() <= k < self@.sink.len() ==> #[trigger] feed_accepted(all.take(k), all[k]),
            decreases self@.effort_left(),
        {
            let ghost before = self@;
            let mut advanced = false;
            let mut slot: usize = 0;
            while slot < count
                invariant
                    slot <= count,
                    start == old(self)@,
                    all == start.all_chunks(),
                    self@.inv(),
                    self@ == start.run(schedule),
                    self@.all_chunks() == all,
                    count == self@.workers.len(),
                    count == before.workers.len(),
                    start.complete() ==> self@.complete(),
                    start.sink.len() <= self@.sink.len(),
                    forall|k: int| start.sink.len() <= k < self@.sink.len() ==> #[trigger] feed_accepted(all.take(k), all[k]),
                    !advanced ==> self@ == before && forall|i: nat|
                        i < slot ==> #[trigger] before.outcome(i) == Ok::<Progress, PipelineError>(
                            Progress::Idle,
                        ),
                    advanced ==> self@.effort_left() < before.effort_left(),
                decreases count - slot,
            {
                let ghost here = self@;
                proof {
                    if here.reaches_sink(slot as nat) {
                        lemma_sink_gets_next_chunk(here, slot as nat);
                    }
                    if here.complete() {
                        assert(here.workers[slot as int].phase == Phase::Done);
                    }
                }
                match self.step(slot) {
                    Ok(Progress::Advanced) => {
                        proof {
                            law_every_advance_uses_effort(here, slot as nat);
                        }
                        advanced = true;
                    },
                    Ok(Progress::Idle) => {
                        proof {
                            lemma_idle_changes_nothing(here, slot as nat);
                        }
                    },
                    Err(error) => {
                        return Err(error);
                    },
                }
                proof {
                    lemma_step_keeps_data(here, slot as nat);
                    let longer = schedule.push(slot as nat);
                    assert(longer.drop_last() == schedule);
                    schedule = longer;
                    if start.complete() {
                        lemma_idle_changes_nothing(here, slot as nat);
                    }
                }
                slot += 1;
            }
            if !advanced {
                proof {
                    if !self@.complete() {
                        let stuck = law_no_run_gets_stuck(self@);
                        assert(before.outcome(stuck) == Ok::<Progress, PipelineError>(Progress::Idle));
                    }
                    if !start.complete() {
                        lemma_complete_run(self@);
                        self.write_gate.turn_fits();
                        assert(sink_takes(all, start.sink.len()));
                    }
                }
                return Ok(());
            }
        }
    }

    /// Finishes the run and hands out the gzip stream. A run in which some
    /// worker is not done is refused as `Incomplete`. Otherwise it succeeds
    /// exactly when the encoder can be finished, and the stream is then that
    /// of the chunks of the input, in the order of the input.
    pub fn finish(self) -> (outcome: Result<Vec<u8>, PipelineError>)
        requires
            self@.inv(),
        ensures
            outcome is Ok <==> self@.complete() && stream_finished(self@.sink),
            match outcome {
                Ok(bytes) => gzip_stream(chunks(self@.source.data, self@.source.chunk_size)) == Some(bytes@),
                Err(error) => if self@.complete() {
                    error == PipelineError::SinkFailed
                } else {
                    error == PipelineError::Incomplete
                },
            },
    {
        if !self.is_complete() {
            return Err(PipelineError::Incomplete);
        }
        proof {
            lemma_complete_run(self@);
        }
        self.sink.finish()
    }
}

/// The slots of a schedule, as numbers.
pub open spec fn slots_of(schedule: Seq<usize>) -> Seq<nat> {
    schedule.map_values(|slot: usize| slot as nat)
}

/// An attempt leaves the input, the chunk size and the number of workers as
/// they are.
proof fn lemma_step_keeps_data(state: PipelineState, slot: nat)
    ensures
        state.step(slot).source.data == state.source.data,
        state.step(slot).source.chunk_size == state.source.chunk_size,
        state.step(slot).workers.len() == state.workers.len(),
        state.step(slot).all_chunks() == state.all_chunks(),
{
}

/// Compresses `input` to one gzip stream, read in chunks of `chunk_size`
/// bytes by `workers` workers. The stream is that of the chunks of the input
/// in the order of the input, whatever the number of workers. A chunk size
/// of zero is refused, and so is a run without workers. Beyond that the run
/// fails only if the encoder does not accept a chunk or cannot be finished,
/// or if the input has more chunks than a turn counter can count.
pub fn compress(input: Vec<u8>, chunk_size: usize, workers: usize) -> (outcome: Result<Vec<u8>, PipelineError>)
    ensures
        outcome is Ok <==> {
            let all = chunks(input@, chunk_size as nat);
            &&& chunk_size > 0
            &&& workers > 0
            &&& all.len() < usize::MAX
            &&& sink_takes(all, 0)
            &&& stream_finished(all)
        },
        match outcome {
            Ok(bytes) => gzip_stream(chunks(input@, chunk_size as nat)) == Some(bytes@),
            Err(error) => if chunk_size == 0 {
                error == PipelineError::ZeroChunkSize
            } else if workers == 0 {
                error == PipelineError::NoWorkers
            } else {
                error == PipelineError::SinkFailed || (error == PipelineError::TurnOverflow && chunks(
                    input@,
                    chunk_size as nat,
                ).len() >= usize::MAX)
            },
        },
{
    let mut pipeline = match Pipeline::new(input, chunk_size, workers) {
        Ok(pipeline) => pipeline,
        Err(error) => {
            return Err(error);
        },
    };
    let ghost start = pipeline@;
    assert(!start.complete()) by {
        assert(start.workers[0].phase == Phase::Reading);
    }
    match pipeline.run_to_completion() {
        Ok(_) => {},
        Err(error) => {
            return Err(error);
        },
    }
    proof {
        let schedule = choose|schedule: Seq<nat>| pipeline@ == start.run(schedule);
        lemma_run_keeps_inv(start, schedule);
        lemma_complete_run(pipeline@);
    }
    pipeline.finish()
}

} // verus!
