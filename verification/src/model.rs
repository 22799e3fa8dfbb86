//! The run as a whole, as mathematics: a source behind a read gate, a sink
//! behind a write gate, and workers that are moved one attempt at a time in
//! any order whatever. The laws at the end say what holds of every such run.
//!
//! A schedule is the order in which the slots make their attempts. Threads
//! that take the two gates' locks in some order give one such schedule, since
//! an attempt touches one gate and one worker only.

use vstd::prelude::*;
use vstd::arithmetic::div_mod::lemma_mod_pos_bound;
use crate::codec::feed_accepted;
use crate::error::PipelineError;
use crate::gate::Admission;
use crate::gate::GateState;
use crate::source::SourceState;
use crate::source::chunks;
use crate::source::law_chunks_concatenate_to_input;
use crate::source::law_only_last_chunk_is_short;
use crate::worker::Phase;
use crate::worker::Progress;
use crate::worker::WorkerState;

verus! {

/// What a run is, mathematically.
pub struct PipelineState {
    /// The input and how far it has been read.
    pub source: SourceState,
    /// The turn gate in front of the source.
    pub read_gate: GateState,
    /// The turn gate in front of the sink.
    pub write_gate: GateState,
    /// The payloads that the sink has taken, oldest first.
    pub sink: Seq<Seq<u8>>,
    /// The workers, each at the index of its slot.
    pub workers: Seq<WorkerState>,
}

/// Whether the encoder accepts each of the chunks of `all` from the one at
/// `from` on, each after all the chunks before it.
pub open spec fn sink_takes(all: Seq<Seq<u8>>, from: nat) -> bool {
    forall|k: int| from <= k < all.len() ==> #[trigger] feed_accepted(all.take(k), all[k])
}

/// How far a phase is from the end of an iteration, for counting down.
pub open spec fn phase_rank(phase: Phase) -> nat {
    match phase {
        Phase::Transforming => 3,
        Phase::Writing => 2,
        Phase::Reading => 1,
        Phase::Done => 0,
    }
}

/// The ranks of the workers' phases, added up.
pub open spec fn rank_sum(workers: Seq<WorkerState>) -> nat
    decreases workers.len(),
{
    if workers.len() == 0 {
        0
    } else {
        rank_sum(workers.drop_last()) + phase_rank(workers.last().phase)
    }
}

impl PipelineState {
    /// A run before its first attempt.
    pub open spec fn fresh(data: Seq<u8>, chunk_size: nat, workers: nat) -> PipelineState {
        PipelineState {
            source: SourceState::fresh(data, chunk_size),
            read_gate: GateState::fresh(workers),
            write_gate: GateState::fresh(workers),
            sink: Seq::empty(),
            workers: Seq::new(workers, |slot: int| WorkerState::fresh(slot as nat)),
        }
    }

    /// All the chunks of the input, in the order of the input.
    pub open spec fn all_chunks(self) -> Seq<Seq<u8>> {
        chunks(self.source.data, self.source.chunk_size)
    }

    /// Whether every worker is done.
    pub open spec fn complete(self) -> bool {
        forall|slot: int| 0 <= slot < self.workers.len() ==> (#[trigger] self.workers[slot]).phase == Phase::Done
    }

    /// What one attempt by `slot` reports, for a sink that takes what it is
    /// handed. A slot without a worker is idle.
    pub open spec fn outcome(self, slot: nat) -> Result<Progress, PipelineError> {
        if slot >= self.workers.len() {
            Ok(Progress::Idle)
        } else {
            let worker = self.workers[slot as int];
            match worker.phase {
                Phase::Reading => worker.read_attempt(self.read_gate, self.source).outcome,
                Phase::Transforming => Ok(Progress::Advanced),
                Phase::Writing => worker.write_attempt(self.write_gate, self.sink).outcome,
                Phase::Done => Ok(Progress::Idle),
            }
        }
    }

    /// Whether one attempt by `slot` hands a chunk to the sink.
    pub open spec fn reaches_sink(self, slot: nat) -> bool {
        slot < self.workers.len() && self.workers[slot as int].reaches_sink(self.write_gate)
    }

    /// Whether one attempt by `slot` succeeds: where it hands a chunk to the
    /// sink, the encoder accepts the chunk after what the sink holds; where
    /// it does not, nothing stands in its way.
    pub open spec fn takes(self, slot: nat) -> bool {
        if self.reaches_sink(slot) {
            feed_accepted(self.sink, self.workers[slot as int].chunk)
        } else {
            self.outcome(slot) is Ok
        }
    }

    /// The run after one attempt by `slot`, for a sink that takes what it is
    /// handed.
    pub open spec fn step(self, slot: nat) -> PipelineState {
        if slot >= self.workers.len() {
            self
        } else {
            let worker = self.workers[slot as int];
            match worker.phase {
                Phase::Reading => {
                    let attempt = worker.read_attempt(self.read_gate, self.source);
                    PipelineState {
                        source: attempt.source,
                        read_gate: attempt.gate,
                        workers: self.workers.update(slot as int, attempt.worker),
                        ..self
                    }
                },
                Phase::Transforming => PipelineState {
                    workers: self.workers.update(slot as int, worker.prepared()),
                    ..self
                },
                Phase::Writing => {
                    let attempt = worker.write_attempt(self.write_gate, self.sink);
                    PipelineState {
                        write_gate: attempt.gate,
                        sink: attempt.sink,
                        workers: self.workers.update(slot as int, attempt.worker),
                        ..self
                    }
                },
                Phase::Done => self,
            }
        }
    }

    /// The run after the attempts of a schedule, made in order.
    pub open spec fn run(self, schedule: Seq<nat>) -> PipelineState
        decreases schedule.len(),
    {
        if schedule.len() == 0 {
            self
        } else {
            self.run(schedule.drop_last()).step(schedule.last())
        }
    }

    /// Whether every attempt of a schedule succeeds, each in the state that
    /// the attempts before it have left.
    pub open spec fn takes_all(self, schedule: Seq<nat>) -> bool
        decreases schedule.len(),
    {
        if schedule.len() == 0 {
            true
        } else {
            self.takes_all(schedule.drop_last()) && self.run(schedule.drop_last()).takes(schedule.last())
        }
    }

    /// What holds of the worker of `slot` at every moment: it knows its slot;
    /// if it is done, the input is exhausted; and if it holds a chunk, that
    /// chunk is the one of a turn of its own that was read and not yet
    /// written, and it knows whether the chunk is the final one.
    pub open spec fn worker_is_well(self, slot: int) -> bool {
        let worker = self.workers[slot];
        let all = self.all_chunks();
        &&& worker.slot == slot
        &&& worker.phase == Phase::Done ==> self.read_gate.exhausted
        &&& worker.holding() ==> {
            &&& self.write_gate.turn <= worker.ticket < self.read_gate.turn
            &&& GateState::owner_of(worker.ticket, self.workers.len()) == slot
            &&& worker.chunk == all[worker.ticket - 1]
            &&& worker.last == (worker.ticket == all.len())
        }
    }

    /// What holds of a turn that was read and not yet written: the slot that
    /// owns it holds its chunk.
    pub open spec fn turn_is_held(self, turn: nat) -> bool {
        let owner = GateState::owner_of(turn, self.workers.len());
        &&& owner < self.workers.len()
        &&& self.workers[owner as int].holding()
        &&& self.workers[owner as int].ticket == turn
    }

    /// What binds the parts of a run together at every moment: the chunks
    /// read so far are the first chunks of the input, the sink holds those of
    /// them that were written, in order, and each of the others is held by
    /// the worker whose turn it was.
    pub open spec fn inv(self) -> bool {
        let all = self.all_chunks();
        let read = self.read_gate.turn;
        let write = self.write_gate.turn;
        let count = self.workers.len();
        &&& self.source.wf()
        &&& self.read_gate.slots == count
        &&& self.write_gate.slots == count
        &&& count >= 1
        &&& 1 <= write <= read <= all.len() + 1
        &&& if self.read_gate.exhausted {
            all.len() == read - 1
        } else {
            all == all.take(read - 1) + chunks(self.source.remaining(), self.source.chunk_size)
        }
        &&& self.sink == all.take(write - 1)
        &&& self.write_gate.exhausted <==> write == all.len() + 1
        &&& forall|slot: int| 0 <= slot < count ==> #[trigger] self.worker_is_well(slot)
        &&& forall|turn: nat| write <= turn < read ==> #[trigger] self.turn_is_held(turn)
    }

    /// How many reads the source may still serve, counted generously.
    pub open spec fn reads_left(self) -> nat {
        if self.read_gate.exhausted {
            0
        } else {
            (self.source.data.len() - self.source.position + 1) as nat
        }
    }

    /// A number that every attempt that advances makes smaller.
    pub open spec fn effort_left(self) -> nat {
        3 * self.reads_left() + rank_sum(self.workers)
    }
}

/// Whether the chunk that the next read hands out is the final one.
pub open spec fn is_final_chunk(state: PipelineState) -> bool {
    state.source.next_chunk().len() < state.source.chunk_size
}

/// While the read gate is open, the chunks not yet read are those of the
/// bytes that remain, so at least one more chunk is to come.
proof fn lemma_open_read_gate(state: PipelineState)
    requires
        state.inv(),
        !state.read_gate.exhausted,
    ensures
        state.all_chunks().len() >= state.read_gate.turn,
        state.all_chunks()[state.read_gate.turn - 1] == state.source.next_chunk(),
        is_final_chunk(state) <==> state.all_chunks().len() == state.read_gate.turn,
        !is_final_chunk(state) ==> state.all_chunks() == state.all_chunks().take(
            state.read_gate.turn as int,
        ) + chunks(state.source.advanced().remaining(), state.source.chunk_size),
{
    let all = state.all_chunks();
    let size = state.source.chunk_size;
    let rest = state.source.remaining();
    let done = all.take(state.read_gate.turn - 1);
    let coming = chunks(rest, size);
    let chunk = state.source.next_chunk();
    law_only_last_chunk_is_short(rest, size);
    assert(all == done + coming);
    assert(all[state.read_gate.turn - 1] == coming[0]);
    if rest.len() >= size {
        let later = chunks(rest.skip(size as int), size);
        law_only_last_chunk_is_short(rest.skip(size as int), size);
        assert(state.source.advanced().remaining() == rest.skip(size as int));
        assert(coming == seq![chunk] + later);
        assert(all.take(state.read_gate.turn as int) == done + seq![chunk]);
        assert(all == (done + seq![chunk]) + later);
    }
}

/// A run starts out well.
pub proof fn lemma_fresh_inv(data: Seq<u8>, chunk_size: nat, workers: nat)
    requires
        chunk_size > 0,
        workers >= 1,
    ensures
        PipelineState::fresh(data, chunk_size, workers).inv(),
{
    let state = PipelineState::fresh(data, chunk_size, workers);
    let all = state.all_chunks();
    law_only_last_chunk_is_short(data, chunk_size);
    assert(state.source.remaining() == data);
    assert(all.take(0) + all == all);
    assert(state.sink == all.take(0));
}

/// An attempt by a reading worker keeps a run well.
proof fn lemma_read_keeps_inv(state: PipelineState, slot: nat)
    requires
        state.inv(),
        slot < state.workers.len(),
        state.workers[slot as int].phase == Phase::Reading,
    ensures
        state.step(slot).inv(),
{
    let worker = state.workers[slot as int];
    let attempt = worker.read_attempt(state.read_gate, state.source);
    let next = state.step(slot);
    assert(state.worker_is_well(slot as int));
    if attempt.outcome == Ok::<Progress, PipelineError>(Progress::Advanced) {
        if !state.read_gate.exhausted {
            lemma_open_read_gate(state);
        }
        assert forall|turn: nat| next.write_gate.turn <= turn < next.read_gate.turn implies #[trigger] next.turn_is_held(
            turn,
        ) by {
            if turn < state.read_gate.turn {
                assert(state.turn_is_held(turn));
            }
        }
        assert forall|other: int| 0 <= other < next.workers.len() implies #[trigger] next.worker_is_well(
            other,
        ) by {
            assert(state.worker_is_well(other));
        }
    } else {
        assert(next.workers =~= state.workers);
        assert(next == state);
    }
}

/// An attempt by a transforming worker keeps a run well.
proof fn lemma_transform_keeps_inv(state: PipelineState, slot: nat)
    requires
        state.inv(),
        slot < state.workers.len(),
        state.workers[slot as int].phase == Phase::Transforming,
    ensures
        state.step(slot).inv(),
{
    let next = state.step(slot);
    assert forall|turn: nat| next.write_gate.turn <= turn < next.read_gate.turn implies #[trigger] next.turn_is_held(
        turn,
    ) by {
        assert(state.turn_is_held(turn));
    }
    assert forall|other: int| 0 <= other < next.workers.len() implies #[trigger] next.worker_is_well(
        other,
    ) by {
        assert(state.worker_is_well(other));
    }
}

/// An attempt by a writing worker keeps a run well, and the write gate does
/// not turn the worker away as closed.
proof fn lemma_write_keeps_inv(state: PipelineState, slot: nat)
    requires
        state.inv(),
        slot < state.workers.len(),
        state.workers[slot as int].phase == Phase::Writing,
    ensures
        state.step(slot).inv(),
        state.workers[slot as int].write_attempt(state.write_gate, state.sink).outcome
            != Err::<Progress, PipelineError>(PipelineError::ClosedEarly),
{
    let worker = state.workers[slot as int];
    let attempt = worker.write_attempt(state.write_gate, state.sink);
    let next = state.step(slot);
    let all = state.all_chunks();
    let write = state.write_gate.turn;
    assert(state.worker_is_well(slot as int));
    assert(state.turn_is_held(write));
    if attempt.outcome == Ok::<Progress, PipelineError>(Progress::Advanced) {
        assert(all.take(write - 1).push(all[write - 1]) == all.take(write as int));
        if !state.read_gate.exhausted {
            lemma_open_read_gate(state);
        }
        assert forall|turn: nat| next.write_gate.turn <= turn < next.read_gate.turn implies #[trigger] next.turn_is_held(
            turn,
        ) by {
            assert(state.turn_is_held(turn));
        }
        assert forall|other: int| 0 <= other < next.workers.len() implies #[trigger] next.worker_is_well(
            other,
        ) by {
            assert(state.worker_is_well(other));
        }
    } else {
        assert(next.workers =~= state.workers);
        assert(next == state);
    }
}

/// Whatever slot makes an attempt, a run that was well stays well.
pub proof fn lemma_step_keeps_inv(state: PipelineState, slot: nat)
    requires
        state.inv(),
    ensures
        state.step(slot).inv(),
{
    if slot < state.workers.len() {
        match state.workers[slot as int].phase {
            Phase::Reading => lemma_read_keeps_inv(state, slot),
            Phase::Transforming => lemma_transform_keeps_inv(state, slot),
            Phase::Writing => lemma_write_keeps_inv(state, slot),
            Phase::Done => {},
        }
    }
}

/// In a run that is well no gate refuses a worker: an attempt fails on the
/// run's own account only when a turn counter has reached its limit.
pub proof fn lemma_only_overflow_faults(state: PipelineState, slot: nat)
    requires
        state.inv(),
        state.outcome(slot) is Err,
    ensures
        state.outcome(slot) == Err::<Progress, PipelineError>(PipelineError::TurnOverflow),
        state.all_chunks().len() >= usize::MAX,
        state.step(slot) == state,
{
    let worker = state.workers[slot as int];
    assert(state.worker_is_well(slot as int));
    if worker.phase == Phase::Writing {
        lemma_write_keeps_inv(state, slot);
    } else {
        lemma_open_read_gate(state);
    }
    assert(state.step(slot).workers =~= state.workers);
}

/// An attempt that reports `Idle` has changed nothing.
pub proof fn lemma_idle_changes_nothing(state: PipelineState, slot: nat)
    requires
        state.outcome(slot) == Ok::<Progress, PipelineError>(Progress::Idle),
    ensures
        state.step(slot) == state,
{
    assert(state.step(slot).workers =~= state.workers);
}

/// Replacing one worker changes the sum of ranks by the change of its rank.
proof fn lemma_rank_sum_update(workers: Seq<WorkerState>, slot: int, worker: WorkerState)
    requires
        0 <= slot < workers.len(),
    ensures
        rank_sum(workers.update(slot, worker)) + phase_rank(workers[slot].phase) == rank_sum(workers)
            + phase_rank(worker.phase),
    decreases workers.len(),
{
    let changed = workers.update(slot, worker);
    if slot == workers.len() - 1 {
        assert(changed.drop_last() == workers.drop_last());
    } else {
        assert(changed.drop_last() == workers.drop_last().update(slot, worker));
        lemma_rank_sum_update(workers.drop_last(), slot, worker);
    }
}

/// Every attempt that advances uses up some of the effort that is left, so a
/// run cannot advance forever.
pub proof fn law_every_advance_uses_effort(state: PipelineState, slot: nat)
    requires
        state.inv(),
        state.outcome(slot) == Ok::<Progress, PipelineError>(Progress::Advanced),
    ensures
        state.step(slot).effort_left() < state.effort_left(),
{
    let worker = state.workers[slot as int];
    let next = state.step(slot);
    lemma_rank_sum_update(state.workers, slot as int, next.workers[slot as int]);
    assert(next.workers == state.workers.update(slot as int, next.workers[slot as int]));
}

/// As long as some worker is not done, some slot's attempt does not come
/// back idle: no run gets stuck.
pub proof fn law_no_run_gets_stuck(state: PipelineState) -> (slot: nat)
    requires
        state.inv(),
        !state.complete(),
    ensures
        slot < state.workers.len(),
        state.outcome(slot) != Ok::<Progress, PipelineError>(Progress::Idle),
{
    let count = state.workers.len();
    let read = state.read_gate.turn;
    let write = state.write_gate.turn;
    let pending = choose|slot: int| 0 <= slot < count && (#[trigger] state.workers[slot]).phase != Phase::Done;
    if exists|slot: int| 0 <= slot < count && (#[trigger] state.workers[slot]).phase == Phase::Transforming {
        let busy = choose|slot: int| 0 <= slot < count && (#[trigger] state.workers[slot]).phase == Phase::Transforming;
        busy as nat
    } else {
        // Nobody is preparing a chunk. The slot whose read turn it is, or any
        // worker that is not done once the input is exhausted, either reads
        // or waits to write; and if it waits, the owner of the current write
        // turn holds that turn's chunk and can write it.
        let candidate = if state.read_gate.exhausted {
            pending as nat
        } else {
            lemma_mod_pos_bound(read as int, count as int);
            GateState::owner_of(read, count)
        };
        let worker = state.workers[candidate as int];
        assert(state.worker_is_well(candidate as int));
        if worker.phase == Phase::Reading {
            candidate
        } else {
            assert(state.turn_is_held(write));
            let owner = GateState::owner_of(write, count);
            assert(state.worker_is_well(owner as int));
            owner
        }
    }
}

/// When every worker is done, the sink has taken every chunk of the input,
/// each once and in the order of the input, and both gates have granted one
/// turn for each chunk and are exhausted.
pub proof fn lemma_complete_run(state: PipelineState)
    requires
        state.inv(),
        state.complete(),
    ensures
        state.sink == state.all_chunks(),
        state.read_gate.exhausted,
        state.write_gate.exhausted,
        state.read_gate.turn == state.all_chunks().len() + 1,
        state.write_gate.turn == state.all_chunks().len() + 1,
{
    let write = state.write_gate.turn;
    if write < state.read_gate.turn {
        assert(state.turn_is_held(write));
    }
    assert(state.worker_is_well(0));
    assert(state.all_chunks().take(state.all_chunks().len() as int) == state.all_chunks());
}

/// An attempt that hands a chunk to the sink hands it the next chunk of the
/// input, and the sink holds all the chunks before that one.
pub proof fn lemma_sink_gets_next_chunk(state: PipelineState, slot: nat)
    requires
        state.inv(),
        state.reaches_sink(slot),
    ensures
        state.sink.len() < state.all_chunks().len(),
        state.sink == state.all_chunks().take(state.sink.len() as int),
        state.workers[slot as int].chunk == state.all_chunks()[state.sink.len() as int],
        state.step(slot).sink.len() == state.sink.len() + 1,
{
    assert(state.worker_is_well(slot as int));
    assert(state.turn_is_held(state.write_gate.turn));
}

/// A schedule whose attempts all succeed has no attempt that fails among its
/// first ones.
pub proof fn lemma_takes_all_prefix(state: PipelineState, schedule: Seq<nat>, length: int)
    requires
        0 <= length <= schedule.len(),
        state.takes_all(schedule),
    ensures
        state.takes_all(schedule.take(length)),
    decreases schedule.len(),
{
    if length == schedule.len() {
        assert(schedule.take(length) == schedule);
    } else {
        assert(schedule.drop_last().take(length) == schedule.take(length));
        lemma_takes_all_prefix(state, schedule.drop_last(), length);
    }
}

/// A run that began well is well after any schedule.
pub proof fn lemma_run_keeps_inv(state: PipelineState, schedule: Seq<nat>)
    requires
        state.inv(),
    ensures
        state.run(schedule).inv(),
        state.run(schedule).source.data == state.source.data,
        state.run(schedule).source.chunk_size == state.source.chunk_size,
        state.run(schedule).workers.len() == state.workers.len(),
    decreases schedule.len(),
{
    if schedule.len() > 0 {
        lemma_run_keeps_inv(state, schedule.drop_last());
        lemma_step_keeps_inv(state.run(schedule.drop_last()), schedule.last());
    }
}

/// A schedule may be followed attempt by attempt from its front.
proof fn lemma_run_from_front(state: PipelineState, slot: nat, rest: Seq<nat>)
    ensures
        state.run(seq![slot] + rest) == state.step(slot).run(rest),
    decreases rest.len(),
{
    let whole = seq![slot] + rest;
    if rest.len() == 0 {
        assert(whole.drop_last() == Seq::<nat>::empty());
        assert(whole.last() == slot);
        assert(state.run(whole.drop_last()) == state);
        assert(state.run(whole) == state.step(slot));
    } else {
        assert(whole.drop_last() == seq![slot] + rest.drop_last());
        assert(whole.last() == rest.last());
        lemma_run_from_front(state, slot, rest.drop_last());
        assert(state.run(whole) == state.run(whole.drop_last()).step(whole.last()));
    }
}

/// Every run can be brought to its end: from any moment of a run whose input
/// has fewer chunks than a turn counter can count, some schedule leads to
/// every worker being done. Such a schedule is returned.
pub proof fn law_every_run_can_finish(state: PipelineState) -> (schedule: Seq<nat>)
    requires
        state.inv(),
        state.all_chunks().len() < usize::MAX,
    ensures
        state.run(schedule).complete(),
    decreases state.effort_left(),
{
    if state.complete() {
        Seq::empty()
    } else {
        let slot = law_no_run_gets_stuck(state);
        if state.outcome(slot) is Err {
            lemma_only_overflow_faults(state, slot);
        }
        law_every_advance_uses_effort(state, slot);
        lemma_step_keeps_inv(state, slot);
        let rest = law_every_run_can_finish(state.step(slot));
        lemma_run_from_front(state, slot, rest);
        seq![slot] + rest
    }
}

/// Order is preserved. Take any input, any chunk size and any number of
/// workers, and let the workers make their attempts in any order. If every
/// worker ends up done, the sink has taken exactly the chunks of the input in
/// the order of the input, so what it compresses is the input, byte for byte.
pub proof fn law_order_is_preserved(data: Seq<u8>, chunk_size: nat, workers: nat, schedule: Seq<nat>)
    requires
        chunk_size > 0,
        workers >= 1,
        PipelineState::fresh(data, chunk_size, workers).run(schedule).complete(),
    ensures
        PipelineState::fresh(data, chunk_size, workers).run(schedule).sink == chunks(data, chunk_size),
        PipelineState::fresh(data, chunk_size, workers).run(schedule).sink.flatten() == data,
{
    let start = PipelineState::fresh(data, chunk_size, workers);
    lemma_fresh_inv(data, chunk_size, workers);
    lemma_run_keeps_inv(start, schedule);
    lemma_complete_run(start.run(schedule));
    law_chunks_concatenate_to_input(data, chunk_size);
}

/// The output does not depend on the number of workers nor on the order of
/// their attempts: two runs over one input and one chunk size that both end
/// with every worker done have handed the same payloads to the sink.
pub proof fn law_output_is_independent_of_workers(
    data: Seq<u8>,
    chunk_size: nat,
    workers: nat,
    schedule: Seq<nat>,
    other_workers: nat,
    other_schedule: Seq<nat>,
)
    requires
        chunk_size > 0,
        workers >= 1,
        other_workers >= 1,
        PipelineState::fresh(data, chunk_size, workers).run(schedule).complete(),
        PipelineState::fresh(data, chunk_size, other_workers).run(other_schedule).complete(),
    ensures
        PipelineState::fresh(data, chunk_size, workers).run(schedule).sink == PipelineState::fresh(
            data,
            chunk_size,
            other_workers,
        ).run(other_schedule).sink,
{
    law_order_is_preserved(data, chunk_size, workers, schedule);
    law_order_is_preserved(data, chunk_size, other_workers, other_schedule);
}

/// Each gate grants one turn for each chunk and no more: at every moment of
/// a run the sink holds the chunks of the write turns 1, 2, ... granted so
/// far and no others, and the read gate is at most one chunk's turn beyond
/// the last chunk.
pub proof fn law_one_turn_per_chunk(data: Seq<u8>, chunk_size: nat, workers: nat, schedule: Seq<nat>)
    requires
        chunk_size > 0,
        workers >= 1,
    ensures
        ({
            let state = PipelineState::fresh(data, chunk_size, workers).run(schedule);
            &&& state.sink == chunks(data, chunk_size).take(state.write_gate.turn - 1)
            &&& state.write_gate.turn <= state.read_gate.turn <= chunks(data, chunk_size).len() + 1
            &&& state.complete() ==> state.write_gate.turn == chunks(data, chunk_size).len() + 1
                && state.read_gate.turn == chunks(data, chunk_size).len() + 1
        }),
{
    let start = PipelineState::fresh(data, chunk_size, workers);
    lemma_fresh_inv(data, chunk_size, workers);
    lemma_run_keeps_inv(start, schedule);
    let state = start.run(schedule);
    if state.complete() {
        lemma_complete_run(state);
    }
}

/// Once a gate of a run is exhausted, no attempt touches what it guards: the
/// gate, and the source or sink behind it, stay as they are through any
/// schedule.
pub proof fn law_exhausted_gates_guard_nothing(state: PipelineState, schedule: Seq<nat>)
    ensures
        state.read_gate.exhausted ==> state.run(schedule).read_gate == state.read_gate && state.run(
            schedule,
        ).source == state.source,
        state.write_gate.exhausted ==> state.run(schedule).write_gate == state.write_gate
            && state.run(schedule).sink == state.sink,
    decreases schedule.len(),
{
    if schedule.len() > 0 {
        law_exhausted_gates_guard_nothing(state, schedule.drop_last());
    }
}

} // verus!
