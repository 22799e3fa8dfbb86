//! What the driver of a run decides: how many workers there are, where the
//! output goes, and whether there is an output at all once the workers have
//! come back.

use vstd::prelude::*;
use vstd::string::StringExecFns;
use crate::codec::gzip_stream;
use crate::codec::stream_finished;
use crate::error::PipelineError;
use crate::sink::ChunkSink;

verus! {

/// `num_cpus::get`: the number of logical CPUs that this process may use. It
/// differs from machine to machine and from run to run; all that is claimed
/// is what its documentation promises, that it is at least 1.
#[verifier::external_body]
fn available_cpus() -> (count: usize)
    ensures
        count >= 1,
{
    num_cpus::get()
}

/// The number of workers for a run: the number that was asked for if one
/// was, else the number of CPUs that are available. A run needs at least one
/// worker; a number of zero is refused.
pub fn resolve_worker_count(requested: Option<usize>, available: usize) -> (outcome: Result<usize, PipelineError>)
    ensures
        outcome == match requested {
            Some(number) => if number == 0 {
                Err::<usize, PipelineError>(PipelineError::NoWorkers)
            } else {
                Ok::<usize, PipelineError>(number)
            },
            None => if available == 0 {
                Err::<usize, PipelineError>(PipelineError::NoWorkers)
            } else {
                Ok::<usize, PipelineError>(available)
            },
        },
{
    let count = match requested {
        Some(number) => number,
        None => available,
    };
    if count == 0 {
        Err(PipelineError::NoWorkers)
    } else {
        Ok(count)
    }
}

/// The number of workers for a run on this machine: the number that was
/// asked for if one was, else one worker for each available CPU, which is at
/// least one worker. A request for no worker at all is refused.
pub fn worker_count(requested: Option<usize>) -> (outcome: Result<usize, PipelineError>)
    ensures
        match requested {
            Some(number) => outcome == if number == 0 {
                Err::<usize, PipelineError>(PipelineError::NoWorkers)
            } else {
                Ok::<usize, PipelineError>(number)
            },
            None => outcome matches Ok(count) && count >= 1,
        },
{
    match requested {
        Some(number) => resolve_worker_count(requested, number),
        None => resolve_worker_count(requested, available_cpus()),
    }
}

/// The suffix that marks a compressed file.
pub open spec fn output_suffix() -> Seq<char> {
    ".gz"@
}

/// Where the output for the input at `input` goes: the same path with the
/// suffix `.gz` appended.
pub fn output_path(input: &str) -> (path: String)
    ensures
        path@ == input@ + output_suffix(),
{
    String::from_str(input).concat(".gz")
}

/// The first failure among the outcomes of the workers, taken in the order
/// of their slots, if any of them failed.
pub open spec fn first_failure(outcomes: Seq<Result<(), PipelineError>>) -> Option<PipelineError>
    decreases outcomes.len(),
{
    if outcomes.len() == 0 {
        None
    } else {
        match outcomes.first() {
            Err(error) => Some(error),
            Ok(_) => first_failure(outcomes.drop_first()),
        }
    }
}

/// The first failure is a failure of some worker, every worker before it
/// succeeded, and there is none only if every worker succeeded.
pub proof fn law_first_failure(outcomes: Seq<Result<(), PipelineError>>)
    ensures
        match first_failure(outcomes) {
            Some(error) => exists|slot: int|
                0 <= slot < outcomes.len() && #[trigger] outcomes[slot] == Err::<(), PipelineError>(error)
                    && forall|earlier: int| 0 <= earlier < slot ==> (#[trigger] outcomes[earlier]) is Ok,
            None => forall|slot: int| 0 <= slot < outcomes.len() ==> (#[trigger] outcomes[slot]) is Ok,
        },
    decreases outcomes.len(),
{
    if outcomes.len() > 0 {
        let rest = outcomes.drop_first();
        law_first_failure(rest);
        match outcomes.first() {
            Err(error) => {
                assert(outcomes[0] == Err::<(), PipelineError>(error));
            },
            Ok(_) => {
                match first_failure(rest) {
                    Some(error) => {
                        let slot = choose|slot: int|
                            0 <= slot < rest.len() && #[trigger] rest[slot] == Err::<(), PipelineError>(error)
                                && forall|earlier: int| 0 <= earlier < slot ==> (#[trigger] rest[earlier]) is Ok;
                        assert(outcomes[slot + 1] == rest[slot]);
                        assert forall|earlier: int| 0 <= earlier < slot + 1 implies (#[trigger] outcomes[earlier]) is Ok by {
                            if earlier > 0 {
                                assert(outcomes[earlier] == rest[earlier - 1]);
                            }
                        }
                    },
                    None => {
                        assert forall|slot: int| 0 <= slot < outcomes.len() implies (#[trigger] outcomes[slot]) is Ok by {
                            if slot > 0 {
                                assert(outcomes[slot] == rest[slot - 1]);
                            }
                        }
                    },
                }
            },
        }
    }
}

/// Looks through the outcomes of the workers for the first failure.
pub fn find_failure(outcomes: &[Result<(), PipelineError>]) -> (failure: Option<PipelineError>)
    ensures
        failure == first_failure(outcomes@),
{
    let mut slot: usize = 0;
    assert(outcomes@.skip(0) == outcomes@);
    while slot < outcomes.len()
        invariant
            slot <= outcomes.len(),
            first_failure(outcomes@) == first_failure(outcomes@.skip(slot as int)),
        decreases outcomes.len() - slot,
    {
        proof {
            let rest = outcomes@.skip(slot as int);
            assert(rest.first() == outcomes@[slot as int]);
            assert(rest.drop_first() == outcomes@.skip(slot + 1));
        }
        match outcomes[slot] {
            Err(error) => {
                return Some(error);
            },
            Ok(_) => {},
        }
        slot += 1;
    }
    None
}

/// Ends a run whose workers have all come back. If no worker came back, or
/// if any worker failed, there is no output: the run fails for want of
/// workers, or as the first failed worker did, and the sink is dropped
/// unfinished. Otherwise the sink is finished, which succeeds exactly when
/// the encoder can be finished.
pub fn conclude(outcomes: &[Result<(), PipelineError>], sink: ChunkSink) -> (outcome: Result<Vec<u8>, PipelineError>)
    ensures
        outcome is Ok <==> outcomes@.len() > 0 && first_failure(outcomes@) is None && stream_finished(sink@),
        match outcome {
            Ok(bytes) => gzip_stream(sink@) == Some(bytes@),
            Err(error) => if outcomes@.len() == 0 {
                error == PipelineError::NoWorkers
            } else {
                match first_failure(outcomes@) {
                    Some(failure) => error == failure,
                    None => error == PipelineError::SinkFailed,
                }
            },
        },
{
    if outcomes.len() == 0 {
        return Err(PipelineError::NoWorkers);
    }
    match find_failure(outcomes) {
        Some(error) => Err(error),
        None => sink.finish(),
    }
}

} // verus!
