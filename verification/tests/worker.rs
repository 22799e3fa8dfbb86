use std::io::Read;

use flate2::read::GzDecoder;
use turngate::error::PipelineError;
use turngate::gate::Admission;
use turngate::gate::TurnGate;
use turngate::sink::append_outcome;
use turngate::sink::finish_outcome;
use turngate::sink::ChunkSink;
use turngate::source::read_outcome;
use turngate::source::ChunkSource;
use turngate::worker::Phase;
use turngate::worker::Progress;
use turngate::worker::Worker;

fn gunzip(bytes: &[u8]) -> Vec<u8> {
    let mut decoder = GzDecoder::new(bytes);
    let mut plain = Vec::new();
    decoder.read_to_end(&mut plain).unwrap();
    plain
}

#[test]
fn source_hands_out_full_chunks_then_a_short_one() {
    let mut source = ChunkSource::new(vec![1, 2, 3, 4, 5, 6, 7], 3).unwrap();
    assert_eq!(source.chunk_size(), 3);
    assert_eq!(source.position(), 0);
    assert_eq!(source.read_chunk(), vec![1, 2, 3]);
    assert_eq!(source.position(), 3);
    assert_eq!(source.read_chunk(), vec![4, 5, 6]);
    assert_eq!(source.read_chunk(), vec![7]);
    assert_eq!(source.position(), 7);
    assert_eq!(source.read_chunk(), Vec::<u8>::new());
    assert_eq!(source.position(), 7);
}

#[test]
fn source_ends_with_an_empty_chunk_when_the_input_divides_evenly() {
    let mut source = ChunkSource::new(vec![9, 8, 7, 6], 2).unwrap();
    assert_eq!(source.read_chunk(), vec![9, 8]);
    assert_eq!(source.read_chunk(), vec![7, 6]);
    assert_eq!(source.read_chunk(), Vec::<u8>::new());
}

#[test]
fn source_of_nothing_hands_out_an_empty_chunk() {
    let mut source = ChunkSource::new(Vec::new(), 4).unwrap();
    assert_eq!(source.read_chunk(), Vec::<u8>::new());
    assert_eq!(source.position(), 0);
}

#[test]
fn source_refuses_a_chunk_size_of_zero() {
    assert!(matches!(ChunkSource::new(vec![1, 2, 3], 0), Err(PipelineError::ZeroChunkSize)));
    assert!(matches!(ChunkSource::new(Vec::new(), 0), Err(PipelineError::ZeroChunkSize)));
}

#[test]
fn read_outcome_passes_the_length_and_names_the_failure() {
    assert_eq!(read_outcome(Ok(17)), Ok(17));
    assert_eq!(read_outcome(Ok(0)), Ok(0));
    let failure = std::io::Error::new(std::io::ErrorKind::Other, "unreadable");
    assert_eq!(read_outcome(Err(failure)), Err(PipelineError::SourceFailed));
}

#[test]
fn sink_outcomes_name_the_failure() {
    assert_eq!(append_outcome(Ok(())), Ok(()));
    let failure = std::io::Error::new(std::io::ErrorKind::Other, "refused");
    assert_eq!(append_outcome(Err(failure)), Err(PipelineError::SinkFailed));
    assert_eq!(finish_outcome(Ok(vec![1, 2, 3])), Ok(vec![1, 2, 3]));
    let failure = std::io::Error::new(std::io::ErrorKind::Other, "unfinished");
    assert_eq!(finish_outcome(Err(failure)), Err(PipelineError::SinkFailed));
}

#[test]
fn sink_compresses_what_it_was_given_in_order() {
    let mut sink = ChunkSink::new();
    assert_eq!(sink.append(b"first "), Ok(()));
    assert_eq!(sink.append(b""), Ok(()));
    assert_eq!(sink.append(b"second"), Ok(()));
    let stream = sink.finish().unwrap();
    assert_ne!(stream, b"first second".to_vec());
    assert_eq!(&stream[..2], &[0x1f, 0x8b]);
    assert_eq!(gunzip(&stream), b"first second".to_vec());
}

#[test]
fn sink_without_payloads_finishes_to_an_empty_member() {
    let stream = ChunkSink::new().finish().unwrap();
    assert!(!stream.is_empty());
    assert_eq!(gunzip(&stream), Vec::<u8>::new());
}

#[test]
fn equal_payloads_give_equal_streams() {
    let mut one = ChunkSink::new();
    let mut other = ChunkSink::new();
    for sink in [&mut one, &mut other] {
        sink.append(b"abc").unwrap();
        sink.append(b"defg").unwrap();
    }
    assert_eq!(one.finish().unwrap(), other.finish().unwrap());
}

#[test]
fn new_worker_is_reading() {
    let worker = Worker::new(3);
    assert_eq!(worker.slot(), 3);
    assert_eq!(worker.phase(), Phase::Reading);
    assert!(!worker.is_done());
    assert!(!worker.read_last());
}

#[test]
fn worker_goes_through_its_phases() {
    let mut read_gate = TurnGate::new(1);
    let mut write_gate = TurnGate::new(1);
    let mut source = ChunkSource::new(vec![1, 2, 3, 4, 5], 4).unwrap();
    let mut sink = ChunkSink::new();
    let mut worker = Worker::new(0);

    assert_eq!(worker.read_step(&mut read_gate, &mut source), Ok(Progress::Advanced));
    assert_eq!(worker.phase(), Phase::Transforming);
    assert!(!worker.read_last());
    assert_eq!(read_gate.turn(), 2);
    assert_eq!(worker.transform_step(), Progress::Advanced);
    assert_eq!(worker.phase(), Phase::Writing);
    assert_eq!(worker.write_step(&mut write_gate, &mut sink), Ok(Progress::Advanced));
    assert_eq!(worker.phase(), Phase::Reading);
    assert_eq!(write_gate.turn(), 2);
    assert!(!write_gate.is_exhausted());

    assert_eq!(worker.read_step(&mut read_gate, &mut source), Ok(Progress::Advanced));
    assert!(worker.read_last());
    assert!(read_gate.is_exhausted());
    assert_eq!(worker.transform_step(), Progress::Advanced);
    assert_eq!(worker.write_step(&mut write_gate, &mut sink), Ok(Progress::Advanced));
    assert_eq!(worker.phase(), Phase::Done);
    assert!(worker.is_done());
    assert!(write_gate.is_exhausted());
    assert_eq!(write_gate.turn(), 3);

    assert_eq!(gunzip(&sink.finish().unwrap()), vec![1, 2, 3, 4, 5]);
}

#[test]
fn steps_out_of_phase_are_idle() {
    let mut read_gate = TurnGate::new(1);
    let mut write_gate = TurnGate::new(1);
    let mut source = ChunkSource::new(vec![1, 2, 3], 2).unwrap();
    let mut sink = ChunkSink::new();
    let mut worker = Worker::new(0);

    assert_eq!(worker.transform_step(), Progress::Idle);
    assert_eq!(worker.write_step(&mut write_gate, &mut sink), Ok(Progress::Idle));
    assert_eq!(worker.phase(), Phase::Reading);
    assert_eq!(write_gate.turn(), 1);

    worker.read_step(&mut read_gate, &mut source).unwrap();
    assert_eq!(worker.read_step(&mut read_gate, &mut source), Ok(Progress::Idle));
    assert_eq!(read_gate.turn(), 2);
    assert_eq!(source.position(), 2);
    assert_eq!(worker.write_step(&mut write_gate, &mut sink), Ok(Progress::Idle));

    worker.retire();
    assert_eq!(worker.read_step(&mut read_gate, &mut source), Ok(Progress::Idle));
    assert_eq!(worker.transform_step(), Progress::Idle);
    assert_eq!(worker.write_step(&mut write_gate, &mut sink), Ok(Progress::Idle));
}

#[test]
fn worker_waits_while_the_turn_is_another_slots() {
    let mut read_gate = TurnGate::new(2);
    let mut source = ChunkSource::new(vec![1, 2, 3, 4], 2).unwrap();
    let mut early = Worker::new(0);
    let mut first = Worker::new(1);
    assert_eq!(early.read_step(&mut read_gate, &mut source), Ok(Progress::Idle));
    assert_eq!(early.phase(), Phase::Reading);
    assert_eq!(source.position(), 0);
    assert_eq!(first.read_step(&mut read_gate, &mut source), Ok(Progress::Advanced));
    assert_eq!(early.read_step(&mut read_gate, &mut source), Ok(Progress::Advanced));
    assert_eq!(source.position(), 4);
}

#[test]
fn worker_retires_on_an_exhausted_read_gate() {
    let mut read_gate = TurnGate::new(2);
    let mut source = ChunkSource::new(vec![1], 2).unwrap();
    let mut first = Worker::new(1);
    let mut second = Worker::new(0);
    assert_eq!(first.read_step(&mut read_gate, &mut source), Ok(Progress::Advanced));
    assert!(read_gate.is_exhausted());
    assert_eq!(second.read_step(&mut read_gate, &mut source), Ok(Progress::Advanced));
    assert_eq!(second.phase(), Phase::Done);
    assert_eq!(read_gate.turn(), 2);
    assert_eq!(source.position(), 1);
}

#[test]
fn worker_with_an_unknown_slot_is_refused() {
    let mut read_gate = TurnGate::new(2);
    let mut source = ChunkSource::new(vec![1, 2, 3], 2).unwrap();
    let mut stranger = Worker::new(2);
    assert_eq!(stranger.read_step(&mut read_gate, &mut source), Err(PipelineError::NotAdmitted));
    assert_eq!(stranger.phase(), Phase::Reading);
    assert_eq!(read_gate.turn(), 1);
}

#[test]
fn writing_worker_meets_a_closed_gate() {
    let mut read_gate = TurnGate::new(1);
    let mut write_gate = TurnGate::new(1);
    let mut source = ChunkSource::new(vec![1, 2, 3], 2).unwrap();
    let mut sink = ChunkSink::new();
    let mut worker = Worker::new(0);
    worker.read_step(&mut read_gate, &mut source).unwrap();
    worker.transform_step();
    write_gate.close();
    assert_eq!(worker.write_step(&mut write_gate, &mut sink), Err(PipelineError::ClosedEarly));
    assert_eq!(worker.phase(), Phase::Writing);
    assert_eq!(write_gate.turn(), 1);
    assert_eq!(gunzip(&sink.finish().unwrap()), Vec::<u8>::new());
}

#[test]
fn worker_stops_at_a_counter_at_its_limit() {
    let mut read_gate = TurnGate::resume(usize::MAX, 1);
    let mut source = ChunkSource::new(vec![1, 2, 3], 2).unwrap();
    let mut worker = Worker::new(0);
    assert_eq!(worker.read_step(&mut read_gate, &mut source), Err(PipelineError::TurnOverflow));
    assert_eq!(worker.phase(), Phase::Reading);
    assert_eq!(source.position(), 0);

    let mut read_gate = TurnGate::new(1);
    let mut write_gate = TurnGate::resume(usize::MAX, 1);
    let mut sink = ChunkSink::new();
    worker.read_step(&mut read_gate, &mut source).unwrap();
    worker.transform_step();
    assert_eq!(worker.write_step(&mut write_gate, &mut sink), Err(PipelineError::TurnOverflow));
    assert_eq!(worker.phase(), Phase::Writing);
    assert_eq!(gunzip(&sink.finish().unwrap()), Vec::<u8>::new());
}

#[test]
fn accept_chunk_completes_the_granted_turn() {
    let mut gate = TurnGate::new(2);
    let mut worker = Worker::new(1);
    assert_eq!(gate.request_turn(1), Admission::Granted);
    assert_eq!(worker.accept_chunk(&mut gate, vec![5, 6, 7, 8], 4), Ok(()));
    assert_eq!(worker.phase(), Phase::Transforming);
    assert!(!worker.read_last());
    assert!(!gate.is_exhausted());
    assert_eq!(gate.turn(), 2);
}

#[test]
fn accept_chunk_takes_a_short_chunk_as_the_last() {
    let mut gate = TurnGate::new(1);
    let mut worker = Worker::new(0);
    assert_eq!(worker.accept_chunk(&mut gate, vec![5, 6, 7], 4), Ok(()));
    assert!(worker.read_last());
    assert!(gate.is_exhausted());
    assert_eq!(gate.turn(), 2);
}

#[test]
fn accept_chunk_is_refused_without_a_turn() {
    let mut gate = TurnGate::new(2);
    let mut worker = Worker::new(0);
    assert_eq!(worker.accept_chunk(&mut gate, vec![1], 4), Err(PipelineError::NotAdmitted));
    assert_eq!(worker.phase(), Phase::Reading);
    assert_eq!(gate.turn(), 1);
    assert!(!gate.is_exhausted());

    let mut owner = Worker::new(1);
    assert_eq!(owner.accept_chunk(&mut gate, vec![1, 2, 3, 4], 4), Ok(()));
    // It holds a chunk now and cannot take another.
    let mut alone = TurnGate::resume(3, 2);
    assert_eq!(owner.accept_chunk(&mut alone, vec![1], 4), Err(PipelineError::NotAdmitted));
    assert_eq!(alone.turn(), 3);
}

#[test]
fn begin_read_tells_the_worker_what_to_do() {
    let mut gate = TurnGate::new(2);
    let mut first = Worker::new(1);
    let mut second = Worker::new(0);
    assert_eq!(second.begin_read(&gate), Ok(Admission::Wait));
    assert_eq!(second.phase(), Phase::Reading);
    assert_eq!(first.begin_read(&gate), Ok(Admission::Granted));
    assert_eq!(first.phase(), Phase::Reading);
    assert_eq!(gate.turn(), 1);
    assert_eq!(first.accept_chunk(&mut gate, vec![1, 2], 4), Ok(()));
    // A worker that holds a chunk has nothing to read.
    assert_eq!(first.begin_read(&gate), Ok(Admission::Wait));
    assert_eq!(first.phase(), Phase::Transforming);
    assert_eq!(second.begin_read(&gate), Ok(Admission::Exhausted));
    assert_eq!(second.phase(), Phase::Done);
    assert_eq!(second.begin_read(&gate), Ok(Admission::Wait));
}

#[test]
fn begin_read_refuses_what_cannot_be_granted() {
    let gate = TurnGate::new(2);
    let mut stranger = Worker::new(2);
    assert_eq!(stranger.begin_read(&gate), Err(PipelineError::NotAdmitted));
    let nobody = TurnGate::new(0);
    let mut worker = Worker::new(0);
    assert_eq!(worker.begin_read(&nobody), Err(PipelineError::NotAdmitted));
    let full = TurnGate::resume(usize::MAX, 1);
    assert_eq!(worker.begin_read(&full), Err(PipelineError::TurnOverflow));
    assert_eq!(worker.phase(), Phase::Reading);
}

#[test]
fn a_reader_outside_the_library_feeds_the_workers() {
    // Two workers share an input that is read for them chunk by chunk.
    let input: Vec<u8> = (0..=255u8).cycle().take(2500).collect();
    let mut position = 0;
    let mut read_gate = TurnGate::new(2);
    let mut write_gate = TurnGate::new(2);
    let mut sink = ChunkSink::new();
    let mut workers = vec![Worker::new(0), Worker::new(1)];
    let mut rounds = 0;
    while !workers.iter().all(|worker| worker.is_done()) {
        rounds += 1;
        assert!(rounds < 1000);
        for worker in workers.iter_mut() {
            match worker.phase() {
                Phase::Reading => {
                    if worker.begin_read(&read_gate).unwrap() == Admission::Granted {
                        let end = usize::min(position + 1000, input.len());
                        let chunk = input[position..end].to_vec();
                        position = end;
                        worker.accept_chunk(&mut read_gate, chunk, 1000).unwrap();
                    }
                }
                Phase::Transforming => {
                    worker.transform_step();
                }
                Phase::Writing => {
                    worker.write_step(&mut write_gate, &mut sink).unwrap();
                }
                Phase::Done => {}
            }
        }
    }
    assert_eq!(read_gate.turn(), 4);
    assert_eq!(write_gate.turn(), 4);
    assert!(read_gate.is_exhausted());
    assert!(write_gate.is_exhausted());
    assert_eq!(gunzip(&sink.finish().unwrap()), input);
}
