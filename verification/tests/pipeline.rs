use std::io::Read;

use flate2::read::GzDecoder;
use turngate::driver::conclude;
use turngate::driver::find_failure;
use turngate::driver::output_path;
use turngate::driver::resolve_worker_count;
use turngate::driver::worker_count;
use turngate::error::PipelineError;
use turngate::pipeline::compress;
use turngate::pipeline::Pipeline;
use turngate::sink::ChunkSink;
use turngate::worker::Progress;
use turngate::DEFAULT_CHUNK_SIZE;

fn gunzip(bytes: &[u8]) -> Vec<u8> {
    let mut decoder = GzDecoder::new(bytes);
    let mut plain = Vec::new();
    decoder.read_to_end(&mut plain).unwrap();
    plain
}

fn noise(length: usize, seed: u64) -> Vec<u8> {
    let mut state = seed;
    let mut bytes = Vec::with_capacity(length);
    for _ in 0..length {
        state = state.wrapping_mul(6364136223846793005).wrapping_add(1442695040888963407);
        bytes.push((state >> 56) as u8);
    }
    bytes
}

fn sequential(input: &[u8], chunk_size: usize) -> Vec<u8> {
    let mut sink = ChunkSink::new();
    let mut start = 0;
    loop {
        let end = usize::min(start + chunk_size, input.len());
        sink.append(&input[start..end]).unwrap();
        if end - start < chunk_size {
            break;
        }
        start = end;
    }
    sink.finish().unwrap()
}

#[test]
fn default_chunk_size_is_256_kib() {
    assert_eq!(DEFAULT_CHUNK_SIZE, 262144);
}

#[test]
fn round_trip_for_every_worker_count() {
    let input = noise(10_000, 1);
    for workers in [1usize, 2, 3, 4, 8, 64] {
        let stream = compress(input.clone(), 1024, workers).unwrap();
        assert_eq!(gunzip(&stream), input, "workers = {}", workers);
    }
}

#[test]
fn output_is_identical_across_worker_counts() {
    let input = noise(50_000, 2);
    let reference = compress(input.clone(), 4096, 1).unwrap();
    for workers in [2usize, 8, 64] {
        assert_eq!(compress(input.clone(), 4096, workers).unwrap(), reference, "workers = {}", workers);
    }
}

#[test]
fn output_is_what_one_reader_would_write() {
    let input = noise(9_999, 3);
    assert_eq!(compress(input.clone(), 1000, 5).unwrap(), sequential(&input, 1000));
    assert_eq!(compress(input.clone(), 3333, 2).unwrap(), sequential(&input, 3333));
}

#[test]
fn input_that_divides_evenly_into_chunks() {
    let input = noise(4096, 4);
    for workers in [1usize, 2, 8] {
        let mut pipeline = Pipeline::new(input.clone(), 1024, workers).unwrap();
        pipeline.run_to_completion().unwrap();
        // Four full chunks and the empty one that ends the input.
        assert_eq!(pipeline.chunks_read(), 5);
        assert_eq!(pipeline.chunks_written(), 5);
        assert_eq!(gunzip(&pipeline.finish().unwrap()), input);
    }
}

#[test]
fn empty_input() {
    for workers in [1usize, 2, 8, 64] {
        let mut pipeline = Pipeline::new(Vec::new(), 1024, workers).unwrap();
        pipeline.run_to_completion().unwrap();
        assert_eq!(pipeline.chunks_written(), 1);
        let stream = pipeline.finish().unwrap();
        assert!(!stream.is_empty());
        assert_eq!(gunzip(&stream), Vec::<u8>::new());
    }
}

#[test]
fn input_smaller_than_one_chunk() {
    let input = noise(100, 5);
    for workers in [1usize, 2, 8, 64] {
        let mut pipeline = Pipeline::new(input.clone(), 1024, workers).unwrap();
        pipeline.run_to_completion().unwrap();
        assert_eq!(pipeline.chunks_written(), 1);
        assert_eq!(gunzip(&pipeline.finish().unwrap()), input);
    }
}

#[test]
fn three_hundred_thousand_bytes_make_two_chunks() {
    let input = noise(300_000, 6);
    let mut pipeline = Pipeline::new(input.clone(), 256 * 1024, 4).unwrap();
    assert_eq!(pipeline.worker_count(), 4);
    pipeline.run_to_completion().unwrap();
    assert!(pipeline.is_complete());
    assert_eq!(pipeline.chunks_read(), 2);
    assert_eq!(pipeline.chunks_written(), 2);
    let stream = pipeline.finish().unwrap();
    let plain = gunzip(&stream);
    assert_eq!(plain.len(), 300_000);
    assert_eq!(plain, input);
}

#[test]
fn chunk_count_is_quotient_plus_one() {
    for (length, chunk_size, expected) in [(0usize, 7usize, 1usize), (6, 7, 1), (7, 7, 2), (8, 7, 2), (70, 7, 11), (75, 7, 11)] {
        let mut pipeline = Pipeline::new(noise(length, 7), chunk_size, 3).unwrap();
        pipeline.run_to_completion().unwrap();
        assert_eq!(pipeline.chunks_written(), expected);
        assert_eq!(pipeline.chunks_written(), length / chunk_size + 1);
    }
}

#[test]
fn chunk_size_of_one() {
    let input = noise(37, 8);
    assert_eq!(gunzip(&compress(input.clone(), 1, 4).unwrap()), input);
}

#[test]
fn chunk_size_of_zero_is_refused() {
    assert_eq!(compress(vec![1, 2, 3], 0, 2), Err(PipelineError::ZeroChunkSize));
    assert_eq!(compress(Vec::new(), 0, 0), Err(PipelineError::ZeroChunkSize));
    assert!(matches!(Pipeline::new(vec![1, 2, 3], 0, 2), Err(PipelineError::ZeroChunkSize)));
}

#[test]
fn a_run_without_workers_is_refused() {
    assert!(matches!(Pipeline::new(vec![1, 2, 3], 2, 0), Err(PipelineError::NoWorkers)));
    assert!(matches!(Pipeline::new(Vec::new(), 2, 0), Err(PipelineError::NoWorkers)));
    assert_eq!(compress(vec![1, 2, 3], 2, 0), Err(PipelineError::NoWorkers));
    assert_eq!(compress(Vec::new(), 1024, 0), Err(PipelineError::NoWorkers));
    // One worker is enough.
    assert_eq!(gunzip(&compress(vec![1, 2, 3], 2, 1).unwrap()), vec![1, 2, 3]);
}

#[test]
fn unfinished_run_has_no_output() {
    let pipeline = Pipeline::new(vec![1, 2, 3], 2, 2).unwrap();
    assert!(!pipeline.is_complete());
    assert_eq!(pipeline.finish(), Err(PipelineError::Incomplete));

    let mut pipeline = Pipeline::new(vec![1, 2, 3], 2, 2).unwrap();
    pipeline.run_schedule(&[1, 1, 1, 0, 0]).unwrap();
    assert!(!pipeline.is_complete());
    assert_eq!(pipeline.finish(), Err(PipelineError::Incomplete));
}

#[test]
fn attempts_out_of_turn_are_idle() {
    let mut pipeline = Pipeline::new(noise(10, 9), 4, 3).unwrap();
    // The first read turn belongs to slot 1.
    assert_eq!(pipeline.step(0), Ok(Progress::Idle));
    assert_eq!(pipeline.step(2), Ok(Progress::Idle));
    assert_eq!(pipeline.step(7), Ok(Progress::Idle));
    assert_eq!(pipeline.chunks_read(), 0);
    assert_eq!(pipeline.step(1), Ok(Progress::Advanced));
    assert_eq!(pipeline.chunks_read(), 1);
    assert_eq!(pipeline.chunks_written(), 0);
    // Slot 2 may read while slot 1 still holds its chunk.
    assert_eq!(pipeline.step(2), Ok(Progress::Advanced));
    assert_eq!(pipeline.chunks_read(), 2);
    // Slot 2 prepares its chunk but has to wait for slot 1 to write first.
    assert_eq!(pipeline.step(2), Ok(Progress::Advanced));
    assert_eq!(pipeline.step(2), Ok(Progress::Idle));
    assert_eq!(pipeline.chunks_written(), 0);
    assert_eq!(pipeline.step(1), Ok(Progress::Advanced));
    assert_eq!(pipeline.step(1), Ok(Progress::Advanced));
    assert_eq!(pipeline.chunks_written(), 1);
    assert_eq!(pipeline.step(2), Ok(Progress::Advanced));
    assert_eq!(pipeline.chunks_written(), 2);
}

#[test]
fn any_schedule_gives_the_same_output() {
    let input = noise(5_000, 10);
    let reference = compress(input.clone(), 512, 1).unwrap();
    for workers in [2usize, 3, 8] {
        for seed in 0..20u64 {
            let schedule: Vec<usize> = noise(400, 100 + seed).into_iter().map(|byte| byte as usize % (workers + 1)).collect();
            let mut pipeline = Pipeline::new(input.clone(), 512, workers).unwrap();
            pipeline.run_schedule(&schedule).unwrap();
            assert!(pipeline.chunks_written() <= pipeline.chunks_read());
            pipeline.run_to_completion().unwrap();
            assert!(pipeline.is_complete());
            assert_eq!(pipeline.chunks_written(), 5_000 / 512 + 1);
            assert_eq!(pipeline.finish().unwrap(), reference);
        }
    }
}

#[test]
fn a_schedule_that_starves_a_slot_stalls_but_loses_nothing() {
    let input = noise(1_000, 11);
    let mut pipeline = Pipeline::new(input.clone(), 100, 3).unwrap();
    // Slot 0 never runs, so no more than the turns before its first can pass.
    let schedule: Vec<usize> = (0..300).map(|index| 1 + index % 2).collect();
    pipeline.run_schedule(&schedule).unwrap();
    assert_eq!(pipeline.chunks_read(), 2);
    assert_eq!(pipeline.chunks_written(), 2);
    assert!(!pipeline.is_complete());
    pipeline.run_to_completion().unwrap();
    assert_eq!(gunzip(&pipeline.finish().unwrap()), input);
}

#[test]
fn completed_run_stays_as_it_is() {
    let input = noise(300, 12);
    let mut pipeline = Pipeline::new(input.clone(), 64, 4).unwrap();
    pipeline.run_to_completion().unwrap();
    let read = pipeline.chunks_read();
    let written = pipeline.chunks_written();
    for slot in 0..6 {
        assert_eq!(pipeline.step(slot), Ok(Progress::Idle));
    }
    pipeline.run_schedule(&[3, 2, 1, 0, 0, 1, 2, 3]).unwrap();
    pipeline.run_to_completion().unwrap();
    assert_eq!(pipeline.chunks_read(), read);
    assert_eq!(pipeline.chunks_written(), written);
    assert_eq!(gunzip(&pipeline.finish().unwrap()), input);
}

#[test]
fn worker_count_is_the_request_or_the_machine() {
    assert_eq!(resolve_worker_count(Some(3), 8), Ok(3));
    assert_eq!(resolve_worker_count(Some(1), 0), Ok(1));
    assert_eq!(resolve_worker_count(None, 8), Ok(8));
    assert_eq!(worker_count(Some(5)), Ok(5));
    assert_eq!(worker_count(Some(64)), Ok(64));
    assert!(worker_count(None).unwrap() >= 1);
}

#[test]
fn a_worker_count_of_zero_is_refused() {
    assert_eq!(resolve_worker_count(Some(0), 8), Err(PipelineError::NoWorkers));
    assert_eq!(resolve_worker_count(None, 0), Err(PipelineError::NoWorkers));
    assert_eq!(worker_count(Some(0)), Err(PipelineError::NoWorkers));
}

#[test]
fn output_path_appends_the_suffix() {
    assert_eq!(output_path("data.bin"), "data.bin.gz");
    assert_eq!(output_path("/tmp/archive.gz"), "/tmp/archive.gz.gz");
    assert_eq!(output_path(""), ".gz");
}

#[test]
fn first_failure_is_reported() {
    assert_eq!(find_failure(&[]), None);
    assert_eq!(find_failure(&[Ok(()), Ok(())]), None);
    assert_eq!(
        find_failure(&[Ok(()), Err(PipelineError::SourceFailed), Err(PipelineError::ClosedEarly)]),
        Some(PipelineError::SourceFailed)
    );
    assert_eq!(find_failure(&[Err(PipelineError::WorkerLost), Ok(())]), Some(PipelineError::WorkerLost));
}

#[test]
fn conclude_finishes_only_a_clean_run() {
    let mut sink = ChunkSink::new();
    sink.append(b"payload").unwrap();
    assert_eq!(gunzip(&conclude(&[Ok(()), Ok(())], sink).unwrap()), b"payload".to_vec());

    let mut sink = ChunkSink::new();
    sink.append(b"payload").unwrap();
    assert_eq!(
        conclude(&[Ok(()), Err(PipelineError::SinkFailed), Err(PipelineError::WorkerLost)], sink),
        Err(PipelineError::SinkFailed)
    );
}

#[test]
fn conclude_refuses_a_run_that_no_worker_came_back_from() {
    assert_eq!(conclude(&[], ChunkSink::new()), Err(PipelineError::NoWorkers));
    let mut sink = ChunkSink::new();
    sink.append(b"payload").unwrap();
    assert_eq!(conclude(&[], sink), Err(PipelineError::NoWorkers));
}

#[test]
fn a_finished_stream_is_not_its_input() {
    let input = noise(2_000, 13);
    let stream = compress(input.clone(), 500, 3).unwrap();
    assert_ne!(stream, input);
    assert_eq!(&stream[..4], &[0x1f, 0x8b, 8, 0]);
    assert_eq!(gunzip(&stream), input);
}
