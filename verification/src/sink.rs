//! The chunk sink: a gzip encoder that takes payloads one at a time and is
//! finished once, when the last of them is in.

use vstd::prelude::*;
use crate::codec::Encoder;
use crate::codec::begin_stream;
use crate::codec::encoder_input;
use crate::codec::end_stream;
use crate::codec::feed;
use crate::codec::feed_accepted;
use crate::codec::gzip_stream;
use crate::codec::stream_finished;
use crate::error::PipelineError;

verus! {

/// A gzip stream under construction. Its view is the payloads it has taken,
/// oldest first.
pub struct ChunkSink {
    encoder: Encoder,
}

impl View for ChunkSink {
    type V = Seq<Seq<u8>>;

    closed spec fn view(&self) -> Seq<Seq<u8>> {
        encoder_input(self.encoder)
    }
}

/// What the sink reports for an attempt to append, given what the encoder
/// said about it.
pub fn append_outcome(reply: Result<(), std::io::Error>) -> (outcome: Result<(), PipelineError>)
    ensures
        reply is Ok ==> outcome is Ok,
        reply is Err ==> outcome == Err::<(), PipelineError>(PipelineError::SinkFailed),
{
    match reply {
        Ok(_) => Ok(()),
        Err(_) => Err(PipelineError::SinkFailed),
    }
}

/// What the sink reports for an attempt to finish, given what the encoder
/// said about it: the finished stream, untouched, or a failure.
pub fn finish_outcome(reply: Result<Vec<u8>, std::io::Error>) -> (outcome: Result<Vec<u8>, PipelineError>)
    ensures
        match reply {
            Ok(bytes) => outcome == Ok::<Vec<u8>, PipelineError>(bytes),
            Err(_) => outcome == Err::<Vec<u8>, PipelineError>(PipelineError::SinkFailed),
        },
{
    match reply {
        Ok(bytes) => Ok(bytes),
        Err(_) => Err(PipelineError::SinkFailed),
    }
}

impl ChunkSink {
    /// A sink that has taken nothing.
    pub fn new() -> (sink: ChunkSink)
        ensures
            sink@ == Seq::<Seq<u8>>::empty(),
    {
        ChunkSink { encoder: begin_stream() }
    }

    /// Appends one payload. It succeeds exactly when the encoder accepts
    /// the payload after what it has taken; the payload then stands behind
    /// all earlier ones. After a failure nothing is known of what the sink
    /// holds, and the run is lost.
    pub fn append(&mut self, payload: &[u8]) -> (outcome: Result<(), PipelineError>)
        ensures
            outcome is Ok <==> feed_accepted(old(self)@, payload@),
            match outcome {
                Ok(_) => final(self)@ == old(self)@.push(payload@),
                Err(error) => error == PipelineError::SinkFailed,
            },
    {
        let reply = feed(&mut self.encoder, payload);
        append_outcome(reply)
    }

    /// Finishes the stream. It succeeds exactly when the encoder can be
    /// finished after what it has taken; the bytes are then the gzip stream
    /// of the payloads taken.
    pub fn finish(self) -> (outcome: Result<Vec<u8>, PipelineError>)
        ensures
            outcome is Ok <==> stream_finished(self@),
            match outcome {
                Ok(bytes) => gzip_stream(self@) == Some(bytes@),
                Err(error) => error == PipelineError::SinkFailed,
            },
    {
        let reply = end_stream(self.encoder);
        finish_outcome(reply)
    }
}

} // verus!
