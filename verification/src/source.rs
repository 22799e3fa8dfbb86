//! The chunk source: an input held in memory and handed out in chunks of a
//! fixed size, from front to back.

use vstd::prelude::*;
use vstd::slice::slice_subrange;
use vstd::slice::slice_to_vec;
use vstd::arithmetic::div_mod::lemma_div_plus_one;
use vstd::arithmetic::div_mod::lemma_basic_div;
use crate::error::PipelineError;

verus! {

/// The chunks of `data` for chunk size `size`, first to last: as long as at
/// least `size` bytes remain, the next `size` bytes; then what is left, which
/// is shorter than `size` and may be empty. The short chunk at the end is what
/// tells a reader that the input is used up.
pub open spec fn chunks(data: Seq<u8>, size: nat) -> Seq<Seq<u8>>
    decreases data.len(),
{
    if size == 0 || data.len() < size {
        seq![data]
    } else {
        seq![data.take(size as int)] + chunks(data.skip(size as int), size)
    }
}

/// Put one after the other, the chunks of an input are that input.
pub proof fn law_chunks_concatenate_to_input(data: Seq<u8>, size: nat)
    ensures
        chunks(data, size).flatten() == data,
    decreases data.len(),
{
    let all = chunks(data, size);
    if size == 0 || data.len() < size {
        all.lemma_flatten_one_element();
    } else {
        let head = data.take(size as int);
        let tail = chunks(data.skip(size as int), size);
        law_chunks_concatenate_to_input(data.skip(size as int), size);
        assert(all.first() == head);
        assert(all.drop_first() == tail);
        assert(head + data.skip(size as int) == data);
    }
}

/// Every chunk but the last is full, and the last one is short.
pub proof fn law_only_last_chunk_is_short(data: Seq<u8>, size: nat)
    requires
        size > 0,
    ensures
        chunks(data, size).len() >= 1,
        chunks(data, size).last().len() < size,
        forall|i: int| 0 <= i < chunks(data, size).len() - 1 ==> (#[trigger] chunks(data, size)[i]).len() == size,
    decreases data.len(),
{
    if data.len() >= size {
        law_only_last_chunk_is_short(data.skip(size as int), size);
        let tail = chunks(data.skip(size as int), size);
        let all = chunks(data, size);
        assert forall|i: int| 0 <= i < all.len() - 1 implies (#[trigger] all[i]).len() == size by {
            if i > 0 {
                assert(all[i] == tail[i - 1]);
            }
        }
        assert(all.last() == tail.last());
    }
}

/// An input of `n` bytes has `n / size + 1` chunks.
pub proof fn law_chunk_count(data: Seq<u8>, size: nat)
    requires
        size > 0,
    ensures
        chunks(data, size).len() == data.len() / size + 1,
    decreases data.len(),
{
    if data.len() < size {
        lemma_basic_div(data.len() as int, size as int);
    } else {
        let rest = data.skip(size as int);
        law_chunk_count(rest, size);
        lemma_div_plus_one(rest.len() as int, size as int);
    }
}

/// What a worker is told of a read that was made for it, given what the
/// reader said about it: the number of bytes read, untouched, or a failure.
pub fn read_outcome(reply: Result<usize, std::io::Error>) -> (outcome: Result<usize, PipelineError>)
    ensures
        match reply {
            Ok(length) => outcome == Ok::<usize, PipelineError>(length),
            Err(_) => outcome == Err::<usize, PipelineError>(PipelineError::SourceFailed),
        },
{
    match reply {
        Ok(length) => Ok(length),
        Err(_) => Err(PipelineError::SourceFailed),
    }
}

/// What a chunk source is, mathematically.
pub struct SourceState {
    /// The whole input.
    pub data: Seq<u8>,
    /// How many bytes of it have been handed out.
    pub position: nat,
    /// The size of a full chunk.
    pub chunk_size: nat,
}

impl SourceState {
    /// A source that has handed out nothing yet.
    pub open spec fn fresh(data: Seq<u8>, chunk_size: nat) -> SourceState {
        SourceState { data, position: 0, chunk_size }
    }

    /// The bytes that have not been handed out.
    pub open spec fn remaining(self) -> Seq<u8> {
        self.data.skip(self.position as int)
    }

    /// The chunk that the next read hands out.
    pub open spec fn next_chunk(self) -> Seq<u8> {
        if self.remaining().len() < self.chunk_size {
            self.remaining()
        } else {
            self.remaining().take(self.chunk_size as int)
        }
    }

    /// The source after the next read.
    pub open spec fn advanced(self) -> SourceState {
        SourceState {
            data: self.data,
            position: self.position + self.next_chunk().len(),
            chunk_size: self.chunk_size,
        }
    }

    /// The source reads within its input and in chunks of at least one byte.
    pub open spec fn wf(self) -> bool {
        self.position <= self.data.len() && self.chunk_size > 0
    }
}

/// An input in memory together with a read position and a chunk size.
pub struct ChunkSource {
    data: Vec<u8>,
    position: usize,
    chunk_size: usize,
}

impl View for ChunkSource {
    type V = SourceState;

    closed spec fn view(&self) -> SourceState {
        SourceState {
            data: self.data@,
            position: self.position as nat,
            chunk_size: self.chunk_size as nat,
        }
    }
}

impl ChunkSource {
    /// A source over `data` that hands out chunks of `chunk_size` bytes.
    /// A chunk size of zero is refused.
    pub fn new(data: Vec<u8>, chunk_size: usize) -> (outcome: Result<ChunkSource, PipelineError>)
        ensures
            match outcome {
                Ok(source) => chunk_size > 0 && source@ == SourceState::fresh(data@, chunk_size as nat)
                    && source@.wf(),
                Err(error) => chunk_size == 0 && error == PipelineError::ZeroChunkSize,
            },
    {
        if chunk_size == 0 {
            Err(PipelineError::ZeroChunkSize)
        } else {
            Ok(ChunkSource { data, position: 0, chunk_size })
        }
    }

    /// The size of a full chunk.
    pub fn chunk_size(&self) -> (size: usize)
        ensures
            size == self@.chunk_size,
    {
        self.chunk_size
    }

    /// How many bytes have been handed out.
    pub fn position(&self) -> (position: usize)
        ensures
            position == self@.position,
    {
        self.position
    }

    /// Hands out the next chunk: `chunk_size` bytes if that many remain, else
    /// all that remain, which may be none.
    pub fn read_chunk(&mut self) -> (chunk: Vec<u8>)
        requires
            old(self)@.wf(),
        ensures
            chunk@ == old(self)@.next_chunk(),
            final(self)@ == old(self)@.advanced(),
            final(self)@.wf(),
    {
        let length = self.data.len();
        let start = self.position;
        let end = if length - start < self.chunk_size {
            length
        } else {
            start + self.chunk_size
        };
        let chunk = slice_to_vec(slice_subrange(self.data.as_slice(), start, end));
        assert(chunk@ == self@.next_chunk());
        self.position = end;
        chunk
    }
}

} // verus!
