//! The gzip encoder of `flate2`, as the sink sees it.
//!
//! Nothing in this file is proved: each item states what the encoder is
//! taken to do, and the rest of the crate is verified against these statements.

use vstd::prelude::*;
use std::io::Write;
use flate2::write::GzEncoder;
use flate2::Compression;

verus! {

/// `std::io::Error`, carried through unread.
#[verifier::external_type_specification]
#[verifier::external_body]
pub struct ExIoError(std::io::Error);

/// A `flate2::write::GzEncoder` that compresses into a `Vec<u8>`. The
/// verifier sees nothing inside it; what it has accepted is `encoder_input`.
#[verifier::external_body]
pub struct Encoder {
    inner: GzEncoder<Vec<u8>>,
}

/// The payloads an encoder has accepted so far, one entry per completed
/// `write_all`, oldest first.
pub uninterp spec fn encoder_input(encoder: Encoder) -> Seq<Seq<u8>>;

/// Whether `write_all` succeeds for `payload` on an encoder that was created
/// by `begin_stream` and has accepted `accepted` so far. The encoder writes
/// into memory only, so its answer depends on nothing else.
pub uninterp spec fn feed_accepted(accepted: Seq<Seq<u8>>, payload: Seq<u8>) -> bool;

/// What `GzEncoder::finish` answers for an encoder that was created by
/// `begin_stream` and then accepted `payloads` in order: the finished gzip
/// stream, or nothing where finishing fails.
pub uninterp spec fn gzip_stream(payloads: Seq<Seq<u8>>) -> Option<Seq<u8>>;

/// Whether an encoder that has accepted `payloads` can be finished.
pub open spec fn stream_finished(payloads: Seq<Seq<u8>>) -> bool {
    gzip_stream(payloads) is Some
}

/// `GzEncoder::new` over an empty `Vec<u8>` at `Compression::default()`:
/// the fresh encoder has accepted nothing.
#[verifier::external_body]
pub(crate) fn begin_stream() -> (encoder: Encoder)
    ensures
        encoder_input(encoder) == Seq::<Seq<u8>>::empty(),
{
    Encoder { inner: GzEncoder::new(Vec::new(), Compression::default()) }
}

/// `Write::write_all` on the encoder. Whether it succeeds is `feed_accepted`
/// of what the encoder had accepted and of `payload`. When it does, the whole
/// of `payload` has been accepted after everything accepted before. Nothing
/// is claimed of the encoder after a failure.
#[verifier::external_body]
pub(crate) fn feed(encoder: &mut Encoder, payload: &[u8]) -> (outcome: Result<(), std::io::Error>)
    ensures
        outcome is Ok <==> feed_accepted(encoder_input(*old(encoder)), payload@),
        outcome is Ok ==> encoder_input(*final(encoder)) == encoder_input(*old(encoder)).push(payload@),
{
    encoder.inner.write_all(payload)
}

/// `GzEncoder::finish`: its answer is `gzip_stream` of what the encoder had
/// accepted, the bytes of the finished stream on success and nothing on
/// failure.
#[verifier::external_body]
pub(crate) fn end_stream(encoder: Encoder) -> (outcome: Result<Vec<u8>, std::io::Error>)
    ensures
        match outcome {
            Ok(bytes) => gzip_stream(encoder_input(encoder)) == Some(bytes@),
            Err(_) => gzip_stream(encoder_input(encoder)) is None,
        },
{
    encoder.inner.finish()
}

} // verus!
