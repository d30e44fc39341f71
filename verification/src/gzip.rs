//! The gzip encoder of `flate2`, writing into memory.
//!
//! Nothing here is proved: the contracts say what the verified code takes
//! from the encoder on trust. The encoder writes into memory, so what it
//! does depends on the chunks it is given and on nothing else. Whether it
//! takes a chunk (`accepts`), whether it can be finished (`finishes`) and
//! what it then has written (`gzip_member`) are known only by name; which
//! chunks it was given, and in which order, is tracked exactly (`taken`).

use flate2::write::GzEncoder;
use flate2::Compression;
use std::io::Write;
use vstd::prelude::*;

verus! {

/// A `flate2::write::GzEncoder` over a `Vec<u8>`. Its fields are hidden
/// from the verifier.
#[verifier::external_body]
pub struct Encoder {
    inner: GzEncoder<Vec<u8>>,
}

/// `std::io::Error`, opaque to the verifier: the error of a failed write
/// is carried to the caller as it is.
#[verifier::external_type_specification]
#[verifier::external_body]
pub struct ExIoError(std::io::Error);

/// The chunks that an encoder has taken in so far, in the order in which
/// it took them.
pub uninterp spec fn taken(encoder: Encoder) -> Seq<Seq<u8>>;

/// Whether an encoder at the default level (6) that has taken in the
/// chunks `before` takes in `chunk` next, all of it, without an error.
pub uninterp spec fn accepts(before: Seq<Seq<u8>>, chunk: Seq<u8>) -> bool;

/// Whether an encoder at the default level (6) that has taken in the
/// chunks `chunks` can be finished without an error.
pub uninterp spec fn finishes(chunks: Seq<Seq<u8>>) -> bool;

/// The bytes that an encoder at the default level (6) leaves in its sink
/// once it has taken in the chunks `chunks`, one write for each, and was
/// finished: a gzip header, the deflated data, and the check sum and
/// length of the data.
pub uninterp spec fn gzip_member(chunks: Seq<Seq<u8>>) -> Seq<u8>;

/// `GzEncoder::new` over an empty `Vec<u8>`, at `Compression::default()`.
/// The contract claims that the new encoder has taken nothing in.
#[verifier::external_body]
pub(crate) fn start() -> (encoder: Encoder)
    ensures
        taken(encoder) == Seq::<Seq<u8>>::empty(),
{
    Encoder { inner: GzEncoder::new(Vec::new(), Compression::default()) }
}

/// `Write::write_all` on the `GzEncoder`. The contract claims that
/// whether the call succeeds depends only on the chunks taken in before
/// and on `chunk`, and that, where it succeeds, the encoder has taken in
/// all of `chunk` after what it had taken in before. It claims nothing of
/// an encoder whose write failed, nor that any write succeeds.
#[verifier::external_body]
pub(crate) fn take(encoder: &mut Encoder, chunk: &[u8]) -> (r: Result<(), std::io::Error>)
    ensures
        r is Ok == accepts(taken(*old(encoder)), chunk@),
        r is Ok ==> taken(*final(encoder)) == taken(*old(encoder)).push(chunk@),
{
    encoder.inner.write_all(chunk)
}

/// `GzEncoder::finish`. The contract claims that whether the call
/// succeeds depends only on the chunks that the encoder took in, and
/// that, where it succeeds, the sink that it hands back holds what an
/// encoder writes for those chunks. It does not claim that the call
/// succeeds.
#[verifier::external_body]
pub(crate) fn finish(encoder: Encoder) -> (r: Result<Vec<u8>, std::io::Error>)
    ensures
        r is Ok == finishes(taken(encoder)),
        r is Ok ==> r->Ok_0@ == gzip_member(taken(encoder)),
{
    encoder.inner.finish()
}

} // verus!
