//! The whole way from the bytes of an executable to its images.

use vstd::prelude::*;
use crate::bytes::{in_bounds, le_u16};
use crate::chunks::{
    chunk_walk, lemma_chunk_walk_failures, lemma_stream_without_sentinel_fails,
    lemma_walk_past_end, walk_chunks, SENTINEL_CHUNK,
};
use crate::error::ExtractError;
use crate::index::{
    archive_magic, chunk_stream_start, lemma_altered_magic, lemma_stream_start_behind_archive,
    scan_archive_index,
};
use crate::locator::{
    archive_offset, lemma_archive_offset_failures, lemma_wrong_stub_signature, locate_archive,
};
use crate::sink::{image_views, BankImage, BankImageView, Outcome};

verus! {

/// The outcome of extracting the images of the executable `bytes`.
pub open spec fn extraction(bytes: Seq<u8>) -> Outcome {
    match archive_offset(bytes) {
        Err(reason) => Outcome::failed(reason),
        Ok(archive) => match chunk_stream_start(bytes, archive) {
            Err(reason) => Outcome::failed(reason),
            Ok(start) => chunk_walk(bytes, start),
        },
    }
}

/// What `extract_images` does to a sink that held `before`: the sink then
/// holds `after`, and the caller is told `told`.
pub open spec fn is_extraction_of(
    bytes: Seq<u8>,
    before: Seq<BankImageView>,
    after: Seq<BankImageView>,
    told: Result<(), ExtractError>,
) -> bool {
    &&& after == before + extraction(bytes).images
    &&& told == extraction(bytes).as_result()
}

/// Extracting twice from the same bytes gives the same images and the same
/// result both times: nothing but the bytes decides the outcome.
pub proof fn lemma_extraction_repeats(
    bytes: Seq<u8>,
    before: Seq<BankImageView>,
    first: Seq<BankImageView>,
    first_told: Result<(), ExtractError>,
    second: Seq<BankImageView>,
    second_told: Result<(), ExtractError>,
)
    requires
        is_extraction_of(bytes, before, first, first_told),
        is_extraction_of(bytes, before, second, second_told),
    ensures
        first == second,
        first_told == second_told,
{
}

/// An extraction never fails for a reason that lies outside the bytes: of
/// the kinds of failure, `IoFailure` and `RasterEncodingFailure` are left to
/// the caller.
pub proof fn lemma_extraction_failures_are_structural(bytes: Seq<u8>)
    ensures
        extraction(bytes).failure matches Some(reason) ==> reason.is_structural(),
{
    lemma_archive_offset_failures(bytes);
    match archive_offset(bytes) {
        Ok(archive) => {
            lemma_stream_start_behind_archive(bytes, archive);
            match chunk_stream_start(bytes, archive) {
                Ok(start) => {
                    lemma_chunk_walk_failures(bytes, start);
                },
                Err(_) => {},
            }
        },
        Err(_) => {},
    }
}

/// A buffer of two bytes or more that does not start with `MZ` is refused
/// for its stub signature, and no image comes of it.
pub proof fn lemma_wrong_stub_yields_nothing(bytes: Seq<u8>)
    requires
        bytes.len() >= 2,
        !(bytes[0] == 0x4D && bytes[1] == 0x5A),
    ensures
        extraction(bytes) == Outcome::failed(ExtractError::InvalidExecutableSignature),
{
    lemma_wrong_stub_signature(bytes);
}

/// An executable whose archive lacks its magic bytes is refused for them,
/// and no image comes of it.
pub proof fn lemma_altered_magic_yields_nothing(bytes: Seq<u8>, archive: int, altered: int)
    requires
        archive_offset(bytes) == Ok::<int, ExtractError>(archive),
        in_bounds(bytes, archive, 8),
        0 <= altered < 8,
        bytes[archive + altered] != archive_magic()[altered],
    ensures
        extraction(bytes) == Outcome::failed(ExtractError::NotTheExpectedFormat),
{
    lemma_altered_magic(bytes, archive, altered);
}

/// An executable whose chunk stream holds no sentinel is never extracted
/// with success.
pub proof fn lemma_extraction_needs_sentinel(bytes: Seq<u8>)
    requires
        forall|p: int| #[trigger] in_bounds(bytes, p, 2) ==> le_u16(bytes, p) != SENTINEL_CHUNK,
    ensures
        extraction(bytes).failure is Some,
{
    match archive_offset(bytes) {
        Ok(archive) => match chunk_stream_start(bytes, archive) {
            Ok(start) => {
                lemma_stream_without_sentinel_fails(bytes, start);
            },
            Err(_) => {},
        },
        Err(_) => {},
    }
}

/// Extracts the images of the executable `buf` and pushes them to `sink`,
/// each as soon as it is decoded. The first structure that is not as the
/// format has it ends the work and is reported; the images pushed before it
/// stay in `sink`.
pub fn extract_images(buf: &[u8], sink: &mut Vec<BankImage>) -> (extracted: Result<
    (),
    ExtractError,
>)
    ensures
        is_extraction_of(buf@, image_views(old(sink)@), image_views(final(sink)@), extracted),
{
    assert(buf@.len() <= usize::MAX) by {
        assert(buf.len() == buf@.len());
    }
    assert(image_views(sink@) + Seq::empty() =~= image_views(sink@));
    let archive: u64 = locate_archive(buf)?;
    let start: u64 = scan_archive_index(buf, archive)?;
    proof {
        let exact = chunk_stream_start(buf@, archive as int).unwrap();
        lemma_stream_start_behind_archive(buf@, archive as int);
        if exact > u64::MAX {
            lemma_walk_past_end(buf@, exact);
        }
    }
    walk_chunks(buf, start, sink)
}

} // verus!
