//! Inflating the compressed regions of an image bank.
//!
//! The inflation itself is done by `miniz_oxide`. What it returns is not
//! described here but named, so that the decoders can say exactly what they
//! make of it.

use vstd::prelude::*;
use miniz_oxide::inflate::DecompressError;
use crate::error::ExtractError;

verus! {

/// The error of `miniz_oxide`'s inflation, carried through unread.
#[verifier::external_type_specification]
#[verifier::external_body]
pub struct ExDecompressError(DecompressError);

/// The bytes that the zlib stream `input` inflates to when the output may
/// grow to `limit` bytes, or `None` where the inflation fails.
pub uninterp spec fn zlib_inflated(input: Seq<u8>, limit: int) -> Option<Seq<u8>>;

/// `miniz_oxide::inflate::decompress_to_vec_zlib_with_limit` inflates a whole
/// zlib stream into a vector that it lets grow to `max_size` bytes at most.
/// Its result depends on its two arguments alone and is what `zlib_inflated`
/// names: the inflated bytes where it succeeds, nothing where it fails.
pub assume_specification[ miniz_oxide::inflate::decompress_to_vec_zlib_with_limit ](
    input: &[u8],
    max_size: usize,
) -> (inflated: Result<Vec<u8>, DecompressError>)
    ensures
        match inflated {
            Ok(bytes) => zlib_inflated(input@, max_size as int) == Some(bytes@),
            Err(_) => zlib_inflated(input@, max_size as int) is None,
        },
;

/// What a compressed region that declares `declared` inflated bytes yields:
/// the inflated bytes where they are exactly as many as declared.
pub open spec fn inflated_region(packed: Seq<u8>, declared: int) -> Result<Seq<u8>, ExtractError> {
    accepted_inflation(zlib_inflated(packed, declared), declared)
}

/// The inflated bytes are accepted where the inflation succeeded with
/// exactly `declared` bytes; anything else is a size mismatch.
pub open spec fn accepted_inflation(inflated: Option<Seq<u8>>, declared: int) -> Result<
    Seq<u8>,
    ExtractError,
> {
    match inflated {
        Some(bytes) => if bytes.len() == declared {
            Ok(bytes)
        } else {
            Err(ExtractError::CompressionSizeMismatch)
        },
        None => Err(ExtractError::CompressionSizeMismatch),
    }
}

/// Holds the outcome of an inflation against the declared size.
pub fn check_inflated_size(inflated: Result<Vec<u8>, DecompressError>, declared: u32) -> (checked:
    Result<Vec<u8>, ExtractError>)
    ensures
        match inflated {
            Ok(bytes) => if bytes@.len() == declared {
                checked == Ok::<Vec<u8>, ExtractError>(bytes)
            } else {
                checked == Err::<Vec<u8>, ExtractError>(ExtractError::CompressionSizeMismatch)
            },
            Err(_) => checked == Err::<Vec<u8>, ExtractError>(
                ExtractError::CompressionSizeMismatch,
            ),
        },
{
    match inflated {
        Ok(bytes) => {
            if bytes.len() == declared as usize {
                Ok(bytes)
            } else {
                Err(ExtractError::CompressionSizeMismatch)
            }
        },
        Err(_) => Err(ExtractError::CompressionSizeMismatch),
    }
}

/// Inflates a compressed region that declares `declared` inflated bytes. The
/// output is never let grow beyond the declared size.
pub fn inflate_region(packed: &[u8], declared: u32) -> (inflated: Result<Vec<u8>, ExtractError>)
    ensures
        match inflated_region(packed@, declared as int) {
            Ok(bytes) => inflated is Ok && inflated.unwrap()@ == bytes,
            Err(reason) => inflated == Err::<Vec<u8>, ExtractError>(reason),
        },
{
    check_inflated_size(
        miniz_oxide::inflate::decompress_to_vec_zlib_with_limit(packed, declared as usize),
        declared,
    )
}

} // verus!
