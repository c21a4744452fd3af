//! The ways in which an extraction can fail.

use vstd::prelude::*;

verus! {

/// Why an extraction stopped.
///
/// The walkers of this crate report the six structural kinds; `IoFailure` and
/// `RasterEncodingFailure` belong to the caller's file reader and image sink,
/// so that one type can carry the outcome of a whole run.
#[derive(Clone, Copy, Debug, PartialEq, Eq, Structural)]
pub enum ExtractError {
    /// The executable could not be read from its source.
    IoFailure,
    /// The buffer does not start with the loader stub signature.
    InvalidExecutableSignature,
    /// The main header does not carry its signature.
    InvalidHeaderSignature,
    /// The section table gives no archive offset.
    ArchiveNotFound,
    /// The archive does not start with its magic bytes.
    NotTheExpectedFormat,
    /// A read reached past the end of the buffer.
    OutOfBounds,
    /// A compressed region did not inflate to its declared size.
    CompressionSizeMismatch,
    /// The image sink rejected a raster.
    RasterEncodingFailure,
}

impl ExtractError {
    /// The failure lies in the bytes that were given, not in reading the file
    /// or in writing an image.
    pub open spec fn is_structural(self) -> bool {
        self != ExtractError::IoFailure && self != ExtractError::RasterEncodingFailure
    }

    /// The sentence that `describe` returns for each kind.
    pub open spec fn description(self) -> Seq<char> {
        match self {
            ExtractError::IoFailure => "the executable could not be read"@,
            ExtractError::InvalidExecutableSignature => "the loader stub signature is missing"@,
            ExtractError::InvalidHeaderSignature => "the main header signature is missing"@,
            ExtractError::ArchiveNotFound => "the section table names no archive"@,
            ExtractError::NotTheExpectedFormat => "the archive magic does not match"@,
            ExtractError::OutOfBounds => "a read reached past the end of the data"@,
            ExtractError::CompressionSizeMismatch => "a compressed region did not inflate to its declared size"@,
            ExtractError::RasterEncodingFailure => "the image sink rejected a raster"@,
        }
    }

    /// A short sentence that names the structural expectation that failed.
    pub fn describe(&self) -> (text: &'static str)
        ensures
            text@ == self.description(),
    {
        match self {
            ExtractError::IoFailure => "the executable could not be read",
            ExtractError::InvalidExecutableSignature => "the loader stub signature is missing",
            ExtractError::InvalidHeaderSignature => "the main header signature is missing",
            ExtractError::ArchiveNotFound => "the section table names no archive",
            ExtractError::NotTheExpectedFormat => "the archive magic does not match",
            ExtractError::OutOfBounds => "a read reached past the end of the data",
            ExtractError::CompressionSizeMismatch => "a compressed region did not inflate to its declared size",
            ExtractError::RasterEncodingFailure => "the image sink rejected a raster",
        }
    }
}

} // verus!
