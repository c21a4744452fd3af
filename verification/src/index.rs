//! Skipping the index of the archive.
//!
//! The archive starts with eight magic bytes and a header of 24 more, the
//! last four of which count the entries of the index. Each entry holds a
//! file name and a payload, neither of which is read here: only their
//! lengths matter, to find the chunk stream behind the index.

use vstd::prelude::*;
use crate::bytes::{clip, in_bounds, le_u16, le_u32, lemma_clip_past_end};
use crate::cursor::ByteCursor;
use crate::error::ExtractError;

verus! {

/// The bytes between the end of the index and the chunk stream: the tag of
/// the format header, the runtime version and subversion, the product
/// version and the product build.
pub const STREAM_PREAMBLE_SIZE: u64 = 16;

/// The eight bytes with which the archive starts.
pub open spec fn archive_magic() -> Seq<u8> {
    seq![0x77u8, 0x77u8, 0x77u8, 0x77u8, 0x49u8, 0x87u8, 0x47u8, 0x12u8]
}

/// The position behind `count` index entries of which the first starts at
/// `at`. An entry is the length of its name in two-byte units (16 bits), the
/// name, an identifier (32 bits), the size of its payload (32 bits) and the
/// payload.
pub open spec fn entries_end(bytes: Seq<u8>, at: int, count: int) -> Result<int, ExtractError>
    decreases count,
{
    if count <= 0 {
        Ok(at)
    } else if !in_bounds(bytes, at, 2) {
        Err(ExtractError::OutOfBounds)
    } else {
        let size_at = at + 2 + 2 * le_u16(bytes, at) + 4;
        if !in_bounds(bytes, size_at, 4) {
            Err(ExtractError::OutOfBounds)
        } else {
            entries_end(bytes, size_at + 4 + le_u32(bytes, size_at), count - 1)
        }
    }
}

/// The position of the chunk stream of the archive that starts at `archive`,
/// or the reason why the index cannot be skipped. The position may lie past
/// the end of `bytes`: the skips over names, payloads and the preamble are
/// not held against the length of the buffer.
pub open spec fn chunk_stream_start(bytes: Seq<u8>, archive: int) -> Result<int, ExtractError> {
    if !in_bounds(bytes, archive, 8) {
        Err(ExtractError::OutOfBounds)
    } else if bytes.subrange(archive, archive + 8) != archive_magic() {
        Err(ExtractError::NotTheExpectedFormat)
    } else if !in_bounds(bytes, archive + 28, 4) {
        Err(ExtractError::OutOfBounds)
    } else {
        match entries_end(bytes, archive + 32, le_u32(bytes, archive + 28)) {
            Ok(end) => Ok(end + STREAM_PREAMBLE_SIZE),
            Err(reason) => Err(reason),
        }
    }
}

/// The entries of an index end where they start or behind it, and skipping
/// them fails in one way alone: the buffer ends before they do.
pub proof fn lemma_entries_end_not_before(bytes: Seq<u8>, at: int, count: int)
    ensures
        entries_end(bytes, at, count) matches Ok(end) ==> at <= end,
        entries_end(bytes, at, count) matches Err(reason) ==> reason == ExtractError::OutOfBounds,
    decreases count,
{
    if count > 0 && in_bounds(bytes, at, 2) {
        let size_at = at + 2 + 2 * le_u16(bytes, at) + 4;
        if in_bounds(bytes, size_at, 4) {
            lemma_entries_end_not_before(bytes, size_at + 4 + le_u32(bytes, size_at), count - 1);
        }
    }
}

/// The chunk stream starts 48 bytes behind the start of the archive at the
/// earliest: behind the header of the archive and the preamble of the stream.
/// Skipping the index fails in two ways alone.
pub proof fn lemma_stream_start_behind_archive(bytes: Seq<u8>, archive: int)
    ensures
        chunk_stream_start(bytes, archive) matches Ok(start) ==> archive + 48 <= start,
        chunk_stream_start(bytes, archive) matches Err(reason) ==> reason
            == ExtractError::OutOfBounds || reason == ExtractError::NotTheExpectedFormat,
{
    if in_bounds(bytes, archive + 28, 4) {
        lemma_entries_end_not_before(bytes, archive + 32, le_u32(bytes, archive + 28));
    }
}

/// An archive of which one of the first eight bytes is not the byte that the
/// magic has in its place is not accepted, whatever follows.
pub proof fn lemma_altered_magic(bytes: Seq<u8>, archive: int, altered: int)
    requires
        in_bounds(bytes, archive, 8),
        0 <= altered < 8,
        bytes[archive + altered] != archive_magic()[altered],
    ensures
        chunk_stream_start(bytes, archive) == Err::<int, ExtractError>(
            ExtractError::NotTheExpectedFormat,
        ),
{
    assert(bytes.subrange(archive, archive + 8)[altered] == bytes[archive + altered]);
}

fn is_archive_magic(read: &[u8]) -> (same: bool)
    requires
        read@.len() == 8,
    ensures
        same == (read@ == archive_magic()),
{
    let same: bool = read[0] == 0x77 && read[1] == 0x77 && read[2] == 0x77 && read[3] == 0x77
        && read[4] == 0x49 && read[5] == 0x87 && read[6] == 0x47 && read[7] == 0x12;
    proof {
        if same {
            assert(read@ =~= archive_magic());
        }
    }
    same
}

/// Checks the magic bytes of the archive at `archive` and skips its index.
/// Returns the position of the chunk stream, as a cursor holds it.
pub fn scan_archive_index(buf: &[u8], archive: u64) -> (scanned: Result<u64, ExtractError>)
    ensures
        match chunk_stream_start(buf@, archive as int) {
            Ok(start) => scanned == Ok::<u64, ExtractError>(clip(start)),
            Err(reason) => scanned == Err::<u64, ExtractError>(reason),
        },
{
    let mut cursor = ByteCursor::new(buf);
    assert(buf@.len() <= usize::MAX) by {
        assert(buf.len() == buf@.len());
    }
    cursor.seek(archive);
    let magic: &[u8] = cursor.read_bytes(8)?;
    if !is_archive_magic(magic) {
        return Err(ExtractError::NotTheExpectedFormat);
    }
    cursor.skip(8);
    proof {
        if archive + 16 > u64::MAX {
            lemma_clip_past_end(buf@, archive + 16);
        }
    }
    let _version: u32 = cursor.read_u32()?;
    cursor.skip(8);
    proof {
        if archive + 28 > u64::MAX {
            lemma_clip_past_end(buf@, archive + 28);
        }
    }
    let count: u32 = cursor.read_u32()?;
    let ghost mut at: int = archive + 32;
    let mut index: u32 = 0;
    while index < count
        invariant
            cursor.bytes() == buf@,
            buf@.len() <= usize::MAX,
            index <= count,
            0 <= at,
            cursor.offset() == clip(at),
            chunk_stream_start(buf@, archive as int) == (match entries_end(
                buf@,
                at,
                count - index,
            ) {
                Ok(end) => Ok::<int, ExtractError>(end + STREAM_PREAMBLE_SIZE),
                Err(reason) => Err::<int, ExtractError>(reason),
            }),
        decreases count - index,
    {
        proof {
            if at > u64::MAX {
                lemma_clip_past_end(buf@, at);
            }
        }
        let name_units: u16 = cursor.read_u16()?;
        cursor.skip(name_units as u64 * 2);
        cursor.skip(4);
        let ghost size_at: int = at + 2 + 2 * name_units + 4;
        proof {
            if size_at > u64::MAX {
                lemma_clip_past_end(buf@, size_at);
            }
        }
        let size: u32 = cursor.read_u32()?;
        cursor.skip(size as u64);
        index = index + 1;
        proof {
            at = size_at + 4 + size;
        }
    }
    cursor.skip(STREAM_PREAMBLE_SIZE);
    Ok(cursor.position())
}

} // verus!
