//! Finding the archive behind the loader sections of the executable.
//!
//! The executable starts with a loader stub whose bytes 60 to 63 point at the
//! main header. Behind that header stands the section table, one record of 40
//! bytes for each section. A section named `.extra` holds the archive; where
//! no section has that name, the archive follows the last section.

use vstd::prelude::*;
use crate::bytes::{
    clip, has_terminator, in_bounds, le_u16, le_u32, lemma_clip_past_end, terminator, text_between,
};
use crate::cursor::ByteCursor;
use crate::error::ExtractError;

verus! {

/// Where the loader stub keeps the position of the main header.
pub const HEADER_POINTER_AT: u64 = 60;

/// The bytes between the section count and the section table: the rest of the
/// file header (16), the optional header (96) and its sixteen data
/// directories (128).
pub const SECTION_TABLE_GAP: u64 = 240;

/// The size of one record of the section table.
pub const SECTION_RECORD_SIZE: u64 = 40;

/// Where a section record keeps the size of its raw data; the position of the
/// raw data in the file follows in the next four bytes.
pub const RAW_SIZE_AT: u64 = 16;

/// The signature of the loader stub, `MZ`.
pub open spec fn stub_signature() -> Seq<u8> {
    seq![0x4Du8, 0x5Au8]
}

/// The signature of the main header, `PE` and two zero bytes.
pub open spec fn header_signature() -> Seq<u8> {
    seq![0x50u8, 0x45u8, 0u8, 0u8]
}

/// The name of the section that holds the archive.
pub open spec fn archive_section_name() -> Seq<char> {
    ".extra"@
}

/// The name of the section whose record starts at `record`: the text up to
/// the first zero byte.
pub open spec fn section_name(bytes: Seq<u8>, record: int) -> Seq<char> {
    text_between(bytes, record, terminator(bytes, record))
}

/// The archive offset that the section table gives, read from the record at
/// `record` on, with `remaining` records still to read.
pub open spec fn section_walk(bytes: Seq<u8>, record: int, remaining: int) -> Result<
    int,
    ExtractError,
>
    decreases remaining,
{
    if remaining <= 0 {
        Err(ExtractError::ArchiveNotFound)
    } else if !has_terminator(bytes, record) {
        Err(ExtractError::OutOfBounds)
    } else if section_name(bytes, record) == archive_section_name() {
        if in_bounds(bytes, record + RAW_SIZE_AT + 4, 4) {
            Ok(le_u32(bytes, record + RAW_SIZE_AT + 4))
        } else {
            Err(ExtractError::OutOfBounds)
        }
    } else if remaining == 1 {
        if in_bounds(bytes, record + RAW_SIZE_AT, 8) {
            Ok(le_u32(bytes, record + RAW_SIZE_AT) + le_u32(bytes, record + RAW_SIZE_AT + 4))
        } else {
            Err(ExtractError::OutOfBounds)
        }
    } else {
        section_walk(bytes, record + SECTION_RECORD_SIZE, remaining - 1)
    }
}

/// The position of the first record of the section table, as the loader stub
/// of `bytes` gives it.
pub open spec fn first_section_record(bytes: Seq<u8>) -> int {
    le_u32(bytes, HEADER_POINTER_AT as int) + 8 + SECTION_TABLE_GAP
}

/// The offset of the archive in the executable `bytes`, or the reason why
/// none is found.
pub open spec fn archive_offset(bytes: Seq<u8>) -> Result<int, ExtractError> {
    if !in_bounds(bytes, 0, 2) {
        Err(ExtractError::OutOfBounds)
    } else if bytes.subrange(0, 2) != stub_signature() {
        Err(ExtractError::InvalidExecutableSignature)
    } else if !in_bounds(bytes, HEADER_POINTER_AT as int, 4) {
        Err(ExtractError::OutOfBounds)
    } else {
        let header = le_u32(bytes, HEADER_POINTER_AT as int);
        if !in_bounds(bytes, header, 4) {
            Err(ExtractError::OutOfBounds)
        } else if bytes.subrange(header, header + 4) != header_signature() {
            Err(ExtractError::InvalidHeaderSignature)
        } else if !in_bounds(bytes, header + 6, 2) {
            Err(ExtractError::OutOfBounds)
        } else {
            section_walk(bytes, first_section_record(bytes), le_u16(bytes, header + 6))
        }
    }
}

/// The walk through the section table fails in two ways alone: the table is
/// empty, or it ends before the buffer does.
pub proof fn lemma_section_walk_failures(bytes: Seq<u8>, record: int, remaining: int)
    ensures
        section_walk(bytes, record, remaining) matches Err(reason) ==> reason
            == ExtractError::ArchiveNotFound || reason == ExtractError::OutOfBounds,
    decreases remaining,
{
    if remaining > 1 && has_terminator(bytes, record) && section_name(bytes, record)
        != archive_section_name() {
        lemma_section_walk_failures(bytes, record + SECTION_RECORD_SIZE, remaining - 1);
    }
}

/// The search for the archive fails in four ways alone.
pub proof fn lemma_archive_offset_failures(bytes: Seq<u8>)
    ensures
        archive_offset(bytes) matches Err(reason) ==> {
            ||| reason == ExtractError::OutOfBounds
            ||| reason == ExtractError::InvalidExecutableSignature
            ||| reason == ExtractError::InvalidHeaderSignature
            ||| reason == ExtractError::ArchiveNotFound
        },
{
    if in_bounds(bytes, HEADER_POINTER_AT as int, 4) {
        let header = le_u32(bytes, HEADER_POINTER_AT as int);
        if in_bounds(bytes, header + 6, 2) {
            lemma_section_walk_failures(
                bytes,
                first_section_record(bytes),
                le_u16(bytes, header + 6),
            );
        }
    }
}

/// A buffer of two bytes or more that does not start with `MZ` has no
/// archive offset: the stub signature is found wrong before anything else is
/// read.
pub proof fn lemma_wrong_stub_signature(bytes: Seq<u8>)
    requires
        bytes.len() >= 2,
        !(bytes[0] == 0x4D && bytes[1] == 0x5A),
    ensures
        archive_offset(bytes) == Err::<int, ExtractError>(ExtractError::InvalidExecutableSignature),
{
    let read = bytes.subrange(0, 2);
    assert(read[0] == bytes[0] && read[1] == bytes[1]);
    assert(stub_signature()[0] == 0x4D && stub_signature()[1] == 0x5A);
}

/// Where both signatures are in place and the section table has one record
/// alone, whose name is not that of the archive section, the archive starts
/// where the raw data of that section ends: at the sum of its raw size and
/// its raw address.
pub proof fn lemma_single_section_fallback(bytes: Seq<u8>)
    requires
        in_bounds(bytes, 0, 2),
        bytes.subrange(0, 2) == stub_signature(),
        in_bounds(bytes, HEADER_POINTER_AT as int, 4),
        in_bounds(bytes, le_u32(bytes, HEADER_POINTER_AT as int), 8),
        bytes.subrange(
            le_u32(bytes, HEADER_POINTER_AT as int),
            le_u32(bytes, HEADER_POINTER_AT as int) + 4,
        ) == header_signature(),
        le_u16(bytes, le_u32(bytes, HEADER_POINTER_AT as int) + 6) == 1,
        has_terminator(bytes, first_section_record(bytes)),
        section_name(bytes, first_section_record(bytes)) != archive_section_name(),
        in_bounds(bytes, first_section_record(bytes) + RAW_SIZE_AT, 8),
    ensures
        archive_offset(bytes) == Ok::<int, ExtractError>(
            le_u32(bytes, first_section_record(bytes) + RAW_SIZE_AT) + le_u32(
                bytes,
                first_section_record(bytes) + RAW_SIZE_AT + 4,
            ),
        ),
{
}

fn is_stub_signature(read: &[u8]) -> (same: bool)
    requires
        read@.len() == 2,
    ensures
        same == (read@ == stub_signature()),
{
    let same: bool = read[0] == 0x4D && read[1] == 0x5A;
    proof {
        if same {
            assert(read@ =~= stub_signature());
        }
    }
    same
}

fn is_header_signature(read: &[u8]) -> (same: bool)
    requires
        read@.len() == 4,
    ensures
        same == (read@ == header_signature()),
{
    let same: bool = read[0] == 0x50 && read[1] == 0x45 && read[2] == 0 && read[3] == 0;
    proof {
        if same {
            assert(read@ =~= header_signature());
        }
    }
    same
}

/// Checks the two signatures of the executable and walks its section table
/// to the offset at which the archive starts.
pub fn locate_archive(buf: &[u8]) -> (located: Result<u64, ExtractError>)
    ensures
        match archive_offset(buf@) {
            Ok(at) => 0 <= at <= u64::MAX && located == Ok::<u64, ExtractError>(at as u64),
            Err(reason) => located == Err::<u64, ExtractError>(reason),
        },
{
    let mut cursor = ByteCursor::new(buf);
    assert(buf@.len() <= usize::MAX) by {
        assert(buf.len() == buf@.len());
    }
    let stub: &[u8] = cursor.read_bytes(2)?;
    if !is_stub_signature(stub) {
        return Err(ExtractError::InvalidExecutableSignature);
    }
    cursor.seek(HEADER_POINTER_AT);
    let header: u32 = cursor.read_u32()?;
    cursor.seek(header as u64);
    let signature: &[u8] = cursor.read_bytes(4)?;
    if !is_header_signature(signature) {
        return Err(ExtractError::InvalidHeaderSignature);
    }
    cursor.skip(2);
    let count: u16 = cursor.read_u16()?;
    cursor.skip(SECTION_TABLE_GAP);
    let marker: String = ".extra".to_owned();
    let ghost mut record: int = header + 8 + SECTION_TABLE_GAP;
    let mut index: u16 = 0;
    while index < count
        invariant
            cursor.bytes() == buf@,
            buf@.len() <= usize::MAX,
            index <= count,
            0 <= record,
            cursor.offset() == clip(record),
            marker@ == archive_section_name(),
            archive_offset(buf@) == section_walk(buf@, record, count - index),
        decreases count - index,
    {
        proof {
            if record > u64::MAX {
                lemma_clip_past_end(buf@, record);
            }
        }
        let start: u64 = cursor.position();
        let name: String = cursor.read_cstring()?;
        if name == marker {
            cursor.seek(start);
            cursor.skip(RAW_SIZE_AT + 4);
            let at: u32 = cursor.read_u32()?;
            return Ok(at as u64);
        }
        if index == count - 1 {
            cursor.seek(start);
            cursor.skip(RAW_SIZE_AT);
            let size: u32 = cursor.read_u32()?;
            let address: u32 = cursor.read_u32()?;
            return Ok(size as u64 + address as u64);
        }
        cursor.seek(start);
        cursor.skip(SECTION_RECORD_SIZE);
        index = index + 1;
        proof {
            record = record + SECTION_RECORD_SIZE;
        }
    }
    Err(ExtractError::ArchiveNotFound)
}

} // verus!
