//! Walking the chunk stream.
//!
//! A chunk is an identifier (16 bits), a mode (16 bits), a size (32 bits) and
//! a body. The stream ends with the identifier `0x7F7F`, which no mode or
//! size follows. Only image banks are decoded; every other chunk is skipped.

use vstd::prelude::*;
use crate::bank::{bank_outcome, decode_image_bank, lemma_bank_outcome};
use crate::bytes::{clip, in_bounds, le_u16, le_u32, lemma_clip_past_end};
use crate::cursor::ByteCursor;
use crate::error::ExtractError;
use crate::sink::{image_views, BankImage, BankImageView, Outcome};

verus! {

/// The identifier that ends the chunk stream.
pub const SENTINEL_CHUNK: u16 = 0x7F7F;

/// The identifier of an image bank.
pub const IMAGE_BANK_CHUNK: u16 = 0x6666;

/// The mode of a chunk whose body stands in the stream as it is.
pub const MODE_INLINE: u16 = 0;

/// The mode of a chunk whose body is compressed as a whole: the size of the
/// inflated body (32 bits), the size of the compressed body (32 bits) and the
/// compressed body.
pub const MODE_COMPRESSED: u16 = 1;

/// The size of what stands before the body of a chunk.
pub const CHUNK_HEADER_SIZE: u64 = 8;

/// What stands before the body of a chunk.
#[derive(Clone, Copy, Debug, PartialEq, Eq, Structural)]
pub struct ChunkHeader {
    pub identifier: u16,
    pub mode: u16,
    pub size: u32,
}

/// What the walk does with a chunk.
#[derive(Clone, Copy, Debug, PartialEq, Eq, Structural)]
pub enum ChunkKind {
    /// An image bank that stands in the stream as it is: it is decoded.
    ImageBank,
    /// A chunk that is compressed as a whole: it is skipped by the size of
    /// its compressed body.
    Compressed,
    /// Any other chunk: it is skipped by its size.
    Unknown,
}

impl ChunkHeader {
    /// What the walk does with the chunk of this header.
    pub open spec fn kind(self) -> ChunkKind {
        if self.mode == MODE_INLINE && self.identifier == IMAGE_BANK_CHUNK {
            ChunkKind::ImageBank
        } else if self.mode == MODE_COMPRESSED {
            ChunkKind::Compressed
        } else {
            ChunkKind::Unknown
        }
    }

    /// What the walk does with the chunk of this header.
    pub fn classify(&self) -> (kind: ChunkKind)
        ensures
            kind == self.kind(),
    {
        if self.mode == MODE_INLINE && self.identifier == IMAGE_BANK_CHUNK {
            ChunkKind::ImageBank
        } else if self.mode == MODE_COMPRESSED {
            ChunkKind::Compressed
        } else {
            ChunkKind::Unknown
        }
    }

    /// Reads what stands at the cursor: the header of a chunk, or `None` for
    /// the sentinel, behind which no mode and no size is read. Where the
    /// buffer ends before the header does, the cursor stays where it was.
    pub fn read(cursor: &mut ByteCursor) -> (read: Result<Option<ChunkHeader>, ExtractError>)
        ensures
            final(cursor).bytes() == old(cursor).bytes(),
            read == chunk_header_at(old(cursor).bytes(), old(cursor).offset()),
            read matches Ok(Some(_)) ==> final(cursor).offset() == old(cursor).offset()
                + CHUNK_HEADER_SIZE,
            read matches Ok(None) ==> final(cursor).offset() == old(cursor).offset() + 2,
            read is Err ==> final(cursor).offset() == old(cursor).offset(),
    {
        let identifier: u16 = cursor.read_u16()?;
        if identifier == SENTINEL_CHUNK {
            return Ok(None);
        }
        let mode: u16 = match cursor.read_u16() {
            Ok(mode) => mode,
            Err(reason) => {
                cursor.seek(cursor.position() - 2);
                return Err(reason);
            },
        };
        let size: u32 = match cursor.read_u32() {
            Ok(size) => size,
            Err(reason) => {
                cursor.seek(cursor.position() - 4);
                return Err(reason);
            },
        };
        Ok(Some(ChunkHeader { identifier, mode, size }))
    }
}

/// What stands at `at` in the chunk stream: the header of a chunk, or `None`
/// for the sentinel.
pub open spec fn chunk_header_at(bytes: Seq<u8>, at: int) -> Result<
    Option<ChunkHeader>,
    ExtractError,
> {
    if !in_bounds(bytes, at, 2) {
        Err(ExtractError::OutOfBounds)
    } else if le_u16(bytes, at) == SENTINEL_CHUNK {
        Ok(None)
    } else if !in_bounds(bytes, at + 2, 6) {
        Err(ExtractError::OutOfBounds)
    } else {
        Ok(
            Some(
                ChunkHeader {
                    identifier: le_u16(bytes, at) as u16,
                    mode: le_u16(bytes, at + 2) as u16,
                    size: le_u32(bytes, at + 4) as u32,
                },
            ),
        )
    }
}

/// How far the end of `bytes` is from `at`, counted so that every position
/// within `bytes` is farther from it than any position behind it.
pub open spec fn distance_to_end(bytes: Seq<u8>, at: int) -> nat {
    if at <= bytes.len() {
        (bytes.len() - at + 1) as nat
    } else {
        0
    }
}

/// The outcome of walking the chunk stream of `bytes` from `at` on.
pub open spec fn chunk_walk(bytes: Seq<u8>, at: int) -> Outcome
    decreases distance_to_end(bytes, at),
{
    match chunk_header_at(bytes, at) {
        Err(reason) => Outcome::failed(reason),
        Ok(None) => Outcome::complete(),
        Ok(Some(header)) => {
            let body = at + CHUNK_HEADER_SIZE;
            match header.kind() {
                ChunkKind::ImageBank => {
                    if !in_bounds(bytes, body, header.size as int) {
                        Outcome::failed(ExtractError::OutOfBounds)
                    } else {
                        let bank = bank_outcome(bytes.subrange(body, body + header.size));
                        if bank.failure is Some {
                            bank
                        } else {
                            chunk_walk(bytes, body + header.size).after(bank.images)
                        }
                    }
                },
                ChunkKind::Compressed => {
                    if !in_bounds(bytes, body + 4, 4) {
                        Outcome::failed(ExtractError::OutOfBounds)
                    } else {
                        chunk_walk(bytes, body + 8 + le_u32(bytes, body + 4))
                    }
                },
                ChunkKind::Unknown => chunk_walk(bytes, body + header.size),
            }
        },
    }
}

/// Nothing can be walked from a position that no `u64` holds, nor from the
/// largest `u64`, as which a cursor holds it.
pub proof fn lemma_walk_past_end(bytes: Seq<u8>, at: int)
    requires
        bytes.len() <= usize::MAX,
        at > u64::MAX,
    ensures
        chunk_walk(bytes, at) == Outcome::failed(ExtractError::OutOfBounds),
        chunk_walk(bytes, clip(at) as int) == Outcome::failed(ExtractError::OutOfBounds),
{
    lemma_clip_past_end(bytes, at);
}

/// The walk fails in two ways alone: bytes end before what they hold does,
/// or an item of an image bank does not inflate to the size it declares.
pub proof fn lemma_chunk_walk_failures(bytes: Seq<u8>, at: int)
    ensures
        chunk_walk(bytes, at).failure matches Some(reason) ==> reason == ExtractError::OutOfBounds
            || reason == ExtractError::CompressionSizeMismatch,
    decreases distance_to_end(bytes, at),
{
    match chunk_header_at(bytes, at) {
        Ok(Some(header)) => {
            let body = at + CHUNK_HEADER_SIZE;
            match header.kind() {
                ChunkKind::ImageBank => {
                    if in_bounds(bytes, body, header.size as int) {
                        lemma_bank_outcome(bytes.subrange(body, body + header.size));
                        lemma_chunk_walk_failures(bytes, body + header.size);
                    }
                },
                ChunkKind::Compressed => {
                    if in_bounds(bytes, body + 4, 4) {
                        lemma_chunk_walk_failures(bytes, body + 8 + le_u32(bytes, body + 4));
                    }
                },
                ChunkKind::Unknown => {
                    lemma_chunk_walk_failures(bytes, body + header.size);
                },
            }
        },
        _ => {},
    }
}

/// A stream in which no chunk identifier from `at` on can be the sentinel
/// does not end well: the walk fails, whatever it decodes on the way.
pub proof fn lemma_stream_without_sentinel_fails(bytes: Seq<u8>, at: int)
    requires
        forall|p: int| at <= p && #[trigger] in_bounds(bytes, p, 2) ==> le_u16(bytes, p) != SENTINEL_CHUNK,
    ensures
        chunk_walk(bytes, at).failure is Some,
    decreases distance_to_end(bytes, at),
{
    match chunk_header_at(bytes, at) {
        Ok(Some(header)) => {
            let body = at + CHUNK_HEADER_SIZE;
            match header.kind() {
                ChunkKind::ImageBank => {
                    if in_bounds(bytes, body, header.size as int) {
                        lemma_stream_without_sentinel_fails(bytes, body + header.size);
                    }
                },
                ChunkKind::Compressed => {
                    if in_bounds(bytes, body + 4, 4) {
                        lemma_stream_without_sentinel_fails(
                            bytes,
                            body + 8 + le_u32(bytes, body + 4),
                        );
                    }
                },
                ChunkKind::Unknown => {
                    lemma_stream_without_sentinel_fails(bytes, body + header.size);
                },
            }
        },
        _ => {},
    }
}

/// Walks the chunk stream of `buf` from `start` to its sentinel and pushes
/// the images of every image bank on the way to `sink`. A stream that ends
/// before its sentinel is a failure.
pub fn walk_chunks(buf: &[u8], start: u64, sink: &mut Vec<BankImage>) -> (walked: Result<
    (),
    ExtractError,
>)
    ensures
        image_views(final(sink)@) == image_views(old(sink)@) + chunk_walk(
            buf@,
            start as int,
        ).images,
        walked == chunk_walk(buf@, start as int).as_result(),
{
    let mut cursor = ByteCursor::new(buf);
    assert(buf@.len() <= usize::MAX) by {
        assert(buf.len() == buf@.len());
    }
    cursor.seek(start);
    let ghost mut at: int = start as int;
    let ghost mut done: Seq<BankImageView> = Seq::empty();
    loop
        invariant
            cursor.bytes() == buf@,
            buf@.len() <= usize::MAX,
            0 <= at,
            cursor.offset() == clip(at),
            image_views(sink@) == image_views(old(sink)@) + done,
            chunk_walk(buf@, start as int).images == done + chunk_walk(buf@, at).images,
            chunk_walk(buf@, start as int).failure == chunk_walk(buf@, at).failure,
        decreases distance_to_end(buf@, at),
    {
        proof {
            if at > u64::MAX {
                lemma_clip_past_end(buf@, at);
            }
        }
        let header: ChunkHeader = match ChunkHeader::read(&mut cursor)? {
            Some(header) => header,
            None => {
                return Ok(());
            },
        };
        let ghost body: int = at + CHUNK_HEADER_SIZE;
        match header.classify() {
            ChunkKind::ImageBank => {
                let payload: &[u8] = cursor.read_bytes(header.size as usize)?;
                let ghost bank = bank_outcome(payload@);
                let ghost rest = chunk_walk(buf@, body + header.size);
                proof {
                    assert(done + (bank.images + rest.images) =~= (done + bank.images)
                        + rest.images);
                    assert(image_views(old(sink)@) + done + bank.images =~= image_views(
                        old(sink)@,
                    ) + (done + bank.images));
                }
                decode_image_bank(payload, sink)?;
                proof {
                    done = done + bank.images;
                    at = body + header.size;
                }
            },
            ChunkKind::Compressed => {
                cursor.skip(4);
                let packed_size: u32 = cursor.read_u32()?;
                cursor.skip(packed_size as u64);
                proof {
                    at = body + 8 + packed_size;
                }
            },
            ChunkKind::Unknown => {
                cursor.skip(header.size as u64);
                proof {
                    at = body + header.size;
                }
            },
        }
    }
}

} // verus!
