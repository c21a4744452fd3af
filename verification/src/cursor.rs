//! A reader that walks a borrowed byte buffer and never reads outside it.

use vstd::prelude::*;
use crate::bytes::{
    clip, has_terminator, in_bounds, le_u16, le_u32, lemma_terminator_is, terminator, text_between,
};
use crate::error::ExtractError;

verus! {

/// `String::push`: the text grows by the one character given, at its end.
#[verifier::external_body]
fn push_char(text: &mut String, c: char)
    ensures
        final(text)@ == old(text)@.push(c),
{
    text.push(c)
}

/// A position in a borrowed buffer.
///
/// The position may stand anywhere, also past the end of the buffer: `seek`
/// and `skip` move it without a test, and the next read fails there. A read
/// that fails leaves the cursor where it was.
pub struct ByteCursor<'a> {
    data: &'a [u8],
    pos: u64,
}

impl<'a> ByteCursor<'a> {
    /// The buffer that the cursor reads.
    pub closed spec fn bytes(&self) -> Seq<u8> {
        self.data@
    }

    /// The position at which the next read starts.
    pub closed spec fn offset(&self) -> int {
        self.pos as int
    }

    /// A cursor at the start of `data`.
    pub fn new(data: &'a [u8]) -> (cursor: Self)
        ensures
            cursor.bytes() == data@,
            cursor.offset() == 0,
    {
        ByteCursor { data, pos: 0 }
    }

    /// The position at which the next read starts.
    pub fn position(&self) -> (position: u64)
        ensures
            position == self.offset(),
    {
        self.pos
    }

    /// Moves to `position`, whether or not the buffer reaches that far, and
    /// returns the position left behind.
    pub fn seek(&mut self, position: u64) -> (previous: u64)
        ensures
            previous == old(self).offset(),
            final(self).offset() == position,
            final(self).bytes() == old(self).bytes(),
    {
        let previous: u64 = self.pos;
        self.pos = position;
        previous
    }

    /// Moves `amount` bytes ahead without reading and returns the position
    /// left behind. A sum that no `u64` holds is held as the largest `u64`,
    /// which is past the end of every buffer that can be read from.
    pub fn skip(&mut self, amount: u64) -> (previous: u64)
        ensures
            previous == old(self).offset(),
            final(self).offset() == clip(old(self).offset() + amount),
            final(self).bytes() == old(self).bytes(),
    {
        let previous: u64 = self.pos;
        self.pos = previous.saturating_add(amount);
        previous
    }

    /// The next `amount` bytes, or `OutOfBounds` where the buffer holds fewer.
    pub fn read_bytes(&mut self, amount: usize) -> (read: Result<&'a [u8], ExtractError>)
        ensures
            final(self).bytes() == old(self).bytes(),
            in_bounds(old(self).bytes(), old(self).offset(), amount as int) ==> {
                &&& read is Ok
                &&& read.unwrap()@ == old(self).bytes().subrange(
                    old(self).offset(),
                    old(self).offset() + amount,
                )
                &&& final(self).offset() == old(self).offset() + amount
            },
            !in_bounds(old(self).bytes(), old(self).offset(), amount as int) ==> {
                &&& read == Err::<&[u8], ExtractError>(ExtractError::OutOfBounds)
                &&& final(self).offset() == old(self).offset()
            },
    {
        let len: usize = self.data.len();
        if self.pos > len as u64 || amount > len - self.pos as usize {
            return Err(ExtractError::OutOfBounds);
        }
        let start: usize = self.pos as usize;
        let end: usize = start + amount;
        let data: &'a [u8] = self.data;
        let read: &'a [u8] = vstd::slice::slice_subrange(data, start, end);
        self.pos = end as u64;
        Ok(read)
    }

    /// The next byte.
    pub fn read_u8(&mut self) -> (read: Result<u8, ExtractError>)
        ensures
            final(self).bytes() == old(self).bytes(),
            in_bounds(old(self).bytes(), old(self).offset(), 1) ==> {
                &&& read == Ok::<u8, ExtractError>(old(self).bytes()[old(self).offset()])
                &&& final(self).offset() == old(self).offset() + 1
            },
            !in_bounds(old(self).bytes(), old(self).offset(), 1) ==> {
                &&& read == Err::<u8, ExtractError>(ExtractError::OutOfBounds)
                &&& final(self).offset() == old(self).offset()
            },
    {
        let read: &[u8] = self.read_bytes(1)?;
        Ok(read[0])
    }

    /// The next two bytes as a little-endian number.
    pub fn read_u16(&mut self) -> (read: Result<u16, ExtractError>)
        ensures
            final(self).bytes() == old(self).bytes(),
            in_bounds(old(self).bytes(), old(self).offset(), 2) ==> {
                &&& read is Ok
                &&& read.unwrap() == le_u16(old(self).bytes(), old(self).offset())
                &&& final(self).offset() == old(self).offset() + 2
            },
            !in_bounds(old(self).bytes(), old(self).offset(), 2) ==> {
                &&& read == Err::<u16, ExtractError>(ExtractError::OutOfBounds)
                &&& final(self).offset() == old(self).offset()
            },
    {
        let read: &[u8] = self.read_bytes(2)?;
        Ok(read[0] as u16 + 256 * (read[1] as u16))
    }

    /// The next four bytes as a little-endian number.
    pub fn read_u32(&mut self) -> (read: Result<u32, ExtractError>)
        ensures
            final(self).bytes() == old(self).bytes(),
            in_bounds(old(self).bytes(), old(self).offset(), 4) ==> {
                &&& read is Ok
                &&& read.unwrap() == le_u32(old(self).bytes(), old(self).offset())
                &&& final(self).offset() == old(self).offset() + 4
            },
            !in_bounds(old(self).bytes(), old(self).offset(), 4) ==> {
                &&& read == Err::<u32, ExtractError>(ExtractError::OutOfBounds)
                &&& final(self).offset() == old(self).offset()
            },
    {
        let read: &[u8] = self.read_bytes(4)?;
        Ok(
            read[0] as u32 + 256 * (read[1] as u32) + 65536 * (read[2] as u32) + 16777216 * (
            read[3] as u32),
        )
    }

    /// The text up to the next zero byte, one character for each byte; the
    /// cursor then stands behind the zero byte. No length bounds the text:
    /// where no zero byte follows, the read fails with `OutOfBounds`.
    pub fn read_cstring(&mut self) -> (read: Result<String, ExtractError>)
        ensures
            final(self).bytes() == old(self).bytes(),
            has_terminator(old(self).bytes(), old(self).offset()) ==> {
                &&& read is Ok
                &&& read.unwrap()@ == text_between(
                    old(self).bytes(),
                    old(self).offset(),
                    terminator(old(self).bytes(), old(self).offset()),
                )
                &&& final(self).offset() == terminator(old(self).bytes(), old(self).offset()) + 1
            },
            !has_terminator(old(self).bytes(), old(self).offset()) ==> {
                &&& read == Err::<String, ExtractError>(ExtractError::OutOfBounds)
                &&& final(self).offset() == old(self).offset()
            },
    {
        let len: usize = self.data.len();
        if self.pos >= len as u64 {
            return Err(ExtractError::OutOfBounds);
        }
        let start: usize = self.pos as usize;
        let mut text: String = String::new();
        let mut at: usize = start;
        while at < len && self.data[at] != 0
            invariant
                start <= at <= len,
                len == self.data@.len(),
                self.pos == start,
                text@ == text_between(self.data@, start as int, at as int),
                forall|i: int| start <= i < at ==> self.data@[i] != 0,
            decreases len - at,
        {
            push_char(&mut text, self.data[at] as char);
            at = at + 1;
            assert(text@ == text_between(self.data@, start as int, at as int));
        }
        if at == len {
            assert(!has_terminator(self.data@, start as int));
            return Err(ExtractError::OutOfBounds);
        }
        proof {
            lemma_terminator_is(self.data@, start as int, at as int);
        }
        self.pos = at as u64 + 1;
        Ok(text)
    }

    /// Three colour bytes, red first, and one padding byte that is dropped.
    pub fn read_color_rgb_padded(&mut self) -> (read: Result<(u8, u8, u8), ExtractError>)
        ensures
            final(self).bytes() == old(self).bytes(),
            in_bounds(old(self).bytes(), old(self).offset(), 4) ==> {
                &&& read == Ok::<(u8, u8, u8), ExtractError>(
                    (
                        old(self).bytes()[old(self).offset()],
                        old(self).bytes()[old(self).offset() + 1],
                        old(self).bytes()[old(self).offset() + 2],
                    ),
                )
                &&& final(self).offset() == old(self).offset() + 4
            },
            !in_bounds(old(self).bytes(), old(self).offset(), 4) ==> {
                &&& read == Err::<(u8, u8, u8), ExtractError>(ExtractError::OutOfBounds)
                &&& final(self).offset() == old(self).offset()
            },
    {
        let read: &[u8] = self.read_bytes(4)?;
        Ok((read[0], read[1], read[2]))
    }
}

} // verus!
