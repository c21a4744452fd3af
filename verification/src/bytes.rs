//! The vocabulary in which every layer of the format is described:
//! positions in a byte sequence, little-endian numbers, zero-terminated text.

use vstd::prelude::*;

verus! {

/// `count` bytes can be read from `bytes` at `at`.
pub open spec fn in_bounds(bytes: Seq<u8>, at: int, count: int) -> bool {
    0 <= at && at + count <= bytes.len()
}

/// The 16-bit little-endian number at `at`.
pub open spec fn le_u16(bytes: Seq<u8>, at: int) -> int {
    bytes[at] as int + 256 * (bytes[at + 1] as int)
}

/// The 32-bit little-endian number at `at`.
pub open spec fn le_u32(bytes: Seq<u8>, at: int) -> int {
    bytes[at] as int + 256 * (bytes[at + 1] as int) + 65536 * (bytes[at + 2] as int) + 16777216 * (
    bytes[at + 3] as int)
}

/// A position as a cursor can hold it: positions beyond the largest `u64`
/// are all held as the largest `u64`.
pub open spec fn clip(position: int) -> u64 {
    if position > u64::MAX {
        u64::MAX
    } else if position < 0 {
        0
    } else {
        position as u64
    }
}

/// `end` is the first zero byte of `bytes` at or after `at`.
pub open spec fn is_terminator(bytes: Seq<u8>, at: int, end: int) -> bool {
    &&& 0 <= at <= end < bytes.len()
    &&& bytes[end] == 0
    &&& forall|i: int| at <= i < end ==> bytes[i] != 0
}

/// A zero byte stands in `bytes` at or after `at`.
pub open spec fn has_terminator(bytes: Seq<u8>, at: int) -> bool {
    exists|end: int| is_terminator(bytes, at, end)
}

/// The position of the first zero byte at or after `at`, where there is one.
pub open spec fn terminator(bytes: Seq<u8>, at: int) -> int {
    choose|end: int| is_terminator(bytes, at, end)
}

/// The bytes from `at` up to `end`, each read as one character.
pub open spec fn text_between(bytes: Seq<u8>, at: int, end: int) -> Seq<char> {
    Seq::new((end - at) as nat, |i: int| bytes[at + i] as char)
}

/// A range of bytes has one first zero byte at most.
pub proof fn lemma_terminator_unique(bytes: Seq<u8>, at: int, first: int, second: int)
    requires
        is_terminator(bytes, at, first),
        is_terminator(bytes, at, second),
    ensures
        first == second,
{
    if first < second {
        assert(bytes[first] != 0);
    } else if second < first {
        assert(bytes[second] != 0);
    }
}

/// Where `end` is the first zero byte, `terminator` names it.
pub proof fn lemma_terminator_is(bytes: Seq<u8>, at: int, end: int)
    requires
        is_terminator(bytes, at, end),
    ensures
        has_terminator(bytes, at),
        terminator(bytes, at) == end,
{
    lemma_terminator_unique(bytes, at, end, terminator(bytes, at));
}

/// A position that no `u64` holds lies past the end of every buffer, and so
/// does the largest `u64`, as which a cursor holds it: nothing of one byte or
/// more can be read at either.
pub proof fn lemma_clip_past_end(bytes: Seq<u8>, position: int)
    requires
        bytes.len() <= usize::MAX,
        position > u64::MAX,
    ensures
        clip(position) == u64::MAX,
        !has_terminator(bytes, position),
        !has_terminator(bytes, clip(position) as int),
        forall|count: int|
            count >= 1 ==> !#[trigger] in_bounds(bytes, position, count) && !in_bounds(
                bytes,
                clip(position) as int,
                count,
            ),
{
}

} // verus!
