//! Decoding an image bank: a count and that many compressed image records.

use vstd::prelude::*;
use crate::bytes::{in_bounds, le_u32};
use crate::cursor::ByteCursor;
use crate::error::ExtractError;
use crate::inflate::{inflate_region, inflated_region, zlib_inflated};
use crate::raster::{Raster, RasterView};
use crate::record::{decode_image_record, record_raster};
use crate::sink::{image_views, lemma_views_of_push, BankImage, BankImageView, Outcome};

verus! {

/// The size of what stands before the compressed bytes of an item: its
/// identifier, the size of its record and the size of its compressed bytes.
pub const ITEM_HEADER_SIZE: u64 = 12;

/// What an item of a bank is: its identifier, the size that it declares for
/// its inflated record, and its compressed bytes.
pub ghost struct BankItemView {
    pub identifier: int,
    pub declared_size: int,
    pub packed: Seq<u8>,
}

impl BankItemView {
    /// The raster that the item holds: that of its inflated record.
    pub open spec fn raster(self) -> Result<RasterView, ExtractError> {
        match inflated_region(self.packed, self.declared_size) {
            Ok(record) => record_raster(record),
            Err(reason) => Err(reason),
        }
    }
}

/// One item of an image bank, as it is read and before it is inflated. The
/// compressed bytes are borrowed from the bank.
#[derive(Clone, Copy, Debug)]
pub struct BankItem<'a> {
    pub identifier: u32,
    pub declared_size: u32,
    pub packed: &'a [u8],
}

impl<'a> View for BankItem<'a> {
    type V = BankItemView;

    open spec fn view(&self) -> BankItemView {
        BankItemView {
            identifier: self.identifier as int,
            declared_size: self.declared_size as int,
            packed: self.packed@,
        }
    }
}

/// The item that starts at `at` in the bank `payload`.
pub open spec fn item_at(payload: Seq<u8>, at: int) -> Result<BankItemView, ExtractError> {
    if !in_bounds(payload, at, ITEM_HEADER_SIZE as int) {
        Err(ExtractError::OutOfBounds)
    } else if !in_bounds(payload, at + ITEM_HEADER_SIZE, le_u32(payload, at + 8)) {
        Err(ExtractError::OutOfBounds)
    } else {
        Ok(
            BankItemView {
                identifier: le_u32(payload, at),
                declared_size: le_u32(payload, at + 4),
                packed: payload.subrange(at + ITEM_HEADER_SIZE, item_end(payload, at)),
            },
        )
    }
}

/// The raster of the item that starts at `at` in the bank `payload`.
pub open spec fn item_raster(payload: Seq<u8>, at: int) -> Result<RasterView, ExtractError> {
    match item_at(payload, at) {
        Ok(item) => item.raster(),
        Err(reason) => Err(reason),
    }
}

/// The position behind the item that starts at `at`.
pub open spec fn item_end(payload: Seq<u8>, at: int) -> int {
    at + ITEM_HEADER_SIZE + le_u32(payload, at + 8)
}

/// The outcome of decoding the items from number `position` on, the first of
/// them at `at`, of a bank of `count` items.
pub open spec fn items_outcome(payload: Seq<u8>, at: int, position: int, count: int) -> Outcome
    decreases count - position,
{
    if position >= count {
        Outcome::complete()
    } else {
        match item_raster(payload, at) {
            Ok(raster) => items_outcome(payload, item_end(payload, at), position + 1, count).after(
                seq![BankImageView { position, raster }],
            ),
            Err(reason) => Outcome::failed(reason),
        }
    }
}

/// The outcome of decoding the image bank `payload`.
pub open spec fn bank_outcome(payload: Seq<u8>) -> Outcome {
    if !in_bounds(payload, 0, 4) {
        Outcome::failed(ExtractError::OutOfBounds)
    } else {
        items_outcome(payload, 4, 0, le_u32(payload, 0))
    }
}

/// The images of a bank are numbered as its items are, and there are as many
/// as the bank has items, or fewer where an item fails. An item fails in two
/// ways alone: the bytes end before it does, or it does not inflate to the
/// size it declares.
pub proof fn lemma_items_outcome(payload: Seq<u8>, at: int, position: int, count: int)
    requires
        position <= count,
    ensures
        items_outcome(payload, at, position, count).images.len() <= count - position,
        items_outcome(payload, at, position, count).failure is None ==> items_outcome(
            payload,
            at,
            position,
            count,
        ).images.len() == count - position,
        forall|i: int|
            0 <= i < items_outcome(payload, at, position, count).images.len()
                ==> #[trigger] items_outcome(payload, at, position, count).images[i].position
                == position + i,
        items_outcome(payload, at, position, count).failure matches Some(reason) ==> reason
            == ExtractError::OutOfBounds || reason == ExtractError::CompressionSizeMismatch,
    decreases count - position,
{
    if position < count {
        match item_raster(payload, at) {
            Ok(raster) => {
                lemma_items_outcome(payload, item_end(payload, at), position + 1, count);
            },
            Err(_) => {},
        }
    }
}

/// The images of a bank are numbered from 0 in the order of its items; a
/// bank fails in two ways alone.
pub proof fn lemma_bank_outcome(payload: Seq<u8>)
    ensures
        forall|i: int|
            0 <= i < bank_outcome(payload).images.len() ==> #[trigger] bank_outcome(
                payload,
            ).images[i].position == i,
        bank_outcome(payload).failure matches Some(reason) ==> reason == ExtractError::OutOfBounds
            || reason == ExtractError::CompressionSizeMismatch,
{
    if in_bounds(payload, 0, 4) {
        lemma_items_outcome(payload, 4, 0, le_u32(payload, 0));
    }
}

/// An item whose compressed bytes do not inflate to exactly as many bytes as
/// it declares is a size mismatch, and nothing is decoded from it on: the
/// outcome from that item on holds the failure and no image.
pub proof fn lemma_size_mismatch_ends_bank(payload: Seq<u8>, at: int, position: int, count: int)
    requires
        position < count,
        in_bounds(payload, at, ITEM_HEADER_SIZE as int),
        in_bounds(payload, at + ITEM_HEADER_SIZE, le_u32(payload, at + 8)),
        zlib_inflated(
            payload.subrange(at + ITEM_HEADER_SIZE, item_end(payload, at)),
            le_u32(payload, at + 4),
        ) matches Some(record) ==> record.len() != le_u32(payload, at + 4),
    ensures
        item_raster(payload, at) == Err::<RasterView, ExtractError>(
            ExtractError::CompressionSizeMismatch,
        ),
        items_outcome(payload, at, position, count) == Outcome::failed(
            ExtractError::CompressionSizeMismatch,
        ),
{
}

impl<'a> BankItem<'a> {
    /// Reads the item at the cursor. Where the bank ends before the item
    /// does, the cursor stays where it was.
    pub fn read(cursor: &mut ByteCursor<'a>) -> (read: Result<BankItem<'a>, ExtractError>)
        ensures
            final(cursor).bytes() == old(cursor).bytes(),
            match item_at(old(cursor).bytes(), old(cursor).offset()) {
                Ok(item) => {
                    &&& read is Ok
                    &&& read.unwrap()@ == item
                    &&& final(cursor).offset() == item_end(old(cursor).bytes(), old(cursor).offset())
                },
                Err(reason) => {
                    &&& read is Err
                    &&& read.unwrap_err() == reason
                    &&& final(cursor).offset() == old(cursor).offset()
                },
            },
    {
        let start: u64 = cursor.position();
        let read: Result<BankItem<'a>, ExtractError> = Self::read_fields(cursor);
        if read.is_err() {
            cursor.seek(start);
        }
        read
    }

    fn read_fields(cursor: &mut ByteCursor<'a>) -> (read: Result<BankItem<'a>, ExtractError>)
        ensures
            final(cursor).bytes() == old(cursor).bytes(),
            match item_at(old(cursor).bytes(), old(cursor).offset()) {
                Ok(item) => {
                    &&& read is Ok
                    &&& read.unwrap()@ == item
                    &&& final(cursor).offset() == item_end(old(cursor).bytes(), old(cursor).offset())
                },
                Err(reason) => read is Err && read.unwrap_err() == reason,
            },
    {
        let identifier: u32 = cursor.read_u32()?;
        let declared_size: u32 = cursor.read_u32()?;
        let packed_size: u32 = cursor.read_u32()?;
        let packed: &'a [u8] = cursor.read_bytes(packed_size as usize)?;
        Ok(BankItem { identifier, declared_size, packed })
    }

    /// Inflates the item and decodes its record.
    pub fn decode(&self) -> (decoded: Result<Raster, ExtractError>)
        ensures
            match self@.raster() {
                Ok(raster) => decoded is Ok && decoded.unwrap()@ == raster,
                Err(reason) => decoded == Err::<Raster, ExtractError>(reason),
            },
    {
        let record: Vec<u8> = inflate_region(self.packed, self.declared_size)?;
        decode_image_record(record.as_slice())
    }
}

/// Decodes the image bank `payload` and pushes its images to `sink`, each as
/// soon as it is decoded. The first item that cannot be decoded ends the
/// work; the images pushed before it stay in `sink`.
pub fn decode_image_bank(payload: &[u8], sink: &mut Vec<BankImage>) -> (decoded: Result<
    (),
    ExtractError,
>)
    ensures
        image_views(final(sink)@) == image_views(old(sink)@) + bank_outcome(payload@).images,
        decoded == bank_outcome(payload@).as_result(),
{
    let mut cursor = ByteCursor::new(payload);
    let count: u32 = cursor.read_u32()?;
    let mut position: u32 = 0;
    let ghost mut done: Seq<BankImageView> = Seq::empty();
    while position < count
        invariant
            cursor.bytes() == payload@,
            position <= count,
            image_views(sink@) == image_views(old(sink)@) + done,
            bank_outcome(payload@).images == done + items_outcome(
                payload@,
                cursor.offset(),
                position as int,
                count as int,
            ).images,
            bank_outcome(payload@).failure == items_outcome(
                payload@,
                cursor.offset(),
                position as int,
                count as int,
            ).failure,
        decreases count - position,
    {
        let ghost at: int = cursor.offset();
        let item: BankItem = BankItem::read(&mut cursor)?;
        let raster: Raster = item.decode()?;
        let image = BankImage { position, raster };
        proof {
            lemma_views_of_push(sink@, image);
            let rest = items_outcome(payload@, item_end(payload@, at), position + 1, count as int);
            assert(done + (seq![image@] + rest.images) =~= done.push(image@) + rest.images);
            done = done.push(image@);
        }
        sink.push(image);
        position = position + 1;
    }
    Ok(())
}

} // verus!
