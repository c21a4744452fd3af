use image_bank::bank::BankItem;
use image_bank::chunks::{ChunkHeader, ChunkKind};
use image_bank::cursor::ByteCursor;
use image_bank::error::ExtractError;
use image_bank::raster::{Raster, Rgba};
use image_bank::record::ImageRecord;
use miniz_oxide::deflate::compress_to_vec_zlib;

fn record(width: u16, height: u16, flags: u8, payload: &[u8]) -> Vec<u8> {
    let mut out: Vec<u8> = Vec::new();
    out.extend_from_slice(&[1, 2, 3, 4, 5, 6, 7, 8]);
    out.extend_from_slice(&(payload.len() as u32).to_le_bytes());
    out.extend_from_slice(&width.to_le_bytes());
    out.extend_from_slice(&height.to_le_bytes());
    out.push(4);
    out.push(flags);
    out.extend_from_slice(&[0; 14]);
    out.extend_from_slice(payload);
    out
}

#[test]
fn image_record_is_parsed_from_its_header() {
    let bytes: Vec<u8> = record(0x0105, 0x0203, 0x10, &[9, 8, 7]);
    let parsed: ImageRecord = ImageRecord::parse(&bytes).unwrap();
    assert_eq!(parsed.declared_width, 0x0105);
    assert_eq!(parsed.height, 0x0203);
    assert!(parsed.alpha);
    assert_eq!(parsed.payload, &[9, 8, 7][..]);
    let plain: Vec<u8> = record(2, 1, 0x2F, &[]);
    let parsed_plain: ImageRecord = ImageRecord::parse(&plain).unwrap();
    assert!(!parsed_plain.alpha);
    assert_eq!(parsed_plain.payload.len(), 0);
}

#[test]
fn image_record_needs_its_header_and_its_payload() {
    let bytes: Vec<u8> = record(2, 1, 0, &[1, 2, 3, 4, 5, 6]);
    assert_eq!(bytes.len(), 38);
    assert!(ImageRecord::parse(&bytes).is_ok());
    assert_eq!(ImageRecord::parse(&bytes[..37]).unwrap_err(), ExtractError::OutOfBounds);
    assert_eq!(ImageRecord::parse(&bytes[..32]).unwrap_err(), ExtractError::OutOfBounds);
    assert_eq!(ImageRecord::parse(&bytes[..31]).unwrap_err(), ExtractError::OutOfBounds);
    assert_eq!(ImageRecord::parse(&[]).unwrap_err(), ExtractError::OutOfBounds);
}

#[test]
fn parsed_record_decodes_to_its_raster() {
    let parsed = ImageRecord { declared_width: 1, height: 1, alpha: true, payload: &[1, 2, 3, 4, 5, 6, 7, 8] };
    let raster: Raster = parsed.decode().unwrap();
    assert_eq!((raster.width(), raster.height()), (2, 1));
    assert_eq!(
        raster.pixels(),
        &[Rgba { red: 3, green: 2, blue: 1, alpha: 7 }, Rgba { red: 6, green: 5, blue: 4, alpha: 8 }][..]
    );
    let short = ImageRecord { declared_width: 1, height: 1, alpha: false, payload: &[1, 2, 3, 4, 5] };
    assert_eq!(short.decode(), Err(ExtractError::OutOfBounds));
}

#[test]
fn bank_item_is_read_with_its_compressed_bytes() {
    let mut bytes: Vec<u8> = vec![0xEE];
    bytes.extend_from_slice(&0x11223344u32.to_le_bytes());
    bytes.extend_from_slice(&70u32.to_le_bytes());
    bytes.extend_from_slice(&3u32.to_le_bytes());
    bytes.extend_from_slice(&[9, 8, 7, 6]);
    let mut cursor = ByteCursor::new(&bytes);
    cursor.seek(1);
    let item: BankItem = BankItem::read(&mut cursor).unwrap();
    assert_eq!(item.identifier, 0x11223344);
    assert_eq!(item.declared_size, 70);
    assert_eq!(item.packed, &[9, 8, 7][..]);
    assert_eq!(cursor.position(), 16);
}

#[test]
fn bank_item_that_does_not_fit_leaves_the_cursor() {
    let mut bytes: Vec<u8> = Vec::new();
    bytes.extend_from_slice(&1u32.to_le_bytes());
    bytes.extend_from_slice(&70u32.to_le_bytes());
    bytes.extend_from_slice(&3u32.to_le_bytes());
    bytes.extend_from_slice(&[9, 8]);
    let mut cursor = ByteCursor::new(&bytes);
    assert_eq!(BankItem::read(&mut cursor).unwrap_err(), ExtractError::OutOfBounds);
    assert_eq!(cursor.position(), 0);
    cursor.seek(3);
    assert_eq!(BankItem::read(&mut cursor).unwrap_err(), ExtractError::OutOfBounds);
    assert_eq!(cursor.position(), 3);
    cursor.seek(14);
    assert_eq!(BankItem::read(&mut cursor).unwrap_err(), ExtractError::OutOfBounds);
    assert_eq!(cursor.position(), 14);
}

#[test]
fn bank_item_inflates_and_decodes() {
    let plain: Vec<u8> = record(2, 1, 0, &[1, 2, 3, 4, 5, 6]);
    let packed: Vec<u8> = compress_to_vec_zlib(&plain, 9);
    let item = BankItem { identifier: 5, declared_size: 38, packed: &packed };
    let raster: Raster = item.decode().unwrap();
    assert_eq!(raster.to_rgba_bytes(), vec![3, 2, 1, 255, 6, 5, 4, 255]);
    let wrong = BankItem { identifier: 5, declared_size: 37, packed: &packed };
    assert_eq!(wrong.decode(), Err(ExtractError::CompressionSizeMismatch));
    let raw = BankItem { identifier: 5, declared_size: 38, packed: &plain };
    assert_eq!(raw.decode(), Err(ExtractError::CompressionSizeMismatch));
}

#[test]
fn chunk_header_is_read_field_by_field() {
    let bytes: Vec<u8> = vec![0x66, 0x66, 0x01, 0x00, 0x78, 0x56, 0x34, 0x12, 0xAA];
    let mut cursor = ByteCursor::new(&bytes);
    assert_eq!(
        ChunkHeader::read(&mut cursor),
        Ok(Some(ChunkHeader { identifier: 0x6666, mode: 1, size: 0x12345678 }))
    );
    assert_eq!(cursor.position(), 8);
}

#[test]
fn sentinel_is_read_without_mode_and_size() {
    let bytes: Vec<u8> = vec![0x7F, 0x7F];
    let mut cursor = ByteCursor::new(&bytes);
    assert_eq!(ChunkHeader::read(&mut cursor), Ok(None));
    assert_eq!(cursor.position(), 2);
    let half: Vec<u8> = vec![0x7F, 0x7E, 0x7F, 0x7F];
    let mut other = ByteCursor::new(&half);
    assert_eq!(ChunkHeader::read(&mut other), Err(ExtractError::OutOfBounds));
    other.seek(2);
    assert_eq!(ChunkHeader::read(&mut other), Ok(None));
}

#[test]
fn chunk_header_that_does_not_fit_leaves_the_cursor() {
    let bytes: Vec<u8> = vec![0x66, 0x66, 0x01, 0x00, 0x78, 0x56, 0x34];
    for length in 0..8 {
        let mut cursor = ByteCursor::new(&bytes[..length.min(7)]);
        assert_eq!(ChunkHeader::read(&mut cursor), Err(ExtractError::OutOfBounds));
        assert_eq!(cursor.position(), 0);
    }
    let mut cursor = ByteCursor::new(&bytes);
    cursor.seek(1);
    assert_eq!(ChunkHeader::read(&mut cursor), Err(ExtractError::OutOfBounds));
    assert_eq!(cursor.position(), 1);
}

#[test]
fn chunks_are_told_apart_by_mode_and_identifier() {
    let kind = |identifier: u16, mode: u16| ChunkHeader { identifier, mode, size: 9 }.classify();
    assert_eq!(kind(0x6666, 0), ChunkKind::ImageBank);
    assert_eq!(kind(0x6666, 1), ChunkKind::Compressed);
    assert_eq!(kind(0x2223, 1), ChunkKind::Compressed);
    assert_eq!(kind(0x6666, 2), ChunkKind::Unknown);
    assert_eq!(kind(0x6667, 0), ChunkKind::Unknown);
    assert_eq!(kind(0x7F7F, 0), ChunkKind::Unknown);
    assert_eq!(kind(0, 0xFFFF), ChunkKind::Unknown);
}
