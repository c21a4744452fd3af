use image_bank::error::ExtractError;
use image_bank::index::scan_archive_index;
use image_bank::locator::locate_archive;

fn put_u16(out: &mut Vec<u8>, value: u16) {
    out.extend_from_slice(&value.to_le_bytes());
}

fn put_u32(out: &mut Vec<u8>, value: u32) {
    out.extend_from_slice(&value.to_le_bytes());
}

fn section(name: &[u8], raw_size: u32, raw_address: u32) -> Vec<u8> {
    let mut record: Vec<u8> = Vec::new();
    record.extend_from_slice(name);
    record.resize(8, 0);
    put_u32(&mut record, 0x1000);
    put_u32(&mut record, 0x2000);
    put_u32(&mut record, raw_size);
    put_u32(&mut record, raw_address);
    record.resize(40, 0);
    record
}

/// An executable whose main header stands at `header` and whose section
/// table holds `sections`.
fn executable(header: u32, sections: &[Vec<u8>]) -> Vec<u8> {
    let mut exe: Vec<u8> = vec![b'M', b'Z'];
    exe.resize(60, 0x90);
    put_u32(&mut exe, header);
    exe.resize(header as usize, 0x90);
    exe.extend_from_slice(b"PE\0\0");
    put_u16(&mut exe, 0x014C);
    put_u16(&mut exe, sections.len() as u16);
    exe.resize(exe.len() + 16 + 224, 0x11);
    for record in sections {
        exe.extend_from_slice(record);
    }
    exe
}

const MAGIC: [u8; 8] = [0x77, 0x77, 0x77, 0x77, 0x49, 0x87, 0x47, 0x12];

/// An archive header and index with the given entries (name length in
/// two-byte units, payload size), and the 16 bytes behind the index.
fn archive(entries: &[(u16, u32)]) -> Vec<u8> {
    let mut out: Vec<u8> = Vec::new();
    out.extend_from_slice(&MAGIC);
    out.resize(16, 0xAA);
    put_u32(&mut out, 7);
    out.resize(28, 0xBB);
    put_u32(&mut out, entries.len() as u32);
    for (name_units, payload_size) in entries {
        put_u16(&mut out, *name_units);
        out.resize(out.len() + 2 * (*name_units as usize), 0x41);
        put_u32(&mut out, 0xDEADBEEF);
        put_u32(&mut out, *payload_size);
        out.resize(out.len() + *payload_size as usize, 0xCC);
    }
    out.resize(out.len() + 16, 0xDD);
    out
}

#[test]
fn buffer_not_starting_with_mz_is_refused() {
    let mut exe: Vec<u8> = executable(64, &[section(b".extra", 0, 0x400)]);
    assert_eq!(locate_archive(&exe), Ok(0x400));
    exe[0] = b'Z';
    exe[1] = b'M';
    assert_eq!(locate_archive(&exe), Err(ExtractError::InvalidExecutableSignature));
    exe[0] = b'M';
    exe[1] = b'z';
    assert_eq!(locate_archive(&exe), Err(ExtractError::InvalidExecutableSignature));
    assert_eq!(locate_archive(&[0u8, 0u8]), Err(ExtractError::InvalidExecutableSignature));
    assert_eq!(locate_archive(b"PK"), Err(ExtractError::InvalidExecutableSignature));
}

#[test]
fn buffer_shorter_than_the_stub_signature_is_out_of_bounds() {
    assert_eq!(locate_archive(&[]), Err(ExtractError::OutOfBounds));
    assert_eq!(locate_archive(b"M"), Err(ExtractError::OutOfBounds));
}

#[test]
fn stub_without_header_pointer_is_out_of_bounds() {
    assert_eq!(locate_archive(b"MZ"), Err(ExtractError::OutOfBounds));
    let mut exe: Vec<u8> = vec![b'M', b'Z'];
    exe.resize(63, 0);
    assert_eq!(locate_archive(&exe), Err(ExtractError::OutOfBounds));
}

#[test]
fn header_pointer_past_the_end_is_out_of_bounds() {
    let mut exe: Vec<u8> = vec![b'M', b'Z'];
    exe.resize(60, 0);
    exe.extend_from_slice(&0xFFFF_FFFFu32.to_le_bytes());
    assert_eq!(locate_archive(&exe), Err(ExtractError::OutOfBounds));
}

#[test]
fn wrong_main_header_signature_is_refused() {
    let mut exe: Vec<u8> = executable(128, &[section(b".text", 0x200, 0x400)]);
    assert_eq!(locate_archive(&exe), Ok(0x600));
    exe[131] = 1;
    assert_eq!(locate_archive(&exe), Err(ExtractError::InvalidHeaderSignature));
    exe[131] = 0;
    exe[128] = b'N';
    assert_eq!(locate_archive(&exe), Err(ExtractError::InvalidHeaderSignature));
}

#[test]
fn single_unnamed_section_falls_back_to_raw_size_plus_address() {
    let exe: Vec<u8> = executable(64, &[section(b".text", 0x1200, 0x400)]);
    assert_eq!(locate_archive(&exe), Ok(0x1600));
}

#[test]
fn fallback_sum_does_not_wrap() {
    let exe: Vec<u8> = executable(64, &[section(b".data", 0xFFFF_FFFF, 0xFFFF_FFFF)]);
    assert_eq!(locate_archive(&exe), Ok(0x1_FFFF_FFFE));
}

#[test]
fn fallback_uses_the_last_section() {
    let exe: Vec<u8> = executable(
        64,
        &[section(b".text", 0x100, 0x400), section(b".rdata", 0x200, 0x500), section(b".rsrc", 0x300, 0x700)],
    );
    assert_eq!(locate_archive(&exe), Ok(0xA00));
}

#[test]
fn extra_section_gives_its_raw_address() {
    let exe: Vec<u8> = executable(
        64,
        &[section(b".text", 0x100, 0x400), section(b".extra", 0x200, 0x1234), section(b".rsrc", 0x300, 0x700)],
    );
    assert_eq!(locate_archive(&exe), Ok(0x1234));
    let last: Vec<u8> = executable(64, &[section(b".text", 0x100, 0x400), section(b".extra", 0x200, 0x4321)]);
    assert_eq!(locate_archive(&last), Ok(0x4321));
}

#[test]
fn section_name_must_match_whole() {
    let longer: Vec<u8> = executable(64, &[section(b".extras", 0x10, 0x20)]);
    assert_eq!(locate_archive(&longer), Ok(0x30));
    let shorter: Vec<u8> = executable(64, &[section(b".extr", 0x10, 0x20)]);
    assert_eq!(locate_archive(&shorter), Ok(0x30));
    let upper: Vec<u8> = executable(64, &[section(b".EXTRA", 0x10, 0x20)]);
    assert_eq!(locate_archive(&upper), Ok(0x30));
}

#[test]
fn empty_section_table_has_no_archive() {
    let exe: Vec<u8> = executable(64, &[]);
    assert_eq!(locate_archive(&exe), Err(ExtractError::ArchiveNotFound));
}

#[test]
fn truncated_section_table_is_out_of_bounds() {
    let mut exe: Vec<u8> = executable(64, &[section(b".text", 0x100, 0x400), section(b".rsrc", 0x300, 0x700)]);
    let full: usize = exe.len();
    exe.truncate(full - 40);
    assert_eq!(locate_archive(&exe), Err(ExtractError::OutOfBounds));
    let mut cut: Vec<u8> = executable(64, &[section(b".text", 0x100, 0x400)]);
    cut.truncate(full - 40 - 17);
    assert_eq!(locate_archive(&cut), Err(ExtractError::OutOfBounds));
}

#[test]
fn section_name_without_terminator_is_out_of_bounds() {
    let mut exe: Vec<u8> = executable(64, &[section(b".text", 0x100, 0x400)]);
    let table: usize = 64 + 4 + 4 + 16 + 224;
    for byte in exe[table..].iter_mut() {
        *byte = 0x41;
    }
    assert_eq!(locate_archive(&exe), Err(ExtractError::OutOfBounds));
    exe.push(0);
    assert_eq!(locate_archive(&exe), Ok(0x41414141u64 + 0x41414141u64));
}

#[test]
fn altered_magic_byte_is_not_the_expected_format() {
    let good: Vec<u8> = archive(&[]);
    assert_eq!(scan_archive_index(&good, 0), Ok(48));
    for place in 0..8 {
        let mut bad: Vec<u8> = good.clone();
        bad[place] ^= 0x01;
        assert_eq!(scan_archive_index(&bad, 0), Err(ExtractError::NotTheExpectedFormat));
        let mut worse: Vec<u8> = good.clone();
        worse[place] = !worse[place];
        assert_eq!(scan_archive_index(&worse, 0), Err(ExtractError::NotTheExpectedFormat));
    }
}

#[test]
fn archive_is_scanned_from_the_given_offset() {
    let mut buf: Vec<u8> = vec![0x55; 100];
    buf.extend_from_slice(&archive(&[]));
    assert_eq!(scan_archive_index(&buf, 100), Ok(148));
    assert_eq!(scan_archive_index(&buf, 99), Err(ExtractError::NotTheExpectedFormat));
    assert_eq!(scan_archive_index(&buf, 0), Err(ExtractError::NotTheExpectedFormat));
}

#[test]
fn archive_offset_past_the_end_is_out_of_bounds() {
    let buf: Vec<u8> = archive(&[]);
    assert_eq!(scan_archive_index(&buf, 41), Err(ExtractError::OutOfBounds));
    assert_eq!(scan_archive_index(&buf, 48), Err(ExtractError::OutOfBounds));
    assert_eq!(scan_archive_index(&buf, 0x1_0000_0000), Err(ExtractError::OutOfBounds));
    assert_eq!(scan_archive_index(&buf, u64::MAX), Err(ExtractError::OutOfBounds));
}

#[test]
fn index_entries_are_skipped_by_their_lengths() {
    let buf: Vec<u8> = archive(&[(3, 10), (0, 0), (5, 1)]);
    let expected: u64 = 32 + (2 + 6 + 4 + 4 + 10) + (2 + 4 + 4) + (2 + 10 + 4 + 4 + 1) + 16;
    assert_eq!(expected, 105);
    assert_eq!(buf.len() as u64, expected);
    assert_eq!(scan_archive_index(&buf, 0), Ok(expected));
}

#[test]
fn truncated_archive_header_is_out_of_bounds() {
    let buf: Vec<u8> = archive(&[]);
    assert_eq!(scan_archive_index(&buf[..8], 0), Err(ExtractError::OutOfBounds));
    assert_eq!(scan_archive_index(&buf[..19], 0), Err(ExtractError::OutOfBounds));
    assert_eq!(scan_archive_index(&buf[..31], 0), Err(ExtractError::OutOfBounds));
    assert_eq!(scan_archive_index(&buf[..7], 0), Err(ExtractError::OutOfBounds));
}

#[test]
fn skips_of_the_index_are_not_held_against_the_buffer() {
    let buf: Vec<u8> = archive(&[]);
    assert_eq!(scan_archive_index(&buf[..32], 0), Ok(48));
    let mut entry: Vec<u8> = archive(&[(1, 1000)]);
    entry.truncate(32 + 2 + 2 + 4 + 4);
    assert_eq!(scan_archive_index(&entry, 0), Ok(32 + 12 + 1000 + 16));
}

#[test]
fn truncated_index_entry_is_out_of_bounds() {
    let full: Vec<u8> = archive(&[(4, 3)]);
    assert_eq!(scan_archive_index(&full, 0), Ok(32 + 2 + 8 + 4 + 4 + 3 + 16));
    assert_eq!(scan_archive_index(&full[..33], 0), Err(ExtractError::OutOfBounds));
    assert_eq!(scan_archive_index(&full[..32 + 2 + 8 + 4 + 3], 0), Err(ExtractError::OutOfBounds));
    let mut missing: Vec<u8> = archive(&[]);
    missing[28] = 2;
    assert_eq!(scan_archive_index(&missing, 0), Err(ExtractError::OutOfBounds));
}
