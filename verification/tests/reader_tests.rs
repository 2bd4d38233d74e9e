use shn::codec::AsciiCodec;
use shn::shn_reader::ShnReader;
use shn::{read_from, ShnCell, ShnColumn, ShnError};

fn le32(v: u32) -> [u8; 4] {
    v.to_le_bytes()
}

/// Assembles whole-file bytes around a plaintext payload: a zeroed
/// crypt header, the length field, and the obfuscated payload.
fn assemble(payload: &[u8]) -> Vec<u8> {
    let mut obfuscated = payload.to_vec();
    shn::decrypt(&mut obfuscated);
    let mut data = vec![0u8; 32];
    data.extend_from_slice(&le32((payload.len() + 0x24) as u32));
    data.extend_from_slice(&obfuscated);
    data
}

/// A payload declaring one Byte column named "A"; `default_len` is the
/// declared record length (the right value is 3: 2 synthetic + 1).
fn one_byte_column_payload(default_len: u32, rows: &[u8]) -> Vec<u8> {
    let mut p = Vec::new();
    p.extend_from_slice(&le32(0x11223344)); // opaque header word
    p.extend_from_slice(&le32((rows.len() / 3) as u32)); // record count
    p.extend_from_slice(&le32(default_len));
    p.extend_from_slice(&le32(1)); // column count
    let mut name = [0u8; 48];
    name[0] = b'A';
    p.extend_from_slice(&name);
    p.extend_from_slice(&le32(1)); // type id: Byte
    p.extend_from_slice(&le32(1)); // declared length
    p.extend_from_slice(rows);
    p
}

#[test]
fn fixed_string_cell_decodes_and_trims() {
    let data = vec![0x41, 0x42, 0x00, 0x00, 0x00];
    let col = ShnColumn::new_string_fixed_len("X", 5);
    let mut pos: usize = 0;
    let cell = ShnReader::read_cell(&data, &mut pos, &col, &AsciiCodec).unwrap();
    assert_eq!(cell, ShnCell::StringFixedLen(String::from("AB")));
    assert_eq!(pos, 5);
}

#[test]
fn terminated_string_cell_stops_after_nul() {
    let data = vec![0x43, 0x44, 0x00, 0x99, 0x77];
    let col = ShnColumn::new_string_terminated("X");
    let mut pos: usize = 0;
    let cell = ShnReader::read_cell(&data, &mut pos, &col, &AsciiCodec).unwrap();
    assert_eq!(cell, ShnCell::StringZeroTerminated(String::from("CD")));
    assert_eq!(pos, 3);
}

#[test]
fn terminated_string_without_nul_is_invalid_file() {
    let data = vec![0x43, 0x44];
    let col = ShnColumn::new_string_terminated("X");
    let mut pos: usize = 0;
    let r = ShnReader::read_cell(&data, &mut pos, &col, &AsciiCodec);
    assert_eq!(r, Err(ShnError::InvalidFile));
}

#[test]
fn schema_with_wrong_declared_length_is_rejected() {
    // the one Byte column gives a record length of 3; declaring 4 must fail
    let data = assemble(&one_byte_column_payload(4, &[]));
    let r = read_from(&data, &AsciiCodec);
    assert!(matches!(r, Err(ShnError::InvalidSchema)));
}

#[test]
fn schema_with_right_declared_length_is_accepted() {
    // one row: synthetic id 7 (two bytes) and byte cell 0x2a
    let data = assemble(&one_byte_column_payload(3, &[0x07, 0x00, 0x2a]));
    let file = read_from(&data, &AsciiCodec).unwrap();
    assert_eq!(file.header, 0x11223344);
    assert_eq!(file.schema.columns.len(), 2);
    assert_eq!(file.schema.columns[0].name, "__ID__");
    assert_eq!(file.schema.columns[1].name, "A");
    assert_eq!(file.data.len(), 1);
    assert_eq!(file.data[0].data[0], ShnCell::UnsignedShort(7));
    assert_eq!(file.data[0].data[1], ShnCell::Byte(0x2a));
}

#[test]
fn unassigned_type_id_is_invalid_file() {
    let mut p = Vec::new();
    p.extend_from_slice(&le32(0));
    p.extend_from_slice(&le32(0));
    p.extend_from_slice(&le32(2));
    p.extend_from_slice(&le32(1));
    p.extend_from_slice(&[0u8; 48]);
    p.extend_from_slice(&le32(4)); // 4 is not an assigned type id
    p.extend_from_slice(&le32(0));
    let data = assemble(&p);
    assert!(matches!(read_from(&data, &AsciiCodec), Err(ShnError::InvalidFile)));
}

#[test]
fn truncated_file_is_invalid_file() {
    assert!(matches!(read_from(&vec![0u8; 10], &AsciiCodec), Err(ShnError::InvalidFile)));
    // length field promising more bytes than there are
    let mut data = vec![0u8; 36];
    data[32..36].copy_from_slice(&le32(0x100));
    assert!(matches!(read_from(&data, &AsciiCodec), Err(ShnError::InvalidFile)));
    // length field below the fixed overhead
    let mut data = vec![0u8; 36];
    data[32..36].copy_from_slice(&le32(0x10));
    assert!(matches!(read_from(&data, &AsciiCodec), Err(ShnError::InvalidFile)));
}

#[test]
fn column_name_decodes_under_the_tolerant_policy() {
    // the name field holds a byte the codec cannot decode; it is skipped
    let mut p = Vec::new();
    p.extend_from_slice(&le32(0));
    p.extend_from_slice(&le32(0));
    p.extend_from_slice(&le32(3));
    p.extend_from_slice(&le32(1));
    let mut name = [0u8; 48];
    name[0] = 0x41;
    name[1] = 0xc0;
    name[2] = 0x42;
    p.extend_from_slice(&name);
    p.extend_from_slice(&le32(1));
    p.extend_from_slice(&le32(1));
    let data = assemble(&p);
    let file = read_from(&data, &AsciiCodec).unwrap();
    assert_eq!(file.schema.columns[1].name, "AB");
}
