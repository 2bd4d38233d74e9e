use shn::codec::{AsciiCodec, Windows949Codec};
use shn::{
    read_from, write_to, ShnCell, ShnColumn, ShnDataType, ShnError, ShnFile, ShnRow, ShnSchema,
};
use std::sync::Arc;

fn id_column() -> ShnColumn {
    ShnColumn {
        name: String::from("__ID__"),
        data_type: ShnDataType::UnsignedShort,
        data_length: 2,
    }
}

fn full_schema() -> ShnSchema {
    ShnSchema {
        columns: vec![
            id_column(),
            ShnColumn::new_byte("B"),
            ShnColumn::new_signed_byte("SB"),
            ShnColumn::new_unsigned_short("US"),
            ShnColumn::new_signed_short("SS"),
            ShnColumn::new_unsigned_integer("UI"),
            ShnColumn::new_signed_integer("SI"),
            ShnColumn::new_single_floating_point("F"),
            ShnColumn::new_string_fixed_len("SF", 8),
            ShnColumn::new_string_terminated("SZ"),
        ],
    }
}

fn row(schema: &Arc<ShnSchema>, tag: u16, text: &str) -> ShnRow {
    ShnRow {
        schema: Arc::clone(schema),
        data: vec![
            ShnCell::UnsignedShort(tag),
            ShnCell::Byte(0xfe),
            ShnCell::SignedByte(-5),
            ShnCell::UnsignedShort(65535),
            ShnCell::SignedShort(-1234),
            ShnCell::UnsignedInteger(0xdead_beef),
            ShnCell::SignedInteger(-100_000),
            ShnCell::SingleFloatingPoint(1.5f32.to_bits()),
            ShnCell::StringFixedLen(String::from(text)),
            ShnCell::StringZeroTerminated(String::from("world")),
        ],
    }
}

fn sample_file() -> ShnFile {
    let schema = Arc::new(full_schema());
    let rows = vec![row(&schema, 1, "hello"), row(&schema, 2, "bye")];
    ShnFile { crypt_header: [0xab; 32], header: 0x1234_5678, schema, data: rows }
}

fn assert_files_equal(a: &ShnFile, b: &ShnFile) {
    assert_eq!(a.crypt_header, b.crypt_header);
    assert_eq!(a.header, b.header);
    assert!(*a.schema == *b.schema);
    assert_eq!(a.data.len(), b.data.len());
    for (ra, rb) in a.data.iter().zip(b.data.iter()) {
        assert!(*ra.schema == *rb.schema);
        assert_eq!(ra.data, rb.data);
    }
}

#[test]
fn write_then_read_reproduces_the_file() {
    let file = sample_file();
    let bytes = write_to(&file, &AsciiCodec).unwrap();
    let back = read_from(&bytes, &AsciiCodec).unwrap();
    assert_files_equal(&file, &back);
}

#[test]
fn write_then_read_reproduces_an_empty_table() {
    let schema = Arc::new(ShnSchema { columns: vec![id_column()] });
    let file = ShnFile { crypt_header: [0; 32], header: 0, schema, data: vec![] };
    let bytes = write_to(&file, &AsciiCodec).unwrap();
    let back = read_from(&bytes, &AsciiCodec).unwrap();
    assert_files_equal(&file, &back);
}

#[test]
fn write_then_read_round_trips_hangul_under_win949() {
    let schema = Arc::new(ShnSchema {
        columns: vec![id_column(), ShnColumn::new_string_terminated("T")],
    });
    let file = ShnFile {
        crypt_header: [1; 32],
        header: 9,
        schema: Arc::clone(&schema),
        data: vec![ShnRow {
            schema: Arc::clone(&schema),
            data: vec![
                ShnCell::UnsignedShort(3),
                ShnCell::StringZeroTerminated(String::from("\u{ac00}ab")),
            ],
        }],
    };
    let bytes = write_to(&file, &Windows949Codec).unwrap();
    let back = read_from(&bytes, &Windows949Codec).unwrap();
    assert_files_equal(&file, &back);
}

#[test]
fn oversized_column_name_fails_the_write() {
    let long_name = "N".repeat(49);
    let schema = Arc::new(ShnSchema {
        columns: vec![id_column(), ShnColumn::new_byte(&long_name)],
    });
    let file = ShnFile {
        crypt_header: [0; 32],
        header: 0,
        schema,
        data: vec![],
    };
    assert_eq!(write_to(&file, &AsciiCodec), Err(ShnError::InvalidSchema));
}

#[test]
fn unencodable_column_name_fails_the_write() {
    let schema = Arc::new(ShnSchema {
        columns: vec![id_column(), ShnColumn::new_byte("caf\u{e9}")],
    });
    let file = ShnFile { crypt_header: [0; 32], header: 0, schema, data: vec![] };
    assert_eq!(write_to(&file, &AsciiCodec), Err(ShnError::InvalidEncoding));
}

#[test]
fn fixed_string_longer_than_its_column_fails_the_write() {
    let schema = Arc::new(ShnSchema {
        columns: vec![id_column(), ShnColumn::new_string_fixed_len("SF", 3)],
    });
    let file = ShnFile {
        crypt_header: [0; 32],
        header: 0,
        schema: Arc::clone(&schema),
        data: vec![ShnRow {
            schema: Arc::clone(&schema),
            data: vec![
                ShnCell::UnsignedShort(1),
                ShnCell::StringFixedLen(String::from("toolong")),
            ],
        }],
    };
    assert_eq!(write_to(&file, &AsciiCodec), Err(ShnError::InvalidSchema));
}

#[test]
fn unencodable_cell_text_fails_the_write() {
    let schema = Arc::new(ShnSchema {
        columns: vec![id_column(), ShnColumn::new_string_terminated("SZ")],
    });
    let file = ShnFile {
        crypt_header: [0; 32],
        header: 0,
        schema: Arc::clone(&schema),
        data: vec![ShnRow {
            schema: Arc::clone(&schema),
            data: vec![
                ShnCell::UnsignedShort(1),
                ShnCell::StringZeroTerminated(String::from("\u{1f600}")),
            ],
        }],
    };
    assert_eq!(write_to(&file, &AsciiCodec), Err(ShnError::InvalidEncoding));
}

#[test]
fn append_row_with_equal_schema_appends() {
    let mut file = sample_file();
    // an equal schema by value, under a fresh shared handle
    let other = Arc::new(full_schema());
    let extra = ShnRow {
        schema: other,
        data: row(&file.schema, 3, "third").data,
    };
    let before = file.data.len();
    assert!(file.append_row(extra).is_ok());
    assert_eq!(file.data.len(), before + 1);
    assert_eq!(file.data[before].data[0], ShnCell::UnsignedShort(3));
}

#[test]
fn append_row_with_different_column_is_rejected() {
    let mut file = sample_file();
    let before = file.data.len();

    // a different name at one position
    let mut cols = full_schema();
    cols.columns[1].name = String::from("Z");
    let r = file.append_row(ShnRow {
        schema: Arc::new(cols),
        data: row(&file.schema, 4, "x").data,
    });
    assert!(matches!(r, Err(ShnError::InvalidSchema)));
    assert_eq!(file.data.len(), before);

    // a different type at one position
    let mut cols = full_schema();
    cols.columns[1].data_type = ShnDataType::SignedByte;
    let r = file.append_row(ShnRow {
        schema: Arc::new(cols),
        data: row(&file.schema, 4, "x").data,
    });
    assert!(matches!(r, Err(ShnError::InvalidSchema)));
    assert_eq!(file.data.len(), before);

    // a different length at one position
    let mut cols = full_schema();
    cols.columns[8].data_length = 9;
    let r = file.append_row(ShnRow {
        schema: Arc::new(cols),
        data: row(&file.schema, 4, "x").data,
    });
    assert!(matches!(r, Err(ShnError::InvalidSchema)));
    assert_eq!(file.data.len(), before);

    // a missing column
    let mut cols = full_schema();
    cols.columns.pop();
    let r = file.append_row(ShnRow {
        schema: Arc::new(cols),
        data: row(&file.schema, 4, "x").data,
    });
    assert!(matches!(r, Err(ShnError::InvalidSchema)));
    assert_eq!(file.data.len(), before);
}
