use shn::{ShnCell, ShnColumn, ShnDataType, ShnError, ShnSchema};

#[test]
fn from_id_covers_every_assigned_id() {
    let cases: [(u32, ShnDataType); 16] = [
        (1, ShnDataType::Byte),
        (2, ShnDataType::UnsignedShort),
        (3, ShnDataType::UnsignedInteger),
        (5, ShnDataType::SingleFloatingPoint),
        (9, ShnDataType::StringFixedLen),
        (11, ShnDataType::UnsignedInteger),
        (12, ShnDataType::Byte),
        (13, ShnDataType::SignedShort),
        (16, ShnDataType::Byte),
        (18, ShnDataType::UnsignedInteger),
        (20, ShnDataType::SignedByte),
        (21, ShnDataType::SignedShort),
        (22, ShnDataType::SignedInteger),
        (24, ShnDataType::StringFixedLen),
        (26, ShnDataType::StringZeroTerminated),
        (27, ShnDataType::UnsignedInteger),
    ];
    for (id, kind) in cases {
        assert_eq!(ShnDataType::from_id(id), Ok(kind));
    }
}

#[test]
fn to_id_of_from_id_is_canonical() {
    let canonical: [(u32, u32); 16] = [
        (1, 1),
        (2, 2),
        (3, 3),
        (5, 5),
        (9, 9),
        (11, 3),
        (12, 1),
        (13, 13),
        (16, 1),
        (18, 3),
        (20, 20),
        (21, 13),
        (22, 22),
        (24, 9),
        (26, 26),
        (27, 3),
    ];
    for (id, canon) in canonical {
        assert_eq!(ShnDataType::from_id(id).unwrap().to_id(), canon);
    }
}

#[test]
fn from_id_rejects_unassigned_ids() {
    for id in [0u32, 4, 6, 7, 8, 10, 14, 15, 17, 19, 23, 25, 28, 100, u32::MAX] {
        assert_eq!(ShnDataType::from_id(id), Err(ShnError::InvalidFile));
    }
}

#[test]
fn default_lengths_per_kind() {
    assert_eq!(ShnDataType::Byte.default_length(), 1);
    assert_eq!(ShnDataType::SignedByte.default_length(), 1);
    assert_eq!(ShnDataType::UnsignedShort.default_length(), 2);
    assert_eq!(ShnDataType::SignedShort.default_length(), 2);
    assert_eq!(ShnDataType::UnsignedInteger.default_length(), 4);
    assert_eq!(ShnDataType::SignedInteger.default_length(), 4);
    assert_eq!(ShnDataType::SingleFloatingPoint.default_length(), 4);
    assert_eq!(ShnDataType::StringFixedLen.default_length(), 0);
    assert_eq!(ShnDataType::StringZeroTerminated.default_length(), 0);
}

#[test]
fn cell_data_type_is_structural() {
    assert_eq!(ShnCell::Byte(7).data_type(), ShnDataType::Byte);
    assert_eq!(ShnCell::SignedByte(-7).data_type(), ShnDataType::SignedByte);
    assert_eq!(ShnCell::UnsignedShort(7).data_type(), ShnDataType::UnsignedShort);
    assert_eq!(ShnCell::SignedShort(-7).data_type(), ShnDataType::SignedShort);
    assert_eq!(ShnCell::UnsignedInteger(7).data_type(), ShnDataType::UnsignedInteger);
    assert_eq!(ShnCell::SignedInteger(-7).data_type(), ShnDataType::SignedInteger);
    assert_eq!(
        ShnCell::SingleFloatingPoint(1.5f32.to_bits()).data_type(),
        ShnDataType::SingleFloatingPoint
    );
    assert_eq!(
        ShnCell::StringFixedLen(String::from("x")).data_type(),
        ShnDataType::StringFixedLen
    );
    assert_eq!(
        ShnCell::StringZeroTerminated(String::from("x")).data_type(),
        ShnDataType::StringZeroTerminated
    );
}

#[test]
fn record_length_sums_all_column_widths() {
    let empty = ShnSchema::new();
    assert_eq!(empty.calculate_record_length(), 0);
    let schema = ShnSchema {
        columns: vec![
            ShnColumn::new_unsigned_short("__ID__"),
            ShnColumn::new_byte("b"),
            ShnColumn::new_string_fixed_len("s", 21),
            ShnColumn::new_string_terminated("z"),
            ShnColumn::new_single_floating_point("f"),
        ],
    };
    assert_eq!(schema.calculate_record_length(), 2 + 1 + 21 + 0 + 4);
}
