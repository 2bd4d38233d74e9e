//! The wire format, stated mathematically: how cells, columns, the
//! schema and whole files serialize to byte sequences, and how byte
//! sequences parse back. The executable reader and writer are verified
//! against these functions, and the round-trip law is proved of them.
//!
//! All multi-byte integers are little-endian. Signed fields travel as
//! the unsigned integer with the same two's-complement bit pattern.

use crate::codec::{spec_trim_nuls, TextCodec};
use crate::shn::{record_len, CellV, ColumnV, FileV, RowV, ShnDataType, ShnError};
use vstd::bytes::{
    spec_u16_from_le_bytes, spec_u16_to_le_bytes, spec_u32_from_le_bytes, spec_u32_to_le_bytes,
};
use vstd::prelude::*;

verus! {

/// The unsigned byte with the same bit pattern as a signed byte.
pub open spec fn u8_of_i8(v: i8) -> u8 {
    v as u8
}

/// The signed byte with the same bit pattern as an unsigned byte.
pub open spec fn i8_of_u8(b: u8) -> i8 {
    b as i8
}

/// The unsigned 16-bit integer with the same bit pattern.
pub open spec fn u16_of_i16(v: i16) -> u16 {
    v as u16
}

/// The signed 16-bit integer with the same bit pattern.
pub open spec fn i16_of_u16(u: u16) -> i16 {
    u as i16
}

/// The unsigned 32-bit integer with the same bit pattern.
pub open spec fn u32_of_i32(v: i32) -> u32 {
    v as u32
}

/// The signed 32-bit integer with the same bit pattern.
pub open spec fn i32_of_u32(u: u32) -> i32 {
    u as i32
}

/// Reinterpreting a signed byte as unsigned and back is the identity.
pub proof fn lemma_i8_bits_roundtrip(v: i8)
    by (bit_vector)
    ensures
        i8_of_u8(u8_of_i8(v)) == v,
{
}

/// Reinterpreting a signed short as unsigned and back is the identity.
pub proof fn lemma_i16_bits_roundtrip(v: i16)
    by (bit_vector)
    ensures
        i16_of_u16(u16_of_i16(v)) == v,
{
}

/// Reinterpreting a signed integer as unsigned and back is the identity.
pub proof fn lemma_i32_bits_roundtrip(v: i32)
    by (bit_vector)
    ensures
        i32_of_u32(u32_of_i32(v)) == v,
{
}

/// A small nonnegative value keeps its value across the reinterpretations.
pub proof fn lemma_u32_small_as_i32(u: u32)
    by (bit_vector)
    ensures
        u <= 0x7fff_ffff ==> i32_of_u32(u) == u,
        u <= 0x7fff_ffff ==> u32_of_i32(u as i32) == u,
{
}

/// A sequence of `n` zero bytes.
pub open spec fn zero_bytes(n: nat) -> Seq<u8> {
    Seq::new(n, |i: int| 0u8)
}

/// The serialized bytes of one cell under a column of byte width
/// `col_len`.
///
/// Numeric cells ignore `col_len` and use their kind's own width. A
/// fixed-length string is the encoded text NUL-padded to exactly
/// `col_len` bytes; encoded text longer than `col_len`, or a negative
/// `col_len`, is an `InvalidSchema` error. A zero-terminated string is
/// the encoded text plus one trailing NUL byte, unless the encoded text
/// already ends with one.
pub open spec fn ser_cell<C: TextCodec>(c: CellV, col_len: i32, codec: &C) -> Result<
    Seq<u8>,
    ShnError,
> {
    match c {
        CellV::Byte(v) => Ok(seq![v]),
        CellV::SignedByte(v) => Ok(seq![u8_of_i8(v)]),
        CellV::UnsignedShort(v) => Ok(spec_u16_to_le_bytes(v)),
        CellV::SignedShort(v) => Ok(spec_u16_to_le_bytes(u16_of_i16(v))),
        CellV::UnsignedInteger(v) => Ok(spec_u32_to_le_bytes(v)),
        CellV::SignedInteger(v) => Ok(spec_u32_to_le_bytes(u32_of_i32(v))),
        CellV::SingleFloatingPoint(bits) => Ok(spec_u32_to_le_bytes(bits)),
        CellV::StringFixedLen(s) => match codec.encode_spec(s) {
            Some(b) => {
                if 0 <= col_len && b.len() <= col_len {
                    Ok(b + zero_bytes((col_len - b.len()) as nat))
                } else {
                    Err(ShnError::InvalidSchema)
                }
            },
            None => Err(ShnError::InvalidEncoding),
        },
        CellV::StringZeroTerminated(s) => match codec.encode_spec(s) {
            Some(b) => {
                if b.len() > 0 && b.last() == 0 {
                    Ok(b)
                } else {
                    Ok(b.push(0))
                }
            },
            None => Err(ShnError::InvalidEncoding),
        },
    }
}

/// The index of the first zero byte at or after `pos`, if any.
pub open spec fn find_nul(data: Seq<u8>, pos: int) -> Option<int>
    decreases data.len() - pos,
{
    if pos < 0 || pos >= data.len() {
        None
    } else if data[pos] == 0 {
        Some(pos)
    } else {
        find_nul(data, pos + 1)
    }
}

/// Parses one cell of the kind and width of `col` from `data` at `pos`:
/// the cell's value and the position after it, or the error.
///
/// A short read is an `InvalidFile` error, as is a fixed-length string
/// column with a negative width. String bytes decode under the
/// error-tolerant policy; a fixed-length string is then stripped of its
/// trailing NUL characters.
pub open spec fn parse_cell<C: TextCodec>(data: Seq<u8>, pos: int, col: ColumnV, codec: &C) -> Result<
    (CellV, int),
    ShnError,
> {
    match col.data_type {
        ShnDataType::Byte => {
            if 0 <= pos && pos + 1 <= data.len() {
                Ok((CellV::Byte(data[pos]), pos + 1))
            } else {
                Err(ShnError::InvalidFile)
            }
        },
        ShnDataType::SignedByte => {
            if 0 <= pos && pos + 1 <= data.len() {
                Ok((CellV::SignedByte(i8_of_u8(data[pos])), pos + 1))
            } else {
                Err(ShnError::InvalidFile)
            }
        },
        ShnDataType::UnsignedShort => {
            if 0 <= pos && pos + 2 <= data.len() {
                Ok((CellV::UnsignedShort(spec_u16_from_le_bytes(data.subrange(pos, pos + 2))), pos
                    + 2))
            } else {
                Err(ShnError::InvalidFile)
            }
        },
        ShnDataType::SignedShort => {
            if 0 <= pos && pos + 2 <= data.len() {
                Ok(
                    (
                        CellV::SignedShort(
                            i16_of_u16(spec_u16_from_le_bytes(data.subrange(pos, pos + 2))),
                        ),
                        pos + 2,
                    ),
                )
            } else {
                Err(ShnError::InvalidFile)
            }
        },
        ShnDataType::UnsignedInteger => {
            if 0 <= pos && pos + 4 <= data.len() {
                Ok((CellV::UnsignedInteger(spec_u32_from_le_bytes(data.subrange(pos, pos + 4))), pos
                    + 4))
            } else {
                Err(ShnError::InvalidFile)
            }
        },
        ShnDataType::SignedInteger => {
            if 0 <= pos && pos + 4 <= data.len() {
                Ok(
                    (
                        CellV::SignedInteger(
                            i32_of_u32(spec_u32_from_le_bytes(data.subrange(pos, pos + 4))),
                        ),
                        pos + 4,
                    ),
                )
            } else {
                Err(ShnError::InvalidFile)
            }
        },
        ShnDataType::SingleFloatingPoint => {
            if 0 <= pos && pos + 4 <= data.len() {
                Ok(
                    (
                        CellV::SingleFloatingPoint(
                            spec_u32_from_le_bytes(data.subrange(pos, pos + 4)),
                        ),
                        pos + 4,
                    ),
                )
            } else {
                Err(ShnError::InvalidFile)
            }
        },
        ShnDataType::StringFixedLen => {
            if col.data_length < 0 {
                Err(ShnError::InvalidFile)
            } else if 0 <= pos && pos + col.data_length <= data.len() {
                Ok(
                    (
                        CellV::StringFixedLen(
                            spec_trim_nuls(
                                codec.decode_lossy_spec(
                                    data.subrange(pos, pos + col.data_length),
                                ),
                            ),
                        ),
                        pos + col.data_length,
                    ),
                )
            } else {
                Err(ShnError::InvalidFile)
            }
        },
        ShnDataType::StringZeroTerminated => match find_nul(data, pos) {
            Some(k) => Ok(
                (
                    CellV::StringZeroTerminated(codec.decode_lossy_spec(data.subrange(pos, k))),
                    k + 1,
                ),
            ),
            None => Err(ShnError::InvalidFile),
        },
    }
}

/// The serialized bytes of a row's cells, in column order.
pub open spec fn ser_cells<C: TextCodec>(cells: Seq<CellV>, cols: Seq<ColumnV>, codec: &C) -> Result<
    Seq<u8>,
    ShnError,
>
    recommends
        cells.len() == cols.len(),
    decreases cells.len(),
{
    if cells.len() == 0 {
        Ok(Seq::empty())
    } else {
        match ser_cell(cells[0], cols[0].data_length, codec) {
            Ok(b) => match ser_cells(cells.drop_first(), cols.drop_first(), codec) {
                Ok(rest) => Ok(b + rest),
                Err(e) => Err(e),
            },
            Err(e) => Err(e),
        }
    }
}

/// Parses one cell per column of `cols`, in order.
pub open spec fn parse_cells<C: TextCodec>(
    data: Seq<u8>,
    pos: int,
    cols: Seq<ColumnV>,
    codec: &C,
) -> Result<(Seq<CellV>, int), ShnError>
    decreases cols.len(),
{
    if cols.len() == 0 {
        Ok((Seq::empty(), pos))
    } else {
        match parse_cell(data, pos, cols[0], codec) {
            Ok((c, p)) => match parse_cells(data, p, cols.drop_first(), codec) {
                Ok((rest, p2)) => Ok((seq![c] + rest, p2)),
                Err(e) => Err(e),
            },
            Err(e) => Err(e),
        }
    }
}

/// The serialized bytes of one column definition: the encoded name
/// NUL-padded to a 48-byte field, the canonical type id, and the
/// declared length. An encoded name longer than the field is an
/// `InvalidSchema` error; an unencodable one is `InvalidEncoding`.
pub open spec fn ser_column<C: TextCodec>(col: ColumnV, codec: &C) -> Result<Seq<u8>, ShnError> {
    match codec.encode_spec(col.name) {
        Some(nb) => {
            if nb.len() <= 48 {
                Ok(
                    nb + zero_bytes((48 - nb.len()) as nat) + spec_u32_to_le_bytes(
                        crate::shn::spec_to_id(col.data_type),
                    ) + spec_u32_to_le_bytes(u32_of_i32(col.data_length)),
                )
            } else {
                Err(ShnError::InvalidSchema)
            }
        },
        None => Err(ShnError::InvalidEncoding),
    }
}

/// Parses one column definition from `data` at `pos`: the 48-byte name
/// field decoded under the error-tolerant policy and stripped of
/// trailing NUL characters, the type id resolved to its kind, and the
/// declared length.
pub open spec fn parse_column<C: TextCodec>(data: Seq<u8>, pos: int, codec: &C) -> Result<
    (ColumnV, int),
    ShnError,
> {
    if pos < 0 || pos + 48 > data.len() {
        Err(ShnError::InvalidFile)
    } else if pos + 52 > data.len() {
        Err(ShnError::InvalidFile)
    } else if pos + 56 > data.len() {
        Err(ShnError::InvalidFile)
    } else {
        match crate::shn::spec_from_id(
            spec_u32_from_le_bytes(data.subrange(pos + 48, pos + 52)),
        ) {
            Some(dt) => Ok(
                (
                    ColumnV {
                        name: spec_trim_nuls(
                            codec.decode_lossy_spec(data.subrange(pos, pos + 48)),
                        ),
                        data_type: dt,
                        data_length: i32_of_u32(
                            spec_u32_from_le_bytes(data.subrange(pos + 52, pos + 56)),
                        ),
                    },
                    pos + 56,
                ),
            ),
            None => Err(ShnError::InvalidFile),
        }
    }
}

/// The serialized bytes of the column definitions, in order.
pub open spec fn ser_columns<C: TextCodec>(cols: Seq<ColumnV>, codec: &C) -> Result<
    Seq<u8>,
    ShnError,
>
    decreases cols.len(),
{
    if cols.len() == 0 {
        Ok(Seq::empty())
    } else {
        match ser_column(cols[0], codec) {
            Ok(b) => match ser_columns(cols.drop_first(), codec) {
                Ok(rest) => Ok(b + rest),
                Err(e) => Err(e),
            },
            Err(e) => Err(e),
        }
    }
}

/// Parses `n` column definitions, in order.
pub open spec fn parse_columns<C: TextCodec>(data: Seq<u8>, pos: int, n: nat, codec: &C) -> Result<
    (Seq<ColumnV>, int),
    ShnError,
>
    decreases n,
{
    if n == 0 {
        Ok((Seq::empty(), pos))
    } else {
        match parse_column(data, pos, codec) {
            Ok((c, p)) => match parse_columns(data, p, (n - 1) as nat, codec) {
                Ok((rest, p2)) => Ok((seq![c] + rest, p2)),
                Err(e) => Err(e),
            },
            Err(e) => Err(e),
        }
    }
}

/// The synthetic `__ID__` unsigned-short column the reader prepends to
/// every schema; it never appears in the serialized column table but
/// contributes 2 to the record length.
pub open spec fn syn_column() -> ColumnV {
    ColumnV { name: "__ID__"@, data_type: ShnDataType::UnsignedShort, data_length: 2 }
}

/// Parsed cells always fit their columns: one cell per column, each of
/// its column's kind.
pub proof fn lemma_parse_cells_wf<C: TextCodec>(
    data: Seq<u8>,
    pos: int,
    cols: Seq<ColumnV>,
    codec: &C,
)
    ensures
        parse_cells(data, pos, cols, codec) matches Ok(r) ==> {
            &&& r.0.len() == cols.len()
            &&& forall|i: int| 0 <= i < cols.len() ==> r.0[i].dtype() == cols[i].data_type
        },
    decreases cols.len(),
{
    if cols.len() > 0 {
        match parse_cell(data, pos, cols[0], codec) {
            Ok((c, p)) => {
                assert(c.dtype() == cols[0].data_type);
                lemma_parse_cells_wf(data, p, cols.drop_first(), codec);
                match parse_cells(data, p, cols.drop_first(), codec) {
                    Ok(r2) => {
                        let whole = seq![c] + r2.0;
                        assert forall|i: int| 0 <= i < cols.len() implies whole[i].dtype()
                            == cols[i].data_type by {
                            if i > 0 {
                                assert(r2.0[i - 1].dtype() == cols.drop_first()[i - 1].data_type);
                                assert(cols.drop_first()[i - 1] == cols[i]);
                            }
                        }
                    },
                    Err(_) => {},
                }
            },
            Err(_) => {},
        }
    }
}

/// Parsed rows are well-formed and all share the given schema.
pub proof fn lemma_parse_rows_wf<C: TextCodec>(
    data: Seq<u8>,
    pos: int,
    schema: Seq<ColumnV>,
    n: nat,
    codec: &C,
)
    ensures
        parse_rows(data, pos, schema, n, codec) matches Ok(r) ==> forall|i: int|
            0 <= i < r.0.len() ==> (#[trigger] r.0[i]).schema == schema && crate::shn::wf_row(
                r.0[i],
            ),
    decreases n,
{
    if n > 0 {
        match parse_cells(data, pos, schema, codec) {
            Ok((cells, p)) => {
                lemma_parse_cells_wf(data, pos, schema, codec);
                lemma_parse_rows_wf(data, p, schema, (n - 1) as nat, codec);
                match parse_rows(data, p, schema, (n - 1) as nat, codec) {
                    Ok(r2) => {
                        let first = RowV { schema, cells };
                        let whole = seq![first] + r2.0;
                        assert(crate::shn::wf_row(first));
                        assert forall|i: int| 0 <= i < whole.len() implies (
                        #[trigger] whole[i]).schema == schema && crate::shn::wf_row(whole[i]) by {
                            if i > 0 {
                                assert(whole[i] == r2.0[i - 1]);
                            }
                        }
                    },
                    Err(_) => {},
                }
            },
            Err(_) => {},
        }
    }
}

/// Parses the schema: `count` serialized columns behind the synthetic
/// `__ID__` column. The record length summed over the whole schema
/// must equal the declared `expected` length, else the schema is an
/// `InvalidSchema` error.
pub open spec fn parse_schema<C: TextCodec>(
    data: Seq<u8>,
    pos: int,
    count: u32,
    expected: i32,
    codec: &C,
) -> Result<(Seq<ColumnV>, int), ShnError> {
    match parse_columns(data, pos, count as nat, codec) {
        Ok((cols, p)) => {
            let full = seq![syn_column()] + cols;
            if record_len(full) == expected {
                Ok((full, p))
            } else {
                Err(ShnError::InvalidSchema)
            }
        },
        Err(e) => Err(e),
    }
}

/// Parses `n` rows, each one cell per schema column, in order.
pub open spec fn parse_rows<C: TextCodec>(
    data: Seq<u8>,
    pos: int,
    schema: Seq<ColumnV>,
    n: nat,
    codec: &C,
) -> Result<(Seq<RowV>, int), ShnError>
    decreases n,
{
    if n == 0 {
        Ok((Seq::empty(), pos))
    } else {
        match parse_cells(data, pos, schema, codec) {
            Ok((cells, p)) => match parse_rows(data, p, schema, (n - 1) as nat, codec) {
                Ok((rows, p2)) => Ok((seq![RowV { schema, cells }] + rows, p2)),
                Err(e) => Err(e),
            },
            Err(e) => Err(e),
        }
    }
}

/// The serialized bytes of the rows, in order, under the file's schema.
pub open spec fn ser_rows<C: TextCodec>(rows: Seq<RowV>, cols: Seq<ColumnV>, codec: &C) -> Result<
    Seq<u8>,
    ShnError,
>
    decreases rows.len(),
{
    if rows.len() == 0 {
        Ok(Seq::empty())
    } else {
        match ser_cells(rows[0].cells, cols, codec) {
            Ok(b) => match ser_rows(rows.drop_first(), cols, codec) {
                Ok(rest) => Ok(b + rest),
                Err(e) => Err(e),
            },
            Err(e) => Err(e),
        }
    }
}

/// Parses the de-obfuscated payload: the opaque header word, the record
/// count, the declared record length, the column count, then the schema
/// and the rows. Bytes after the last row are ignored.
pub open spec fn parse_payload<C: TextCodec>(payload: Seq<u8>, codec: &C) -> Result<
    (u32, Seq<ColumnV>, Seq<RowV>),
    ShnError,
> {
    if payload.len() < 16 {
        Err(ShnError::InvalidFile)
    } else {
        let header = spec_u32_from_le_bytes(payload.subrange(0, 4));
        let record_count = spec_u32_from_le_bytes(payload.subrange(4, 8));
        let default_len = spec_u32_from_le_bytes(payload.subrange(8, 12));
        let column_count = spec_u32_from_le_bytes(payload.subrange(12, 16));
        match parse_schema(payload, 16, column_count, i32_of_u32(default_len), codec) {
            Ok((schema, p)) => match parse_rows(payload, p, schema, record_count as nat, codec) {
                Ok((rows, _)) => Ok((header, schema, rows)),
                Err(e) => Err(e),
            },
            Err(e) => Err(e),
        }
    }
}

/// The serialized payload of a file, before obfuscation: the header
/// word, the record count, the record length, the column count, the
/// column table without the synthetic column, and the rows.
///
/// A file whose counts do not fit the wire's 32-bit fields, or whose
/// record length does not fit an `i32`, cannot be serialized and is an
/// `InvalidFile` error.
pub open spec fn ser_payload<C: TextCodec>(f: FileV, codec: &C) -> Result<Seq<u8>, ShnError> {
    if f.schema.len() < 1 || f.schema.len() - 1 > 0xffff_ffff || f.rows.len() > 0xffff_ffff
        || record_len(f.schema) < -0x8000_0000 || record_len(f.schema) > 0x7fff_ffff {
        Err(ShnError::InvalidFile)
    } else {
        match ser_columns(f.schema.drop_first(), codec) {
            Ok(cb) => match ser_rows(f.rows, f.schema, codec) {
                Ok(rb) => Ok(
                    spec_u32_to_le_bytes(f.header) + spec_u32_to_le_bytes(f.rows.len() as u32)
                        + spec_u32_to_le_bytes(u32_of_i32(record_len(f.schema) as i32))
                        + spec_u32_to_le_bytes((f.schema.len() - 1) as u32) + cb + rb,
                ),
                Err(e) => Err(e),
            },
            Err(e) => Err(e),
        }
    }
}

/// The serialized bytes of a whole file: the crypt header verbatim, the
/// total length field, and the obfuscated payload. A payload too long
/// for the wire's signed 32-bit length field is an `InvalidFile` error.
pub open spec fn ser_file<C: TextCodec>(f: FileV, codec: &C) -> Result<Seq<u8>, ShnError> {
    match ser_payload(f, codec) {
        Ok(p) => {
            if p.len() + 0x24 <= 0x7fff_ffff {
                Ok(
                    f.crypt_header + spec_u32_to_le_bytes((p.len() + 0x24) as u32)
                        + crate::transform::spec_transform(p),
                )
            } else {
                Err(ShnError::InvalidFile)
            }
        },
        Err(e) => Err(e),
    }
}

/// Parses a whole file: the 32-byte crypt header verbatim, the total
/// length field, then the de-obfuscated payload. Too few bytes for the
/// declared length, or a declared length below the fixed overhead, is
/// an `InvalidFile` error. Bytes after the declared length are ignored.
pub open spec fn parse_file<C: TextCodec>(data: Seq<u8>, codec: &C) -> Result<FileV, ShnError> {
    if data.len() < 36 {
        Err(ShnError::InvalidFile)
    } else {
        let l = i32_of_u32(spec_u32_from_le_bytes(data.subrange(32, 36)));
        if l < 0x24 {
            Err(ShnError::InvalidFile)
        } else if 36 + (l - 0x24) > data.len() {
            Err(ShnError::InvalidFile)
        } else {
            let plain = crate::transform::spec_transform(data.subrange(36, 36 + (l - 0x24)));
            match parse_payload(plain, codec) {
                Ok((header, schema, rows)) => Ok(
                    FileV { crypt_header: data.subrange(0, 32), header, schema, rows },
                ),
                Err(e) => Err(e),
            }
        }
    }
}

} // verus!
