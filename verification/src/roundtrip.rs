//! The round-trip law: a file serialized by the writer parses back to
//! the very same file.
//!
//! The law holds under stated conditions on the file and the codec
//! (`file_fits`): the texts must encode, fit their fields, and decode
//! back to themselves. A zero-terminated string whose encoding holds an
//! interior NUL byte, for instance, cannot round-trip — the reader
//! would stop at that NUL — so such inputs are excluded here.

use crate::codec::{spec_trim_nuls, TextCodec};
use crate::shn::{record_len, wf_file, CellV, ColumnV, FileV, RowV, ShnError};
use crate::transform::{lemma_transform_involutive, spec_transform};
use crate::wire::{
    find_nul, i32_of_u32, lemma_i16_bits_roundtrip, lemma_i32_bits_roundtrip,
    lemma_i8_bits_roundtrip, lemma_u32_small_as_i32, parse_cell, parse_cells, parse_column,
    parse_columns, parse_file, parse_payload, parse_rows, parse_schema, ser_cell, ser_cells,
    ser_column, ser_columns, ser_file, ser_payload, ser_rows, syn_column, u32_of_i32, zero_bytes,
};
use vstd::bytes::{
    lemma_auto_spec_u16_to_from_le_bytes, lemma_auto_spec_u32_to_from_le_bytes,
    spec_u32_from_le_bytes, spec_u32_to_le_bytes,
};
use vstd::prelude::*;
use vstd::utf8::is_ascii_chars;

verus! {

/// Conditions under which one cell round-trips through its column: the
/// cell is of the column's kind, its text encodes, fits the column's
/// width, and decodes back to itself.
pub open spec fn cell_fits<C: TextCodec>(c: CellV, col: ColumnV, codec: &C) -> bool {
    &&& c.dtype() == col.data_type
    &&& match c {
        CellV::StringFixedLen(s) => match codec.encode_spec(s) {
            Some(b) => {
                &&& 0 <= col.data_length
                &&& b.len() <= col.data_length
                &&& spec_trim_nuls(
                    codec.decode_lossy_spec(b + zero_bytes((col.data_length - b.len()) as nat)),
                ) == s
            },
            None => false,
        },
        CellV::StringZeroTerminated(s) => match codec.encode_spec(s) {
            Some(b) => {
                &&& forall|i: int| 0 <= i < b.len() ==> b[i] != 0
                &&& codec.decode_lossy_spec(b) == s
            },
            None => false,
        },
        _ => true,
    }
}

/// Conditions under which one column definition round-trips: its name
/// encodes, fits the 48-byte field, and decodes back to itself.
pub open spec fn col_fits<C: TextCodec>(col: ColumnV, codec: &C) -> bool {
    match codec.encode_spec(col.name) {
        Some(nb) => {
            &&& nb.len() <= 48
            &&& spec_trim_nuls(
                codec.decode_lossy_spec(nb + zero_bytes((48 - nb.len()) as nat)),
            ) == col.name
        },
        None => false,
    }
}

/// A concatenation laid down in `data` at `pos` splits into its parts.
proof fn lemma_subrange_split(data: Seq<u8>, pos: int, a: Seq<u8>, b: Seq<u8>)
    requires
        0 <= pos,
        pos + a.len() + b.len() <= data.len(),
        data.subrange(pos, pos + a.len() + b.len()) == a + b,
    ensures
        data.subrange(pos, pos + a.len()) == a,
        data.subrange(pos + a.len(), pos + a.len() + b.len()) == b,
{
    let whole = data.subrange(pos, pos + a.len() + b.len());
    assert forall|i: int| 0 <= i < a.len() implies data.subrange(pos, pos + a.len())[i] == a[i] by {
        assert(whole[i] == (a + b)[i]);
    }
    assert(data.subrange(pos, pos + a.len()) =~= a);
    assert forall|i: int| 0 <= i < b.len() implies data.subrange(
        pos + a.len(),
        pos + a.len() + b.len(),
    )[i] == b[i] by {
        assert(whole[a.len() + i] == (a + b)[a.len() + i]);
    }
    assert(data.subrange(pos + a.len(), pos + a.len() + b.len()) =~= b);
}

/// The first zero byte after a run of nonzero bytes is right behind it.
proof fn lemma_find_nul_at(data: Seq<u8>, pos: int, k: int)
    requires
        0 <= pos <= k < data.len(),
        forall|j: int| pos <= j < k ==> data[j] != 0,
        data[k] == 0,
    ensures
        find_nul(data, pos) == Some(k),
    decreases k - pos,
{
    if pos < k {
        lemma_find_nul_at(data, pos + 1, k);
    }
}

/// One serialized cell parses back to the very cell, leaving the cursor
/// right behind its bytes.
proof fn lemma_cell_rt<C: TextCodec>(c: CellV, col: ColumnV, codec: &C, data: Seq<u8>, pos: int)
    requires
        cell_fits(c, col, codec),
        0 <= pos,
        ser_cell(c, col.data_length, codec) matches Ok(b) && pos + b.len() <= data.len()
            && data.subrange(pos, pos + b.len()) == b,
    ensures
        ser_cell(c, col.data_length, codec) matches Ok(b) && parse_cell(data, pos, col, codec)
            == Ok::<(CellV, int), ShnError>((c, pos + b.len())),
{
    let b = ser_cell(c, col.data_length, codec)->Ok_0;
    match c {
        CellV::Byte(v) => {
            assert(data[pos] == b[0]);
        },
        CellV::SignedByte(v) => {
            assert(data[pos] == b[0]);
            lemma_i8_bits_roundtrip(v);
        },
        CellV::UnsignedShort(v) => {
            lemma_auto_spec_u16_to_from_le_bytes();
            assert(data.subrange(pos, pos + 2) == b);
        },
        CellV::SignedShort(v) => {
            lemma_auto_spec_u16_to_from_le_bytes();
            lemma_i16_bits_roundtrip(v);
            assert(data.subrange(pos, pos + 2) == b);
        },
        CellV::UnsignedInteger(v) => {
            lemma_auto_spec_u32_to_from_le_bytes();
            assert(data.subrange(pos, pos + 4) == b);
        },
        CellV::SignedInteger(v) => {
            lemma_auto_spec_u32_to_from_le_bytes();
            lemma_i32_bits_roundtrip(v);
            assert(data.subrange(pos, pos + 4) == b);
        },
        CellV::SingleFloatingPoint(bits) => {
            lemma_auto_spec_u32_to_from_le_bytes();
            assert(data.subrange(pos, pos + 4) == b);
        },
        CellV::StringFixedLen(s) => {
            let eb = codec.encode_spec(s)->Some_0;
            assert(b == eb + zero_bytes((col.data_length - eb.len()) as nat));
            assert(b.len() == col.data_length);
            assert(data.subrange(pos, pos + col.data_length) == b);
        },
        CellV::StringZeroTerminated(s) => {
            let eb = codec.encode_spec(s)->Some_0;
            assert(!(eb.len() > 0 && eb.last() == 0));
            assert(b == eb.push(0));
            assert forall|j: int| pos <= j < pos + eb.len() implies data[j] != 0 by {
                assert(data[j] == b[j - pos]);
                assert(b[j - pos] == eb[j - pos]);
            }
            assert(data[pos + eb.len()] == b[eb.len() as int]);
            assert(data[pos + eb.len()] == 0);
            lemma_find_nul_at(data, pos, pos + eb.len());
            assert(data.subrange(pos, pos + eb.len()) =~= eb);
        },
    }
}

/// Cells that fit their columns always serialize.
proof fn lemma_ser_cells_ok<C: TextCodec>(cells: Seq<CellV>, cols: Seq<ColumnV>, codec: &C)
    requires
        cells.len() == cols.len(),
        forall|i: int| 0 <= i < cells.len() ==> cell_fits(cells[i], cols[i], codec),
    ensures
        ser_cells(cells, cols, codec) is Ok,
    decreases cells.len(),
{
    if cells.len() > 0 {
        assert(cell_fits(cells[0], cols[0], codec));
        assert(ser_cell(cells[0], cols[0].data_length, codec) is Ok);
        assert forall|i: int| 0 <= i < cells.drop_first().len() implies cell_fits(
            cells.drop_first()[i],
            cols.drop_first()[i],
            codec,
        ) by {
            assert(cells.drop_first()[i] == cells[i + 1]);
            assert(cols.drop_first()[i] == cols[i + 1]);
        }
        lemma_ser_cells_ok(cells.drop_first(), cols.drop_first(), codec);
    }
}

/// Columns that fit always serialize.
proof fn lemma_ser_columns_ok<C: TextCodec>(cols: Seq<ColumnV>, codec: &C)
    requires
        forall|i: int| 0 <= i < cols.len() ==> col_fits(cols[i], codec),
    ensures
        ser_columns(cols, codec) is Ok,
    decreases cols.len(),
{
    if cols.len() > 0 {
        assert(col_fits(cols[0], codec));
        assert(ser_column(cols[0], codec) is Ok);
        assert forall|i: int| 0 <= i < cols.drop_first().len() implies col_fits(
            cols.drop_first()[i],
            codec,
        ) by {
            assert(cols.drop_first()[i] == cols[i + 1]);
        }
        lemma_ser_columns_ok(cols.drop_first(), codec);
    }
}

/// Rows whose cells fit always serialize.
proof fn lemma_ser_rows_ok<C: TextCodec>(rows: Seq<RowV>, cols: Seq<ColumnV>, codec: &C)
    requires
        forall|i: int|
            0 <= i < rows.len() ==> (#[trigger] rows[i]).cells.len() == cols.len(),
        forall|i: int, j: int|
            0 <= i < rows.len() && 0 <= j < cols.len() ==> cell_fits(
                #[trigger] rows[i].cells[j],
                cols[j],
                codec,
            ),
    ensures
        ser_rows(rows, cols, codec) is Ok,
    decreases rows.len(),
{
    if rows.len() > 0 {
        lemma_ser_cells_ok(rows[0].cells, cols, codec);
        assert forall|i: int|
            0 <= i < rows.drop_first().len() implies (#[trigger] rows.drop_first()[i]).cells.len()
            == cols.len() by {
            assert(rows.drop_first()[i] == rows[i + 1]);
        }
        assert forall|i: int, j: int|
            0 <= i < rows.drop_first().len() && 0 <= j < cols.len() implies cell_fits(
            #[trigger] rows.drop_first()[i].cells[j],
            cols[j],
            codec,
        ) by {
            assert(rows.drop_first()[i] == rows[i + 1]);
        }
        lemma_ser_rows_ok(rows.drop_first(), cols, codec);
    }
}

/// A serialized row's cells parse back to the very cells.
proof fn lemma_cells_rt<C: TextCodec>(
    cells: Seq<CellV>,
    cols: Seq<ColumnV>,
    codec: &C,
    data: Seq<u8>,
    pos: int,
)
    requires
        cells.len() == cols.len(),
        forall|i: int| 0 <= i < cells.len() ==> cell_fits(cells[i], cols[i], codec),
        0 <= pos,
        ser_cells(cells, cols, codec) matches Ok(b) && pos + b.len() <= data.len()
            && data.subrange(pos, pos + b.len()) == b,
    ensures
        ser_cells(cells, cols, codec) matches Ok(b) && parse_cells(data, pos, cols, codec) == Ok::<
            (Seq<CellV>, int),
            ShnError,
        >((cells, pos + b.len())),
    decreases cells.len(),
{
    if cells.len() == 0 {
        assert(cells =~= Seq::<CellV>::empty());
    } else {
        let b = ser_cells(cells, cols, codec)->Ok_0;
        let b0 = ser_cell(cells[0], cols[0].data_length, codec)->Ok_0;
        let br = ser_cells(cells.drop_first(), cols.drop_first(), codec)->Ok_0;
        assert(b == b0 + br);
        lemma_subrange_split(data, pos, b0, br);
        lemma_cell_rt(cells[0], cols[0], codec, data, pos);
        assert forall|i: int| 0 <= i < cells.drop_first().len() implies cell_fits(
            cells.drop_first()[i],
            cols.drop_first()[i],
            codec,
        ) by {
            assert(cells.drop_first()[i] == cells[i + 1]);
            assert(cols.drop_first()[i] == cols[i + 1]);
        }
        lemma_cells_rt(cells.drop_first(), cols.drop_first(), codec, data, pos + b0.len());
        assert(seq![cells[0]] + cells.drop_first() =~= cells);
    }
}

/// A serialized column definition parses back to the very column.
proof fn lemma_column_rt<C: TextCodec>(col: ColumnV, codec: &C, data: Seq<u8>, pos: int)
    requires
        col_fits(col, codec),
        0 <= pos,
        ser_column(col, codec) matches Ok(b) && pos + b.len() <= data.len() && data.subrange(
            pos,
            pos + b.len(),
        ) == b,
    ensures
        ser_column(col, codec) matches Ok(b) && b.len() == 56 && parse_column(data, pos, codec)
            == Ok::<(ColumnV, int), ShnError>((col, pos + 56)),
{
    let nb = codec.encode_spec(col.name)->Some_0;
    let name_field = nb + zero_bytes((48 - nb.len()) as nat);
    let tid_bytes = spec_u32_to_le_bytes(crate::shn::spec_to_id(col.data_type));
    let len_bytes = spec_u32_to_le_bytes(u32_of_i32(col.data_length));
    let b = ser_column(col, codec)->Ok_0;
    lemma_auto_spec_u32_to_from_le_bytes();
    assert(b == name_field + tid_bytes + len_bytes);
    assert(b =~= name_field + (tid_bytes + len_bytes));
    lemma_subrange_split(data, pos, name_field, tid_bytes + len_bytes);
    lemma_subrange_split(data, pos + 48, tid_bytes, len_bytes);
    assert(data.subrange(pos, pos + 48) == name_field);
    assert(data.subrange(pos + 48, pos + 52) == tid_bytes);
    assert(data.subrange(pos + 52, pos + 56) == len_bytes);
    crate::shn::lemma_type_id_mapping();
    assert(crate::shn::spec_from_id(
        spec_u32_from_le_bytes(data.subrange(pos + 48, pos + 52)),
    ) == Some(col.data_type));
    lemma_i32_bits_roundtrip(col.data_length);
    assert(i32_of_u32(spec_u32_from_le_bytes(data.subrange(pos + 52, pos + 56)))
        == col.data_length);
}

/// Serialized column definitions parse back to the very columns.
proof fn lemma_columns_rt<C: TextCodec>(cols: Seq<ColumnV>, codec: &C, data: Seq<u8>, pos: int)
    requires
        forall|i: int| 0 <= i < cols.len() ==> col_fits(cols[i], codec),
        cols.len() <= 0xffff_ffff,
        0 <= pos,
        ser_columns(cols, codec) matches Ok(b) && pos + b.len() <= data.len() && data.subrange(
            pos,
            pos + b.len(),
        ) == b,
    ensures
        ser_columns(cols, codec) matches Ok(b) && parse_columns(data, pos, cols.len(), codec)
            == Ok::<(Seq<ColumnV>, int), ShnError>((cols, pos + b.len())),
    decreases cols.len(),
{
    if cols.len() == 0 {
        assert(cols =~= Seq::<ColumnV>::empty());
    } else {
        let b = ser_columns(cols, codec)->Ok_0;
        let b0 = ser_column(cols[0], codec)->Ok_0;
        let br = ser_columns(cols.drop_first(), codec)->Ok_0;
        assert(b == b0 + br);
        lemma_subrange_split(data, pos, b0, br);
        lemma_column_rt(cols[0], codec, data, pos);
        assert forall|i: int| 0 <= i < cols.drop_first().len() implies col_fits(
            cols.drop_first()[i],
            codec,
        ) by {
            assert(cols.drop_first()[i] == cols[i + 1]);
        }
        lemma_columns_rt(cols.drop_first(), codec, data, pos + b0.len());
        assert(seq![cols[0]] + cols.drop_first() =~= cols);
        assert((cols.len() - 1) as nat == cols.drop_first().len());
    }
}

/// Serialized rows parse back to the very rows.
proof fn lemma_rows_rt<C: TextCodec>(
    rows: Seq<RowV>,
    cols: Seq<ColumnV>,
    codec: &C,
    data: Seq<u8>,
    pos: int,
)
    requires
        forall|i: int|
            0 <= i < rows.len() ==> (#[trigger] rows[i]).schema == cols && rows[i].cells.len()
                == cols.len(),
        forall|i: int, j: int|
            0 <= i < rows.len() && 0 <= j < cols.len() ==> cell_fits(
                #[trigger] rows[i].cells[j],
                cols[j],
                codec,
            ),
        0 <= pos,
        ser_rows(rows, cols, codec) matches Ok(b) && pos + b.len() <= data.len() && data.subrange(
            pos,
            pos + b.len(),
        ) == b,
    ensures
        ser_rows(rows, cols, codec) matches Ok(b) && parse_rows(data, pos, cols, rows.len(), codec)
            == Ok::<(Seq<RowV>, int), ShnError>((rows, pos + b.len())),
    decreases rows.len(),
{
    if rows.len() == 0 {
        assert(rows =~= Seq::<RowV>::empty());
    } else {
        let b = ser_rows(rows, cols, codec)->Ok_0;
        let b0 = ser_cells(rows[0].cells, cols, codec)->Ok_0;
        let br = ser_rows(rows.drop_first(), cols, codec)->Ok_0;
        assert(b == b0 + br);
        lemma_subrange_split(data, pos, b0, br);
        lemma_cells_rt(rows[0].cells, cols, codec, data, pos);
        assert(RowV { schema: cols, cells: rows[0].cells } == rows[0]);
        assert forall|i: int|
            0 <= i < rows.drop_first().len() implies (#[trigger] rows.drop_first()[i]).schema
            == cols && rows.drop_first()[i].cells.len() == cols.len() by {
            assert(rows.drop_first()[i] == rows[i + 1]);
        }
        assert forall|i: int, j: int|
            0 <= i < rows.drop_first().len() && 0 <= j < cols.len() implies cell_fits(
            #[trigger] rows.drop_first()[i].cells[j],
            cols[j],
            codec,
        ) by {
            assert(rows.drop_first()[i] == rows[i + 1]);
        }
        lemma_rows_rt(rows.drop_first(), cols, codec, data, pos + b0.len());
        assert(seq![rows[0]] + rows.drop_first() =~= rows);
        assert((rows.len() - 1) as nat == rows.drop_first().len());
    }
}

/// Conditions under which a whole file round-trips: it is well-formed,
/// its schema starts with the synthetic `__ID__` column, its counts and
/// record length fit the wire's fields, its serialized payload fits the
/// signed 32-bit length field, and every name and string fits its field
/// and decodes back to itself under the codec.
pub open spec fn file_fits<C: TextCodec>(f: FileV, codec: &C) -> bool {
    &&& wf_file(f)
    &&& f.schema.len() >= 1
    &&& f.schema[0] == syn_column()
    &&& f.schema.len() - 1 <= 0xffff_ffff
    &&& f.rows.len() <= 0xffff_ffff
    &&& -0x8000_0000 <= record_len(f.schema) <= 0x7fff_ffff
    &&& forall|i: int| 1 <= i < f.schema.len() ==> col_fits(#[trigger] f.schema[i], codec)
    &&& forall|i: int, j: int|
        0 <= i < f.rows.len() && 0 <= j < f.schema.len() ==> cell_fits(
            #[trigger] f.rows[i].cells[j],
            f.schema[j],
            codec,
        )
    &&& (ser_payload(f, codec) matches Ok(p) ==> p.len() + 0x24 <= 0x7fff_ffff)
}

/// A fitting file's serialized payload parses back to the file's own
/// header word, schema and rows.
proof fn lemma_payload_rt<C: TextCodec>(f: FileV, codec: &C)
    requires
        file_fits(f, codec),
    ensures
        ser_payload(f, codec) matches Ok(p) && parse_payload(p, codec) == Ok::<
            (u32, Seq<ColumnV>, Seq<RowV>),
            ShnError,
        >((f.header, f.schema, f.rows)),
{
    let cols = f.schema.drop_first();
    assert forall|i: int| 0 <= i < cols.len() implies col_fits(cols[i], codec) by {
        assert(cols[i] == f.schema[i + 1]);
    }
    lemma_ser_columns_ok(cols, codec);
    assert forall|i: int|
        0 <= i < f.rows.len() implies (#[trigger] f.rows[i]).schema == f.schema
        && f.rows[i].cells.len() == f.schema.len() by {
        assert(crate::shn::wf_row(f.rows[i]));
    }
    lemma_ser_rows_ok(f.rows, f.schema, codec);
    let cb = ser_columns(cols, codec)->Ok_0;
    let rb = ser_rows(f.rows, f.schema, codec)->Ok_0;
    let h1 = spec_u32_to_le_bytes(f.header);
    let h2 = spec_u32_to_le_bytes(f.rows.len() as u32);
    let h3 = spec_u32_to_le_bytes(u32_of_i32(record_len(f.schema) as i32));
    let h4 = spec_u32_to_le_bytes((f.schema.len() - 1) as u32);
    let p = ser_payload(f, codec)->Ok_0;
    lemma_auto_spec_u32_to_from_le_bytes();
    assert(p == h1 + h2 + h3 + h4 + cb + rb);
    assert(p =~= h1 + (h2 + (h3 + (h4 + (cb + rb)))));
    assert(p.subrange(0, p.len() as int) =~= p);
    lemma_subrange_split(p, 0, h1, h2 + (h3 + (h4 + (cb + rb))));
    lemma_subrange_split(p, 4, h2, h3 + (h4 + (cb + rb)));
    lemma_subrange_split(p, 8, h3, h4 + (cb + rb));
    lemma_subrange_split(p, 12, h4, cb + rb);
    lemma_subrange_split(p, 16, cb, rb);
    assert(p.subrange(0, 4) == h1);
    assert(p.subrange(4, 8) == h2);
    assert(p.subrange(8, 12) == h3);
    assert(p.subrange(12, 16) == h4);
    assert(p.subrange(16, 16 + cb.len() as int) == cb);
    assert(p.subrange(16 + cb.len() as int, 16 + cb.len() + rb.len() as int) == rb);

    // the four header fields come back as written
    assert(spec_u32_from_le_bytes(p.subrange(0, 4)) == f.header);
    let record_count = spec_u32_from_le_bytes(p.subrange(4, 8));
    assert(record_count == f.rows.len() as u32);
    let default_len = spec_u32_from_le_bytes(p.subrange(8, 12));
    let column_count = spec_u32_from_le_bytes(p.subrange(12, 16));
    assert(column_count == (f.schema.len() - 1) as u32);
    lemma_i32_bits_roundtrip(record_len(f.schema) as i32);
    assert(i32_of_u32(default_len) == record_len(f.schema) as i32);

    // the column table comes back as the schema without its synthetic head
    assert(column_count as nat == cols.len());
    lemma_columns_rt(cols, codec, p, 16);
    let full = seq![syn_column()] + cols;
    assert(full =~= f.schema);
    assert(record_len(full) == i32_of_u32(default_len));
    assert(parse_schema(p, 16, column_count, i32_of_u32(default_len), codec) == Ok::<
        (Seq<ColumnV>, int),
        ShnError,
    >((f.schema, 16 + cb.len() as int)));

    // the rows come back as written
    assert(record_count as nat == f.rows.len());
    assert forall|i: int, j: int|
        0 <= i < f.rows.len() && 0 <= j < f.schema.len() implies cell_fits(
        #[trigger] f.rows[i].cells[j],
        f.schema[j],
        codec,
    ) by {}
    lemma_rows_rt(f.rows, f.schema, codec, p, 16 + cb.len() as int);
}

/// Law: round trip. A file that fits the format serializes, and the
/// serialized bytes parse back to an equal file: same crypt header,
/// same header word, same schema, and same row cell values in order.
///
/// Together with the reader's and writer's contracts this gives, for
/// any such file `f`, that `ShnReader::read_from` applied to the output
/// of `ShnWriter::write_to` returns a file equal to `f` in value.
pub proof fn lemma_write_read_roundtrip<C: TextCodec>(f: FileV, codec: &C)
    requires
        file_fits(f, codec),
    ensures
        ser_file(f, codec) matches Ok(bytes) && parse_file(bytes, codec) == Ok::<FileV, ShnError>(
            f,
        ),
{
    lemma_payload_rt(f, codec);
    let p = ser_payload(f, codec)->Ok_0;
    let total: u32 = (p.len() + 0x24) as u32;
    let lbytes = spec_u32_to_le_bytes(total);
    let tp = spec_transform(p);
    let bytes = ser_file(f, codec)->Ok_0;
    lemma_auto_spec_u32_to_from_le_bytes();
    assert(bytes == f.crypt_header + lbytes + tp);
    assert(bytes =~= f.crypt_header + (lbytes + tp));
    assert(f.crypt_header.len() == 32);
    assert(tp.len() == p.len());
    assert(bytes.len() == 36 + p.len());
    assert(bytes.subrange(0, bytes.len() as int) =~= bytes);
    lemma_subrange_split(bytes, 0, f.crypt_header, lbytes + tp);
    lemma_subrange_split(bytes, 32, lbytes, tp);
    assert(bytes.subrange(0, 32) == f.crypt_header);
    assert(bytes.subrange(32, 36) == lbytes);
    assert(bytes.subrange(36, 36 + p.len() as int) == tp);
    assert(spec_u32_from_le_bytes(bytes.subrange(32, 36)) == total);
    lemma_u32_small_as_i32(total);
    let l = i32_of_u32(total);
    assert(l == p.len() + 0x24);
    assert(l >= 0x24);
    assert(36 + (l - 0x24) == bytes.len());
    lemma_transform_involutive(p);
    assert(spec_transform(bytes.subrange(36, 36 + (l - 0x24))) == p);
    assert(parse_file(bytes, codec) matches Ok(g) && g == (FileV {
        crypt_header: bytes.subrange(0, 32),
        header: f.header,
        schema: f.schema,
        rows: f.rows,
    }));
    assert(parse_file(bytes, codec)->Ok_0 == f);
}

/// Law: schema rejection. Whenever the serialized columns parse but the
/// record length summed over the whole schema — the synthetic column's
/// 2 bytes included — differs from the declared length, the schema is
/// rejected with `InvalidSchema`.
pub proof fn lemma_schema_rejects_wrong_length<C: TextCodec>(
    data: Seq<u8>,
    pos: int,
    count: u32,
    expected: i32,
    codec: &C,
)
    ensures
        parse_columns(data, pos, count as nat, codec) matches Ok(r) && record_len(
            seq![syn_column()] + r.0,
        ) != expected ==> parse_schema(data, pos, count, expected, codec) == Err::<
            (Seq<ColumnV>, int),
            ShnError,
        >(ShnError::InvalidSchema),
{
}

/// An ASCII character survives the trip through its byte.
proof fn lemma_ascii_char_byte(c: char)
    requires
        '\0' <= c <= '\u{7f}',
    ensures
        (c as u8) < 0x80,
        ((c as u8) as char) == c,
{
    vstd::utf8::char_is_scalar(c);
    assert((c as u32) < 0x80);
    assert(c as u8 == c as u32 as u8);
    vstd::utf8::char_u32_cast(c, c as u32);
}

/// ASCII bytes decode to the chars of equal code point, and those chars
/// encode back to the very bytes.
proof fn lemma_ascii_bytes_chars(b: Seq<u8>)
    requires
        crate::codec::ascii_bytes(b),
    ensures
        is_ascii_chars(crate::codec::chars_of_bytes(b)),
        crate::codec::bytes_of_chars(crate::codec::chars_of_bytes(b)) == b,
{
    let t = crate::codec::chars_of_bytes(b);
    assert forall|i: int| 0 <= i < t.len() implies '\0' <= #[trigger] t[i] <= '\u{7f}' by {
        assert(t[i] == b[i] as char);
    }
    assert forall|i: int| 0 <= i < b.len() implies crate::codec::bytes_of_chars(t)[i] == b[i] by {
        assert(t[i] == b[i] as char);
    }
    assert(crate::codec::bytes_of_chars(t) =~= b);
}

/// ASCII text survives the trip through its bytes.
proof fn lemma_ascii_chars_bytes(t: Seq<char>)
    requires
        is_ascii_chars(t),
    ensures
        crate::codec::ascii_bytes(crate::codec::bytes_of_chars(t)),
        crate::codec::chars_of_bytes(crate::codec::bytes_of_chars(t)) == t,
{
    let b = crate::codec::bytes_of_chars(t);
    assert forall|i: int| 0 <= i < b.len() implies b[i] < 0x80 by {
        assert(b[i] == t[i] as u8);
        lemma_ascii_char_byte(t[i]);
    }
    assert forall|i: int| 0 <= i < t.len() implies crate::codec::chars_of_bytes(b)[i] == t[i] by {
        assert(b[i] == t[i] as u8);
        lemma_ascii_char_byte(t[i]);
    }
    assert(crate::codec::chars_of_bytes(b) =~= t);
}

/// Error-tolerant ASCII decoding of all-ASCII bytes skips nothing.
proof fn lemma_ascii_lossy_all_ascii(b: Seq<u8>)
    requires
        crate::codec::ascii_bytes(b),
    ensures
        crate::codec::ascii_lossy(b) == crate::codec::chars_of_bytes(b),
    decreases b.len(),
{
    if b.len() > 0 {
        assert(crate::codec::ascii_bytes(b.drop_last()));
        lemma_ascii_lossy_all_ascii(b.drop_last());
        assert(crate::codec::chars_of_bytes(b) =~= crate::codec::chars_of_bytes(
            b.drop_last(),
        ).push(b.last() as char));
    } else {
        assert(crate::codec::chars_of_bytes(b) =~= Seq::<char>::empty());
    }
}

/// ASCII text round-trips through the verified ASCII codec, even when
/// the encoded bytes are NUL-padded to a wider field.
proof fn lemma_ascii_padded_roundtrip(t: Seq<char>, pad: nat)
    requires
        is_ascii_chars(t),
        t.len() == 0 || t.last() != '\0',
    ensures
        crate::codec::ascii_bytes(
            crate::codec::bytes_of_chars(t) + zero_bytes(pad),
        ),
        spec_trim_nuls(
            crate::codec::chars_of_bytes(crate::codec::bytes_of_chars(t) + zero_bytes(pad)),
        ) == t,
{
    let b = crate::codec::bytes_of_chars(t);
    lemma_ascii_chars_bytes(t);
    let padded = b + zero_bytes(pad);
    assert forall|i: int| 0 <= i < padded.len() implies padded[i] < 0x80 by {
        if i < b.len() {
            assert(padded[i] == b[i]);
        } else {
            assert(padded[i] == 0);
        }
    }
    let tc = crate::codec::chars_of_bytes(padded);
    assert(tc =~= t + crate::codec::seq_repeat_nul(pad)) by {
        assert forall|i: int| 0 <= i < tc.len() implies tc[i] == (t
            + crate::codec::seq_repeat_nul(pad))[i] by {
            if i < b.len() {
                assert(padded[i] == b[i]);
                assert(tc[i] == crate::codec::chars_of_bytes(b)[i]);
            } else {
                assert(padded[i] == 0);
                assert(tc[i] == (0u8 as char));
                assert((0u8 as char) == '\0');
            }
        }
    }
    crate::codec::lemma_trim_nul_padding(t, pad);
}

/// Conditions on one fixed-length ASCII string: it fits the column's
/// width and does not end in a NUL character.
pub open spec fn ascii_fixed_text_fits(s: Seq<char>, width: i32) -> bool {
    &&& is_ascii_chars(s)
    &&& s.len() == 0 || s.last() != '\0'
    &&& 0 <= width
    &&& s.len() <= width
}

/// Conditions on one zero-terminated ASCII string: it holds no NUL
/// character at all.
pub open spec fn ascii_terminated_text_fits(s: Seq<char>) -> bool {
    &&& is_ascii_chars(s)
    &&& forall|i: int| 0 <= i < s.len() ==> s[i] != '\0'
}

/// Conditions on one column name: ASCII, at most 48 characters, not
/// ending in a NUL character.
pub open spec fn ascii_name_fits(name: Seq<char>) -> bool {
    &&& is_ascii_chars(name)
    &&& name.len() <= 48
    &&& name.len() == 0 || name.last() != '\0'
}

/// A cell of ASCII text that fits its column meets the round-trip
/// conditions under the verified ASCII codec.
pub proof fn lemma_ascii_cell_fits(c: CellV, col: ColumnV)
    requires
        c.dtype() == col.data_type,
        match c {
            CellV::StringFixedLen(s) => ascii_fixed_text_fits(s, col.data_length),
            CellV::StringZeroTerminated(s) => ascii_terminated_text_fits(s),
            _ => true,
        },
    ensures
        cell_fits(c, col, &crate::codec::AsciiCodec),
{
    let codec = crate::codec::AsciiCodec;
    match c {
        CellV::StringFixedLen(s) => {
            let b = crate::codec::bytes_of_chars(s);
            assert(codec.encode_spec(s) == Some(b));
            lemma_ascii_chars_bytes(s);
            assert(b.len() == s.len());
            let pad = (col.data_length - b.len()) as nat;
            lemma_ascii_padded_roundtrip(s, pad);
            lemma_ascii_lossy_all_ascii(b + zero_bytes(pad));
        },
        CellV::StringZeroTerminated(s) => {
            let b = crate::codec::bytes_of_chars(s);
            assert(codec.encode_spec(s) == Some(b));
            lemma_ascii_chars_bytes(s);
            assert forall|i: int| 0 <= i < b.len() implies b[i] != 0 by {
                assert(b[i] == s[i] as u8);
                lemma_ascii_char_byte(s[i]);
                if b[i] == 0 {
                    assert(s[i] == (0u8 as char));
                    assert((0u8 as char) == '\0');
                }
            }
            lemma_ascii_lossy_all_ascii(b);
        },
        _ => {},
    }
}

/// A column whose name is ASCII and fits the 48-byte field meets the
/// round-trip conditions under the verified ASCII codec.
pub proof fn lemma_ascii_col_fits(col: ColumnV)
    requires
        ascii_name_fits(col.name),
    ensures
        col_fits(col, &crate::codec::AsciiCodec),
{
    let codec = crate::codec::AsciiCodec;
    let nb = crate::codec::bytes_of_chars(col.name);
    assert(codec.encode_spec(col.name) == Some(nb));
    lemma_ascii_chars_bytes(col.name);
    assert(nb.len() == col.name.len());
    let pad = (48 - nb.len()) as nat;
    lemma_ascii_padded_roundtrip(col.name, pad);
    assert(crate::codec::ascii_bytes(nb + zero_bytes(pad)));
    lemma_ascii_lossy_all_ascii(nb + zero_bytes(pad));
}

/// Law: round trip under the verified ASCII codec. A well-formed file
/// whose names and string cells are ASCII, fit their fields, and avoid
/// the NUL characters the format itself uses as padding and terminators
/// meets all the round-trip conditions.
pub proof fn lemma_ascii_file_fits(f: FileV)
    requires
        wf_file(f),
        f.schema.len() >= 1,
        f.schema[0] == syn_column(),
        f.schema.len() - 1 <= 0xffff_ffff,
        f.rows.len() <= 0xffff_ffff,
        -0x8000_0000 <= record_len(f.schema) <= 0x7fff_ffff,
        forall|i: int| 1 <= i < f.schema.len() ==> ascii_name_fits((#[trigger] f.schema[i]).name),
        forall|i: int, j: int|
            0 <= i < f.rows.len() && 0 <= j < f.schema.len() ==> match #[trigger] f.rows[i].cells[j] {
                CellV::StringFixedLen(s) => ascii_fixed_text_fits(s, f.schema[j].data_length),
                CellV::StringZeroTerminated(s) => ascii_terminated_text_fits(s),
                _ => true,
            },
        ser_payload(f, &crate::codec::AsciiCodec) matches Ok(p) ==> p.len() + 0x24
            <= 0x7fff_ffff,
    ensures
        file_fits(f, &crate::codec::AsciiCodec),
{
    assert forall|i: int| 1 <= i < f.schema.len() implies col_fits(
        #[trigger] f.schema[i],
        &crate::codec::AsciiCodec,
    ) by {
        lemma_ascii_col_fits(f.schema[i]);
    }
    assert forall|i: int, j: int|
        0 <= i < f.rows.len() && 0 <= j < f.schema.len() implies cell_fits(
        #[trigger] f.rows[i].cells[j],
        f.schema[j],
        &crate::codec::AsciiCodec,
    ) by {
        assert(crate::shn::wf_row(f.rows[i]));
        assert(f.rows[i].cells[j].dtype() == f.rows[i].schema[j].data_type);
        lemma_ascii_cell_fits(f.rows[i].cells[j], f.schema[j]);
    }
}

} // verus!
