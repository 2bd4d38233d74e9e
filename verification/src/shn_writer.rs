//! The writer: serializes the in-memory table model back to SHN bytes,
//! verified against the wire format's serialization functions; an exact
//! mirror of the reader.

use crate::codec::TextCodec;
use crate::shn::{record_len, wf_file, ShnCell, ShnColumn, ShnError, ShnFile, ShnRow, ShnSchema,
    SHN_CRYPT_HEADER_LEN};
use crate::shn::{CellV, ColumnV, FileV, RowV};
use crate::wire::{ser_cell, ser_cells, ser_column, ser_columns, ser_file, ser_payload, ser_rows};
use vstd::bytes::{u16_to_le_bytes, u32_to_le_bytes};
use vstd::prelude::*;

verus! {

/// Appends a little-endian unsigned 16-bit value to the buffer.
fn write_u16(buf: &mut Vec<u8>, v: u16)
    ensures
        final(buf)@ == old(buf)@ + vstd::bytes::spec_u16_to_le_bytes(v),
{
    let mut b = u16_to_le_bytes(v);
    buf.append(&mut b);
}

/// Appends a little-endian unsigned 32-bit value to the buffer.
fn write_u32(buf: &mut Vec<u8>, v: u32)
    ensures
        final(buf)@ == old(buf)@ + vstd::bytes::spec_u32_to_le_bytes(v),
{
    let mut b = u32_to_le_bytes(v);
    buf.append(&mut b);
}

/// The record length of a schema, computed exactly in a 128-bit value
/// that the sum of `i32` widths cannot overflow.
fn record_len_i128(schema: &ShnSchema) -> (r: i128)
    ensures
        r == record_len(schema@),
{
    let n = schema.columns.len();
    let mut acc: i128 = 0;
    let mut i: usize = 0;
    proof {
        assert(schema@.subrange(0, 0) =~= Seq::<ColumnV>::empty());
    }
    while i < n
        invariant
            i <= n,
            n == schema.columns@.len(),
            schema@.len() == n,
            acc == record_len(schema@.subrange(0, i as int)),
            -0x8000_0000 * (i as i128) <= acc <= 0x7fff_ffff * (i as i128),
        decreases n - i,
    {
        proof {
            assert(schema@.subrange(0, i + 1).drop_last() =~= schema@.subrange(0, i as int));
            assert(schema@.subrange(0, i + 1).last() == schema.columns@[i as int]@);
        }
        acc = acc + schema.columns[i].data_length as i128;
        i += 1;
    }
    proof {
        assert(schema@.subrange(0, n as int) =~= schema@);
    }
    acc
}

/// Functions for writing an `ShnFile` into a byte buffer.
pub struct ShnWriter;

impl ShnWriter {
    /// Appends one cell's serialized bytes under a column of byte width
    /// `data_length`. On an error nothing is appended.
    fn write_cell<C: TextCodec>(
        buf: &mut Vec<u8>,
        cell: &ShnCell,
        data_length: i32,
        codec: &C,
    ) -> (r: Result<(), ShnError>)
        ensures
            match r {
                Ok(()) => ser_cell(cell@, data_length, codec) matches Ok(b) && final(buf)@ == old(buf)@ + b,
                Err(e) => {
                    &&& ser_cell(cell@, data_length, codec) == Err::<Seq<u8>, ShnError>(e)
                    &&& final(buf)@ == old(buf)@
                },
            },
    {
        match cell {
            ShnCell::Byte(v) => {
                buf.push(*v);
                proof {
                    assert(buf@ =~= old(buf)@ + seq![*v]);
                }
                Ok(())
            },
            ShnCell::SignedByte(v) => {
                let b = #[verifier::truncate] (*v as u8);
                buf.push(b);
                proof {
                    assert(buf@ =~= old(buf)@ + seq![b]);
                }
                Ok(())
            },
            ShnCell::UnsignedShort(v) => {
                write_u16(buf, *v);
                Ok(())
            },
            ShnCell::SignedShort(v) => {
                write_u16(buf, #[verifier::truncate] (*v as u16));
                Ok(())
            },
            ShnCell::UnsignedInteger(v) => {
                write_u32(buf, *v);
                Ok(())
            },
            ShnCell::SignedInteger(v) => {
                write_u32(buf, #[verifier::truncate] (*v as u32));
                Ok(())
            },
            ShnCell::SingleFloatingPoint(bits) => {
                write_u32(buf, *bits);
                Ok(())
            },
            ShnCell::StringFixedLen(s) => {
                let mut eb = match codec.encode(s.as_str()) {
                    Ok(b) => b,
                    Err(e) => {
                        return Err(e);
                    },
                };
                if data_length < 0 || eb.len() > data_length as usize {
                    return Err(ShnError::InvalidSchema);
                }
                let pad = data_length as usize - eb.len();
                let ghost encoded = eb@;
                buf.append(&mut eb);
                let mut k: usize = 0;
                while k < pad
                    invariant
                        k <= pad,
                        buf@ == old(buf)@ + encoded + crate::wire::zero_bytes(k as nat),
                    decreases pad - k,
                {
                    buf.push(0);
                    proof {
                        assert(buf@ =~= old(buf)@ + encoded + crate::wire::zero_bytes((k + 1) as nat));
                    }
                    k += 1;
                }
                proof {
                    assert(buf@ =~= old(buf)@ + (encoded + crate::wire::zero_bytes(pad as nat)));
                }
                Ok(())
            },
            ShnCell::StringZeroTerminated(s) => {
                let mut eb = match codec.encode(s.as_str()) {
                    Ok(b) => b,
                    Err(e) => {
                        return Err(e);
                    },
                };
                let ghost encoded = eb@;
                if eb.len() > 0 && eb[eb.len() - 1] == 0 {
                    buf.append(&mut eb);
                } else {
                    eb.push(0);
                    proof {
                        assert(eb@ =~= encoded.push(0));
                    }
                    buf.append(&mut eb);
                }
                Ok(())
            },
        }
    }

    /// Appends one row's cells in column order, under the row's own
    /// schema.
    #[verifier::loop_isolation(false)]
    fn write_row<C: TextCodec>(buf: &mut Vec<u8>, row: &ShnRow, codec: &C) -> (r: Result<
        (),
        ShnError,
    >)
        requires
            row@.cells.len() == row@.schema.len(),
        ensures
            match r {
                Ok(()) => ser_cells(row@.cells, row@.schema, codec) matches Ok(b) && final(buf)@ == old(buf)@ + b,
                Err(e) => ser_cells(row@.cells, row@.schema, codec) == Err::<Seq<u8>, ShnError>(e),
            },
    {
        let ghost start_len = old(buf)@.len() as int;
        let ghost cells = row@.cells;
        let ghost cols = row@.schema;
        let n = row.schema.columns.len();
        let mut i: usize = 0;
        proof {
            assert(cells.skip(0) =~= cells);
            assert(cols.skip(0) =~= cols);
            assert(buf@.subrange(0, start_len) =~= buf@);
            assert(buf@.skip(start_len) =~= Seq::<u8>::empty());
        }
        while i < n
            invariant
                i <= n,
                n == row.schema.columns@.len(),
                cols.len() == n,
                cells.len() == n,
                cells == row@.cells,
                cols == row@.schema,
                start_len <= buf@.len(),
                buf@.subrange(0, start_len) == old(buf)@,
                match ser_cells(cells.skip(i as int), cols.skip(i as int), codec) {
                    Ok(b2) => ser_cells(cells, cols, codec) == Ok::<Seq<u8>, ShnError>(
                        buf@.skip(start_len) + b2,
                    ),
                    Err(e2) => ser_cells(cells, cols, codec) == Err::<Seq<u8>, ShnError>(e2),
                },
            decreases n - i,
        {
            proof {
                assert(cells.skip(i as int)[0] == cells[i as int]);
                assert(cols.skip(i as int)[0] == cols[i as int]);
                assert(cells.skip(i as int).drop_first() =~= cells.skip(i as int + 1));
                assert(cols.skip(i as int).drop_first() =~= cols.skip(i as int + 1));
                assert(cols[i as int] == row.schema.columns@[i as int]@);
                assert(cells[i as int] == row.data@[i as int]@);
            }
            let data_length = row.schema.columns[i].data_length;
            let cell = &row.data[i];
            let ghost acc = buf@.skip(start_len);
            match Self::write_cell(buf, cell, data_length, codec) {
                Ok(()) => {
                    proof {
                        match ser_cell(cells[i as int], cols[i as int].data_length, codec) {
                            Ok(b) => {
                                assert(buf@.skip(start_len) =~= acc + b);
                                match ser_cells(
                                    cells.skip(i as int + 1),
                                    cols.skip(i as int + 1),
                                    codec,
                                ) {
                                    Ok(b2) => {
                                        assert((acc + b) + b2 =~= acc + (b + b2));
                                    },
                                    Err(_) => {},
                                }
                            },
                            Err(_) => {},
                        }
                    }
                },
                Err(e) => {
                    return Err(e);
                },
            }
            i += 1;
        }
        proof {
            assert(cells.skip(n as int) =~= Seq::<CellV>::empty());
            assert(cols.skip(n as int) =~= Seq::<ColumnV>::empty());
            let acc = buf@.skip(start_len);
            assert(acc + Seq::<u8>::empty() =~= acc);
            assert(buf@ =~= old(buf)@ + acc);
        }
        Ok(())
    }

    /// Appends every row of the file, in order.
    #[verifier::loop_isolation(false)]
    fn write_rows<C: TextCodec>(buf: &mut Vec<u8>, file: &ShnFile, codec: &C) -> (r: Result<
        (),
        ShnError,
    >)
        requires
            wf_file(file@),
        ensures
            match r {
                Ok(()) => ser_rows(file@.rows, file@.schema, codec) matches Ok(b) && final(buf)@ == old(buf)@ + b,
                Err(e) => ser_rows(file@.rows, file@.schema, codec) == Err::<Seq<u8>, ShnError>(e),
            },
    {
        let ghost start_len = old(buf)@.len() as int;
        let ghost rows = file@.rows;
        let ghost cols = file@.schema;
        let n = file.data.len();
        let mut i: usize = 0;
        proof {
            assert(rows.skip(0) =~= rows);
            assert(buf@.subrange(0, start_len) =~= buf@);
            assert(buf@.skip(start_len) =~= Seq::<u8>::empty());
        }
        while i < n
            invariant
                i <= n,
                n == file.data@.len(),
                rows.len() == n,
                rows == file@.rows,
                cols == file@.schema,
                start_len <= buf@.len(),
                buf@.subrange(0, start_len) == old(buf)@,
                match ser_rows(rows.skip(i as int), cols, codec) {
                    Ok(b2) => ser_rows(rows, cols, codec) == Ok::<Seq<u8>, ShnError>(
                        buf@.skip(start_len) + b2,
                    ),
                    Err(e2) => ser_rows(rows, cols, codec) == Err::<Seq<u8>, ShnError>(e2),
                },
            decreases n - i,
        {
            proof {
                assert(rows.skip(i as int)[0] == rows[i as int]);
                assert(rows.skip(i as int).drop_first() =~= rows.skip(i as int + 1));
                assert(rows[i as int] == file.data@[i as int]@);
                assert(rows[i as int].schema == cols);
                assert(crate::shn::wf_row(rows[i as int]));
            }
            let row = &file.data[i];
            let ghost acc = buf@.skip(start_len);
            match Self::write_row(buf, row, codec) {
                Ok(()) => {
                    proof {
                        match ser_cells(rows[i as int].cells, cols, codec) {
                            Ok(b) => {
                                assert(buf@.skip(start_len) =~= acc + b);
                                match ser_rows(rows.skip(i as int + 1), cols, codec) {
                                    Ok(b2) => {
                                        assert((acc + b) + b2 =~= acc + (b + b2));
                                    },
                                    Err(_) => {},
                                }
                            },
                            Err(_) => {},
                        }
                    }
                },
                Err(e) => {
                    return Err(e);
                },
            }
            i += 1;
        }
        proof {
            assert(rows.skip(n as int) =~= Seq::<RowV>::empty());
            let acc = buf@.skip(start_len);
            assert(acc + Seq::<u8>::empty() =~= acc);
            assert(buf@ =~= old(buf)@ + acc);
        }
        Ok(())
    }

    /// Appends one column definition: the encoded name NUL-padded to a
    /// 48-byte field, the canonical type id, and the declared length.
    /// On an error nothing is appended.
    fn write_column<C: TextCodec>(buf: &mut Vec<u8>, col: &ShnColumn, codec: &C) -> (r: Result<
        (),
        ShnError,
    >)
        ensures
            match r {
                Ok(()) => ser_column(col@, codec) matches Ok(b) && final(buf)@ == old(buf)@ + b,
                Err(e) => {
                    &&& ser_column(col@, codec) == Err::<Seq<u8>, ShnError>(e)
                    &&& final(buf)@ == old(buf)@
                },
            },
    {
        let mut eb = match codec.encode(col.name.as_str()) {
            Ok(b) => b,
            Err(e) => {
                return Err(e);
            },
        };
        if eb.len() > 48 {
            return Err(ShnError::InvalidSchema);
        }
        let pad = 48 - eb.len();
        let ghost encoded = eb@;
        let ghost base = buf@;
        buf.append(&mut eb);
        let mut k: usize = 0;
        while k < pad
            invariant
                k <= pad,
                buf@ == base + encoded + crate::wire::zero_bytes(k as nat),
            decreases pad - k,
        {
            buf.push(0);
            proof {
                assert(buf@ =~= base + encoded + crate::wire::zero_bytes((k + 1) as nat));
            }
            k += 1;
        }
        let tid = col.data_type.to_id();
        write_u32(buf, tid);
        write_u32(buf, #[verifier::truncate] (col.data_length as u32));
        proof {
            let b = (encoded + crate::wire::zero_bytes(pad as nat)) + vstd::bytes::spec_u32_to_le_bytes(
                crate::shn::spec_to_id(col@.data_type),
            ) + vstd::bytes::spec_u32_to_le_bytes(crate::wire::u32_of_i32(col@.data_length));
            assert(buf@ =~= base + b);
        }
        Ok(())
    }

    /// Appends the column table: every column but the synthetic first
    /// one, in order.
    #[verifier::loop_isolation(false)]
    fn write_schema<C: TextCodec>(buf: &mut Vec<u8>, file: &ShnFile, codec: &C) -> (r: Result<
        (),
        ShnError,
    >)
        requires
            file@.schema.len() >= 1,
        ensures
            match r {
                Ok(()) => ser_columns(file@.schema.drop_first(), codec) matches Ok(b) && final(buf)@ == old(buf)@ + b,
                Err(e) => ser_columns(file@.schema.drop_first(), codec) == Err::<
                    Seq<u8>,
                    ShnError,
                >(e),
            },
    {
        let ghost start_len = old(buf)@.len() as int;
        let ghost cols = file@.schema.drop_first();
        let n = file.schema.columns.len();
        let mut i: usize = 1;
        proof {
            assert(cols.skip(0) =~= cols);
            assert(buf@.subrange(0, start_len) =~= buf@);
            assert(buf@.skip(start_len) =~= Seq::<u8>::empty());
        }
        while i < n
            invariant
                1 <= i <= n,
                n == file.schema.columns@.len(),
                file@.schema.len() == n,
                cols == file@.schema.drop_first(),
                cols.len() == n - 1,
                start_len <= buf@.len(),
                buf@.subrange(0, start_len) == old(buf)@,
                match ser_columns(cols.skip(i - 1), codec) {
                    Ok(b2) => ser_columns(cols, codec) == Ok::<Seq<u8>, ShnError>(
                        buf@.skip(start_len) + b2,
                    ),
                    Err(e2) => ser_columns(cols, codec) == Err::<Seq<u8>, ShnError>(e2),
                },
            decreases n - i,
        {
            proof {
                assert(cols.skip(i - 1)[0] == cols[i - 1]);
                assert(cols.skip(i - 1).drop_first() =~= cols.skip(i as int));
                assert(cols[i - 1] == file@.schema[i as int]);
                assert(file@.schema[i as int] == file.schema.columns@[i as int]@);
            }
            let column = &file.schema.columns[i];
            let ghost acc = buf@.skip(start_len);
            match Self::write_column(buf, column, codec) {
                Ok(()) => {
                    proof {
                        match ser_column(cols[i - 1], codec) {
                            Ok(b) => {
                                assert(buf@.skip(start_len) =~= acc + b);
                                match ser_columns(cols.skip(i as int), codec) {
                                    Ok(b2) => {
                                        assert((acc + b) + b2 =~= acc + (b + b2));
                                    },
                                    Err(_) => {},
                                }
                            },
                            Err(_) => {},
                        }
                    }
                },
                Err(e) => {
                    return Err(e);
                },
            }
            i += 1;
        }
        proof {
            assert(cols.skip(n - 1) =~= Seq::<ColumnV>::empty());
            let acc = buf@.skip(start_len);
            assert(acc + Seq::<u8>::empty() =~= acc);
            assert(buf@ =~= old(buf)@ + acc);
        }
        Ok(())
    }

    /// Serializes a whole file to its bytes: the crypt header verbatim,
    /// the total length field, and the obfuscated payload holding the
    /// header words, the column table and the rows. Any codec failure,
    /// oversized name or cell, or count that does not fit the wire's
    /// fields aborts the write with the corresponding error; no partial
    /// output is returned.
    pub fn write_to<C: TextCodec>(file: &ShnFile, codec: &C) -> (r: Result<Vec<u8>, ShnError>)
        requires
            wf_file(file@),
        ensures
            match r {
                Ok(out) => ser_file(file@, codec) == Ok::<Seq<u8>, ShnError>(out@),
                Err(e) => ser_file(file@, codec) == Err::<Seq<u8>, ShnError>(e),
            },
    {
        let ncols = file.schema.columns.len();
        if ncols < 1 {
            return Err(ShnError::InvalidFile);
        }
        if ncols - 1 > 0xffff_ffff {
            return Err(ShnError::InvalidFile);
        }
        let nrows = file.data.len();
        if nrows > 0xffff_ffff {
            return Err(ShnError::InvalidFile);
        }
        let rl = record_len_i128(&file.schema);
        if rl < -0x8000_0000 || rl > 0x7fff_ffff {
            return Err(ShnError::InvalidFile);
        }
        let rl32: i32 = rl as i32;

        let mut buf: Vec<u8> = Vec::new();
        write_u32(&mut buf, file.header);
        write_u32(&mut buf, nrows as u32);
        write_u32(&mut buf, #[verifier::truncate] (rl32 as u32));
        write_u32(&mut buf, (ncols - 1) as u32);
        let ghost head16 = buf@;
        match Self::write_schema(&mut buf, file, codec) {
            Ok(()) => {},
            Err(e) => {
                return Err(e);
            },
        }
        let ghost with_cols = buf@;
        match Self::write_rows(&mut buf, file, codec) {
            Ok(()) => {},
            Err(e) => {
                return Err(e);
            },
        }
        proof {
            match ser_columns(file@.schema.drop_first(), codec) {
                Ok(cb) => {
                    match ser_rows(file@.rows, file@.schema, codec) {
                        Ok(rb) => {
                            assert(buf@ =~= (head16 + cb) + rb);
                            assert(head16 + cb + rb =~= vstd::bytes::spec_u32_to_le_bytes(
                                file@.header,
                            ) + vstd::bytes::spec_u32_to_le_bytes(file@.rows.len() as u32)
                                + vstd::bytes::spec_u32_to_le_bytes(
                                crate::wire::u32_of_i32(record_len(file@.schema) as i32),
                            ) + vstd::bytes::spec_u32_to_le_bytes((file@.schema.len() - 1) as u32)
                                + cb + rb);
                        },
                        Err(_) => {},
                    }
                },
                Err(_) => {},
            }
            assert(ser_payload(file@, codec) == Ok::<Seq<u8>, ShnError>(buf@));
        }

        if buf.len() > 0x7fff_ffff - 0x24 {
            return Err(ShnError::InvalidFile);
        }
        let total_len: u32 = (buf.len() + 0x24) as u32;
        let ghost payload = buf@;
        crate::transform::decrypt(&mut buf);

        let mut out: Vec<u8> = Vec::new();
        let mut i: usize = 0;
        while i < SHN_CRYPT_HEADER_LEN
            invariant
                i <= SHN_CRYPT_HEADER_LEN,
                file@.crypt_header.len() == SHN_CRYPT_HEADER_LEN,
                out@ == file@.crypt_header.subrange(0, i as int),
            decreases SHN_CRYPT_HEADER_LEN - i,
        {
            out.push(file.crypt_header[i]);
            proof {
                assert(out@ =~= file@.crypt_header.subrange(0, i + 1));
            }
            i += 1;
        }
        proof {
            assert(file@.crypt_header.subrange(0, SHN_CRYPT_HEADER_LEN as int)
                =~= file@.crypt_header);
        }
        write_u32(&mut out, total_len);
        out.append(&mut buf);
        proof {
            assert(out@ =~= file@.crypt_header + vstd::bytes::spec_u32_to_le_bytes(total_len)
                + crate::transform::spec_transform(payload));
        }
        Ok(out)
    }
}

} // verus!
