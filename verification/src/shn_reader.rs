//! The reader: turns the bytes of an SHN file into the in-memory table
//! model, verified against the wire format's parse functions.
//!
//! The reader works over a fully buffered byte source with an explicit
//! cursor position; the caller does whatever I/O fills the buffer.

use crate::codec::{trim_trailing_nuls, TextCodec};
use crate::shn::{
    ShnCell, ShnColumn, ShnDataType, ShnError, ShnFile, ShnRow, ShnSchema, SHN_CRYPT_HEADER_LEN,
};
use crate::shn::{wf_file, CellV, ColumnV, FileV, RowV};
use crate::wire::{
    find_nul, parse_cell, parse_cells, parse_column, parse_columns, parse_file, parse_rows,
    parse_schema, syn_column,
};
use std::sync::Arc;
use vstd::bytes::{u16_from_le_bytes, u32_from_le_bytes};
use vstd::prelude::*;
use vstd::slice::slice_subrange;

verus! {

/// Relies on std's `Arc::clone`: the returned handle points to the very
/// same schema value.
#[verifier::external_body]
fn share_schema(s: &Arc<ShnSchema>) -> (r: Arc<ShnSchema>)
    ensures
        r == *s,
{
    Arc::clone(s)
}

/// Reads the byte at the cursor and advances it.
fn read_u8(data: &Vec<u8>, pos: &mut usize) -> (r: Result<u8, ShnError>)
    ensures
        match r {
            Ok(b) => {
                &&& *old(pos) + 1 <= data@.len()
                &&& *final(pos) == *old(pos) + 1
                &&& b == data@[*old(pos) as int]
            },
            Err(e) => {
                &&& e == ShnError::InvalidFile
                &&& *old(pos) + 1 > data@.len()
                &&& *final(pos) == *old(pos)
            },
        },
{
    if *pos < data.len() {
        let b = data[*pos];
        *pos = *pos + 1;
        Ok(b)
    } else {
        Err(ShnError::InvalidFile)
    }
}

/// Reads a little-endian unsigned 16-bit value at the cursor.
fn read_u16(data: &Vec<u8>, pos: &mut usize) -> (r: Result<u16, ShnError>)
    ensures
        match r {
            Ok(v) => {
                &&& *old(pos) + 2 <= data@.len()
                &&& *final(pos) == *old(pos) + 2
                &&& v == vstd::bytes::spec_u16_from_le_bytes(
                    data@.subrange(*old(pos) as int, *old(pos) + 2),
                )
            },
            Err(e) => {
                &&& e == ShnError::InvalidFile
                &&& *old(pos) + 2 > data@.len()
                &&& *final(pos) == *old(pos)
            },
        },
{
    if *pos <= data.len() && data.len() - *pos >= 2 {
        let sl = slice_subrange(data.as_slice(), *pos, *pos + 2);
        let v = u16_from_le_bytes(sl);
        *pos = *pos + 2;
        Ok(v)
    } else {
        Err(ShnError::InvalidFile)
    }
}

/// Reads a little-endian unsigned 32-bit value at the cursor.
fn read_u32(data: &Vec<u8>, pos: &mut usize) -> (r: Result<u32, ShnError>)
    ensures
        match r {
            Ok(v) => {
                &&& *old(pos) + 4 <= data@.len()
                &&& *final(pos) == *old(pos) + 4
                &&& v == vstd::bytes::spec_u32_from_le_bytes(
                    data@.subrange(*old(pos) as int, *old(pos) + 4),
                )
            },
            Err(e) => {
                &&& e == ShnError::InvalidFile
                &&& *old(pos) + 4 > data@.len()
                &&& *final(pos) == *old(pos)
            },
        },
{
    if *pos <= data.len() && data.len() - *pos >= 4 {
        let sl = slice_subrange(data.as_slice(), *pos, *pos + 4);
        let v = u32_from_le_bytes(sl);
        *pos = *pos + 4;
        Ok(v)
    } else {
        Err(ShnError::InvalidFile)
    }
}

/// Functions for reading an `ShnFile` out of a byte buffer.
pub struct ShnReader;

impl ShnReader {
    /// Reads the 32-byte crypt header verbatim.
    pub fn read_crypt_header(data: &Vec<u8>, pos: &mut usize) -> (r: Result<
        [u8; SHN_CRYPT_HEADER_LEN],
        ShnError,
    >)
        ensures
            match r {
                Ok(h) => {
                    &&& *old(pos) + SHN_CRYPT_HEADER_LEN <= data@.len()
                    &&& *final(pos) == *old(pos) + SHN_CRYPT_HEADER_LEN
                    &&& h@ == data@.subrange(*old(pos) as int, *old(pos) + SHN_CRYPT_HEADER_LEN)
                },
                Err(e) => {
                    &&& e == ShnError::InvalidFile
                    &&& *old(pos) + SHN_CRYPT_HEADER_LEN > data@.len()
                    &&& *final(pos) == *old(pos)
                },
            },
    {
        let dlen = data.len();
        if *pos <= dlen && dlen - *pos >= SHN_CRYPT_HEADER_LEN {
            let mut h = [0u8; SHN_CRYPT_HEADER_LEN];
            let mut i: usize = 0;
            while i < SHN_CRYPT_HEADER_LEN
                invariant
                    i <= SHN_CRYPT_HEADER_LEN,
                    dlen == data@.len(),
                    *pos + SHN_CRYPT_HEADER_LEN <= dlen,
                    h@.len() == SHN_CRYPT_HEADER_LEN,
                    forall|j: int| 0 <= j < i ==> h@[j] == data@[*pos + j],
                decreases SHN_CRYPT_HEADER_LEN - i,
            {
                h[i] = data[*pos + i];
                i += 1;
            }
            proof {
                assert(h@ =~= data@.subrange(*pos as int, *pos + SHN_CRYPT_HEADER_LEN));
            }
            *pos = *pos + SHN_CRYPT_HEADER_LEN;
            Ok(h)
        } else {
            Err(ShnError::InvalidFile)
        }
    }

    /// Reads one cell of the kind and width of `column` at the cursor.
    pub fn read_cell<C: TextCodec>(
        data: &Vec<u8>,
        pos: &mut usize,
        column: &ShnColumn,
        codec: &C,
    ) -> (r: Result<ShnCell, ShnError>)
        requires
            *old(pos) <= data@.len(),
        ensures
            match r {
                Ok(cell) => {
                    &&& parse_cell(data@, *old(pos) as int, column@, codec) == Ok::<
                        (CellV, int),
                        ShnError,
                    >((cell@, *final(pos) as int))
                    &&& *final(pos) <= data@.len()
                },
                Err(e) => parse_cell(data@, *old(pos) as int, column@, codec) == Err::<
                    (CellV, int),
                    ShnError,
                >(e),
            },
    {
        match column.data_type {
            ShnDataType::Byte => match read_u8(data, pos) {
                Ok(b) => Ok(ShnCell::Byte(b)),
                Err(e) => Err(e),
            },
            ShnDataType::SignedByte => match read_u8(data, pos) {
                Ok(b) => Ok(ShnCell::SignedByte(#[verifier::truncate] (b as i8))),
                Err(e) => Err(e),
            },
            ShnDataType::UnsignedShort => match read_u16(data, pos) {
                Ok(v) => Ok(ShnCell::UnsignedShort(v)),
                Err(e) => Err(e),
            },
            ShnDataType::SignedShort => match read_u16(data, pos) {
                Ok(v) => Ok(ShnCell::SignedShort(#[verifier::truncate] (v as i16))),
                Err(e) => Err(e),
            },
            ShnDataType::UnsignedInteger => match read_u32(data, pos) {
                Ok(v) => Ok(ShnCell::UnsignedInteger(v)),
                Err(e) => Err(e),
            },
            ShnDataType::SignedInteger => match read_u32(data, pos) {
                Ok(v) => Ok(ShnCell::SignedInteger(#[verifier::truncate] (v as i32))),
                Err(e) => Err(e),
            },
            ShnDataType::SingleFloatingPoint => match read_u32(data, pos) {
                Ok(v) => Ok(ShnCell::SingleFloatingPoint(v)),
                Err(e) => Err(e),
            },
            ShnDataType::StringFixedLen => {
                if column.data_length < 0 {
                    return Err(ShnError::InvalidFile);
                }
                let n = column.data_length as usize;
                if data.len() - *pos >= n {
                    let sl = slice_subrange(data.as_slice(), *pos, *pos + n);
                    let s = codec.decode_lossy(sl);
                    let t = trim_trailing_nuls(s.as_str());
                    *pos = *pos + n;
                    Ok(ShnCell::StringFixedLen(t))
                } else {
                    Err(ShnError::InvalidFile)
                }
            },
            ShnDataType::StringZeroTerminated => {
                let mut cur: usize = *pos;
                let mut buf: Vec<u8> = Vec::new();
                proof {
                    assert(buf@ =~= data@.subrange(*pos as int, cur as int));
                }
                while cur < data.len() && data[cur] != 0
                    invariant
                        *pos <= cur <= data@.len(),
                        buf@ == data@.subrange(*pos as int, cur as int),
                        find_nul(data@, *pos as int) == find_nul(data@, cur as int),
                    decreases data@.len() - cur,
                {
                    let b = data[cur];
                    buf.push(b);
                    proof {
                        assert(buf@ =~= data@.subrange(*pos as int, cur + 1));
                    }
                    cur += 1;
                }
                if cur < data.len() {
                    proof {
                        assert(find_nul(data@, cur as int) == Some(cur as int));
                    }
                    let s = codec.decode_lossy(buf.as_slice());
                    *pos = cur + 1;
                    Ok(ShnCell::StringZeroTerminated(s))
                } else {
                    proof {
                        assert(find_nul(data@, cur as int) is None);
                    }
                    Err(ShnError::InvalidFile)
                }
            },
        }
    }

    /// Reads one row: one cell per schema column, in column order; the
    /// row shares the given schema.
    #[verifier::loop_isolation(false)]
    fn read_row<C: TextCodec>(
        data: &Vec<u8>,
        pos: &mut usize,
        schema: &Arc<ShnSchema>,
        codec: &C,
    ) -> (r: Result<ShnRow, ShnError>)
        requires
            *old(pos) <= data@.len(),
        ensures
            match r {
                Ok(row) => {
                    &&& parse_cells(data@, *old(pos) as int, schema@, codec) == Ok::<
                        (Seq<CellV>, int),
                        ShnError,
                    >((row@.cells, *final(pos) as int))
                    &&& row@.schema == schema@
                    &&& *final(pos) <= data@.len()
                },
                Err(e) => parse_cells(data@, *old(pos) as int, schema@, codec) == Err::<
                    (Seq<CellV>, int),
                    ShnError,
                >(e),
            },
    {
        let ghost start = *pos as int;
        let n = schema.columns.len();
        let mut cells: Vec<ShnCell> = Vec::new();
        let mut i: usize = 0;
        proof {
            assert(schema@.skip(0) =~= schema@);
            assert(cells@.map_values(|c: ShnCell| c@) =~= Seq::<CellV>::empty());
        }
        while i < n
            invariant
                i <= n,
                n == schema.columns@.len(),
                schema@.len() == n,
                *pos <= data@.len(),
                ({
                    let sofar = cells@.map_values(|c: ShnCell| c@);
                    match parse_cells(data@, *pos as int, schema@.skip(i as int), codec) {
                        Ok(r2) => parse_cells(data@, start, schema@, codec) == Ok::<
                            (Seq<CellV>, int),
                            ShnError,
                        >((sofar + r2.0, r2.1)),
                        Err(e2) => parse_cells(data@, start, schema@, codec) == Err::<
                            (Seq<CellV>, int),
                            ShnError,
                        >(e2),
                    }
                }),
            decreases n - i,
        {
            let ghost rest = schema@.skip(i as int);
            proof {
                assert(rest[0] == schema@[i as int]);
                assert(rest.drop_first() =~= schema@.skip(i as int + 1));
                assert(schema@[i as int] == schema.columns@[i as int]@);
            }
            let column = &schema.columns[i];
            let ghost sofar = cells@.map_values(|c: ShnCell| c@);
            let ghost entry = *pos as int;
            match Self::read_cell(data, pos, column, codec) {
                Ok(cell) => {
                    cells.push(cell);
                    proof {
                        assert(cells@.map_values(|c: ShnCell| c@) =~= sofar.push(cell@));
                        match parse_cells(data@, *pos as int, schema@.skip(i as int + 1), codec) {
                            Ok(r2) => {
                                assert(sofar.push(cell@) + r2.0 =~= sofar + (seq![cell@] + r2.0));
                            },
                            Err(_) => {},
                        }
                    }
                },
                Err(e) => {
                    proof {
                        assert(parse_cell(data@, entry, schema@.skip(i as int)[0], codec) == Err::<
                            (CellV, int),
                            ShnError,
                        >(e));
                        assert(parse_cells(data@, entry, schema@.skip(i as int), codec) == Err::<
                            (Seq<CellV>, int),
                            ShnError,
                        >(e));
                    }
                    return Err(e);
                },
            }
            i += 1;
        }
        proof {
            assert(schema@.skip(n as int) =~= Seq::<ColumnV>::empty());
            let sofar = cells@.map_values(|c: ShnCell| c@);
            assert(sofar + Seq::<CellV>::empty() =~= sofar);
        }
        Ok(ShnRow { schema: share_schema(schema), data: cells })
    }

    /// Reads `count` rows in order.
    #[verifier::loop_isolation(false)]
    fn read_rows<C: TextCodec>(
        data: &Vec<u8>,
        pos: &mut usize,
        schema: &Arc<ShnSchema>,
        count: u32,
        codec: &C,
    ) -> (r: Result<Vec<ShnRow>, ShnError>)
        requires
            *old(pos) <= data@.len(),
        ensures
            match r {
                Ok(rows) => {
                    &&& parse_rows(data@, *old(pos) as int, schema@, count as nat, codec) == Ok::<
                        (Seq<RowV>, int),
                        ShnError,
                    >((rows@.map_values(|x: ShnRow| x@), *final(pos) as int))
                    &&& *final(pos) <= data@.len()
                },
                Err(e) => parse_rows(data@, *old(pos) as int, schema@, count as nat, codec)
                    == Err::<(Seq<RowV>, int), ShnError>(e),
            },
    {
        let ghost start = *pos as int;
        let mut rows: Vec<ShnRow> = Vec::new();
        let mut i: u32 = 0;
        proof {
            assert(rows@.map_values(|x: ShnRow| x@) =~= Seq::<RowV>::empty());
        }
        while i < count
            invariant
                i <= count,
                *pos <= data@.len(),
                ({
                    let sofar = rows@.map_values(|x: ShnRow| x@);
                    match parse_rows(data@, *pos as int, schema@, (count - i) as nat, codec) {
                        Ok(r2) => parse_rows(data@, start, schema@, count as nat, codec) == Ok::<
                            (Seq<RowV>, int),
                            ShnError,
                        >((sofar + r2.0, r2.1)),
                        Err(e2) => parse_rows(data@, start, schema@, count as nat, codec) == Err::<
                            (Seq<RowV>, int),
                            ShnError,
                        >(e2),
                    }
                }),
            decreases count - i,
        {
            let ghost sofar = rows@.map_values(|x: ShnRow| x@);
            let ghost entry = *pos as int;
            match Self::read_row(data, pos, schema, codec) {
                Ok(row) => {
                    proof {
                        assert(row@ == (RowV { schema: schema@, cells: row@.cells }));
                    }
                    rows.push(row);
                    proof {
                        assert(rows@.map_values(|x: ShnRow| x@) =~= sofar.push(row@));
                        match parse_rows(data@, *pos as int, schema@, (count - i - 1) as nat,
                        codec) {
                            Ok(r2) => {
                                assert(sofar.push(row@) + r2.0 =~= sofar + (seq![row@] + r2.0));
                            },
                            Err(_) => {},
                        }
                    }
                },
                Err(e) => {
                    proof {
                        assert(parse_cells(data@, entry, schema@, codec) == Err::<
                            (Seq<CellV>, int),
                            ShnError,
                        >(e));
                        assert(parse_rows(data@, entry, schema@, (count - i) as nat, codec)
                            == Err::<(Seq<RowV>, int), ShnError>(e));
                    }
                    return Err(e);
                },
            }
            i += 1;
        }
        proof {
            let sofar = rows@.map_values(|x: ShnRow| x@);
            assert(sofar + Seq::<RowV>::empty() =~= sofar);
        }
        Ok(rows)
    }

    /// Reads one column definition at the cursor.
    fn read_column<C: TextCodec>(data: &Vec<u8>, pos: &mut usize, codec: &C) -> (r: Result<
        ShnColumn,
        ShnError,
    >)
        requires
            *old(pos) <= data@.len(),
        ensures
            match r {
                Ok(col) => {
                    &&& parse_column(data@, *old(pos) as int, codec) == Ok::<
                        (ColumnV, int),
                        ShnError,
                    >((col@, *final(pos) as int))
                    &&& *final(pos) <= data@.len()
                },
                Err(e) => parse_column(data@, *old(pos) as int, codec) == Err::<
                    (ColumnV, int),
                    ShnError,
                >(e),
            },
    {
        if data.len() - *pos < 48 {
            return Err(ShnError::InvalidFile);
        }
        let sl = slice_subrange(data.as_slice(), *pos, *pos + 48);
        let raw_name = codec.decode_lossy(sl);
        let name = trim_trailing_nuls(raw_name.as_str());
        let mut cur: usize = *pos + 48;
        let tid = match read_u32(data, &mut cur) {
            Ok(v) => v,
            Err(e) => {
                return Err(e);
            },
        };
        let lenv = match read_u32(data, &mut cur) {
            Ok(v) => v,
            Err(e) => {
                return Err(e);
            },
        };
        let dt = match ShnDataType::from_id(tid) {
            Ok(t) => t,
            Err(e) => {
                return Err(e);
            },
        };
        *pos = cur;
        Ok(ShnColumn { name, data_type: dt, data_length: #[verifier::truncate] (lenv as i32) })
    }

    /// Reads the schema: the synthetic `__ID__` column first, then
    /// `column_count` serialized columns; fails with `InvalidSchema`
    /// when the record length summed over all columns does not equal
    /// `expected_len`.
    #[verifier::loop_isolation(false)]
    fn read_schema<C: TextCodec>(
        data: &Vec<u8>,
        pos: &mut usize,
        column_count: u32,
        expected_len: i32,
        codec: &C,
    ) -> (r: Result<ShnSchema, ShnError>)
        requires
            *old(pos) <= data@.len(),
        ensures
            match r {
                Ok(schema) => {
                    &&& parse_schema(data@, *old(pos) as int, column_count, expected_len, codec)
                        == Ok::<(Seq<ColumnV>, int), ShnError>((schema@, *final(pos) as int))
                    &&& *final(pos) <= data@.len()
                },
                Err(e) => parse_schema(data@, *old(pos) as int, column_count, expected_len, codec)
                    == Err::<(Seq<ColumnV>, int), ShnError>(e),
            },
    {
        let ghost start = *pos as int;
        let mut columns: Vec<ShnColumn> = Vec::new();
        columns.push(ShnColumn {
            name: "__ID__".to_owned(),
            data_type: ShnDataType::UnsignedShort,
            data_length: 2,
        });
        let mut len: i128 = 2;
        let mut i: u32 = 0;
        proof {
            assert(columns@.map_values(|c: ShnColumn| c@) =~= seq![syn_column()]);
            assert(columns@.map_values(|c: ShnColumn| c@).skip(1) =~= Seq::<ColumnV>::empty());
            assert(seq![syn_column()].drop_last() =~= Seq::<ColumnV>::empty());
            assert(crate::shn::record_len(Seq::<ColumnV>::empty()) == 0);
            assert(crate::shn::record_len(seq![syn_column()]) == 2);
        }
        while i < column_count
            invariant
                i <= column_count,
                *pos <= data@.len(),
                ({
                    let full = columns@.map_values(|c: ShnColumn| c@);
                    let sofar = full.skip(1);
                    &&& full =~= seq![syn_column()] + sofar
                    &&& len == crate::shn::record_len(full)
                    &&& -0x8000_0000 * (i as i128) <= len - 2 <= 0x7fff_ffff * (i as i128)
                    &&& match parse_columns(data@, *pos as int, (column_count - i) as nat, codec) {
                        Ok(r2) => parse_columns(data@, start, column_count as nat, codec) == Ok::<
                            (Seq<ColumnV>, int),
                            ShnError,
                        >((sofar + r2.0, r2.1)),
                        Err(e2) => parse_columns(data@, start, column_count as nat, codec) == Err::<
                            (Seq<ColumnV>, int),
                            ShnError,
                        >(e2),
                    }
                }),
            decreases column_count - i,
        {
            let ghost old_full = columns@.map_values(|c: ShnColumn| c@);
            let ghost old_sofar = old_full.skip(1);
            let ghost entry = *pos as int;
            match Self::read_column(data, pos, codec) {
                Ok(col) => {
                    let l = col.data_length;
                    let ghost colv = col@;
                    columns.push(col);
                    len = len + l as i128;
                    proof {
                        let full = columns@.map_values(|c: ShnColumn| c@);
                        assert(full =~= old_full.push(colv));
                        assert(full.skip(1) =~= old_sofar.push(colv));
                        assert(full.drop_last() =~= old_full);
                        assert(full =~= seq![syn_column()] + full.skip(1));
                        match parse_columns(data@, *pos as int, (column_count - i - 1) as nat,
                        codec) {
                            Ok(r2) => {
                                assert(old_sofar.push(colv) + r2.0 =~= old_sofar + (seq![colv]
                                    + r2.0));
                            },
                            Err(_) => {},
                        }
                    }
                },
                Err(e) => {
                    proof {
                        assert(parse_column(data@, entry, codec) == Err::<
                            (ColumnV, int),
                            ShnError,
                        >(e));
                        assert(parse_columns(data@, entry, (column_count - i) as nat, codec)
                            == Err::<(Seq<ColumnV>, int), ShnError>(e));
                    }
                    return Err(e);
                },
            }
            i += 1;
        }
        proof {
            let full = columns@.map_values(|c: ShnColumn| c@);
            let sofar = full.skip(1);
            assert(sofar + Seq::<ColumnV>::empty() =~= sofar);
            assert(full =~= seq![syn_column()] + sofar);
        }
        if len == expected_len as i128 {
            Ok(ShnSchema { columns })
        } else {
            Err(ShnError::InvalidSchema)
        }
    }

    /// Reads a whole SHN file from its bytes: the crypt header, the
    /// length field, the de-obfuscated payload's header words, the
    /// schema, and the rows. Any short read, unassigned type id, codec
    /// failure or record-length mismatch aborts the read with the
    /// corresponding error; no partial file is ever returned.
    pub fn read_from<C: TextCodec>(source: &Vec<u8>, codec: &C) -> (r: Result<ShnFile, ShnError>)
        ensures
            match r {
                Ok(f) => {
                    &&& parse_file(source@, codec) == Ok::<FileV, ShnError>(f@)
                    &&& wf_file(f@)
                },
                Err(e) => parse_file(source@, codec) == Err::<FileV, ShnError>(e),
            },
    {
        let mut pos: usize = 0;
        let crypt_header = match Self::read_crypt_header(source, &mut pos) {
            Ok(h) => h,
            Err(e) => {
                return Err(e);
            },
        };
        let lraw = match read_u32(source, &mut pos) {
            Ok(v) => v,
            Err(e) => {
                return Err(e);
            },
        };
        let l: i32 = #[verifier::truncate] (lraw as i32);
        if l < 0x24 {
            return Err(ShnError::InvalidFile);
        }
        let plen = (l - 0x24) as usize;
        if source.len() - pos < plen {
            return Err(ShnError::InvalidFile);
        }
        let sl = slice_subrange(source.as_slice(), pos, pos + plen);
        let mut payload = vstd::slice::slice_to_vec(sl);
        crate::transform::decrypt(&mut payload);
        let ghost plain = payload@;

        let mut ppos: usize = 0;
        let header = match read_u32(&payload, &mut ppos) {
            Ok(v) => v,
            Err(e) => {
                return Err(e);
            },
        };
        let record_count = match read_u32(&payload, &mut ppos) {
            Ok(v) => v,
            Err(e) => {
                return Err(e);
            },
        };
        let default_len = match read_u32(&payload, &mut ppos) {
            Ok(v) => v,
            Err(e) => {
                return Err(e);
            },
        };
        let column_count = match read_u32(&payload, &mut ppos) {
            Ok(v) => v,
            Err(e) => {
                return Err(e);
            },
        };
        let expected: i32 = #[verifier::truncate] (default_len as i32);
        let schema = match Self::read_schema(&payload, &mut ppos, column_count, expected, codec) {
            Ok(s) => s,
            Err(e) => {
                return Err(e);
            },
        };
        let schema_arc = Arc::new(schema);
        let ghost rows_start = ppos as int;
        let rows = match Self::read_rows(&payload, &mut ppos, &schema_arc, record_count, codec) {
            Ok(rs) => rs,
            Err(e) => {
                return Err(e);
            },
        };
        proof {
            crate::wire::lemma_parse_rows_wf(
                plain,
                rows_start,
                schema_arc@,
                record_count as nat,
                codec,
            );
        }
        let file = ShnFile { crypt_header, header, schema: schema_arc, data: rows };
        Ok(file)
    }
}

} // verus!
