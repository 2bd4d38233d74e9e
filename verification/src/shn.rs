//! Data model of an SHN table: data kinds, typed cells, columns, the
//! column schema, rows, whole files, and the crate's error type.

use std::sync::Arc;
use vstd::prelude::*;

verus! {

/// Length in bytes of the opaque crypt header at the start of each file.
pub const SHN_CRYPT_HEADER_LEN: usize = 0x20;

/// A data kind within an SHN file.
#[derive(Clone, Copy, PartialEq, Eq, Structural, Debug)]
pub enum ShnDataType {
    /// A string with a fixed byte width.
    StringFixedLen,
    /// A string terminated with a `00` byte.
    StringZeroTerminated,
    /// An unsigned 8-bit value.
    Byte,
    /// A signed 8-bit value.
    SignedByte,
    /// A signed 16-bit value.
    SignedShort,
    /// An unsigned 16-bit value.
    UnsignedShort,
    /// A signed 32-bit value.
    SignedInteger,
    /// An unsigned 32-bit value.
    UnsignedInteger,
    /// A 32-bit IEEE-754 floating-point value, carried by its bit pattern.
    SingleFloatingPoint,
}

/// Errors of this crate.
#[derive(Clone, Copy, PartialEq, Eq, Structural, Debug)]
pub enum ShnError {
    /// The computed record length disagrees with the declared one, or a
    /// row's schema differs from its file's schema.
    InvalidSchema,
    /// A short read or a structurally malformed payload, including an
    /// unrecognized type id in the serialized column table.
    InvalidFile,
    /// A text codec failure while decoding or encoding a name or string.
    InvalidEncoding,
}

/// The kind a wire type id stands for, or `None` for an unassigned id.
pub open spec fn spec_from_id(id: u32) -> Option<ShnDataType> {
    if id == 1 || id == 12 || id == 16 {
        Some(ShnDataType::Byte)
    } else if id == 2 {
        Some(ShnDataType::UnsignedShort)
    } else if id == 3 || id == 11 || id == 18 || id == 27 {
        Some(ShnDataType::UnsignedInteger)
    } else if id == 5 {
        Some(ShnDataType::SingleFloatingPoint)
    } else if id == 9 || id == 24 {
        Some(ShnDataType::StringFixedLen)
    } else if id == 13 || id == 21 {
        Some(ShnDataType::SignedShort)
    } else if id == 20 {
        Some(ShnDataType::SignedByte)
    } else if id == 22 {
        Some(ShnDataType::SignedInteger)
    } else if id == 26 {
        Some(ShnDataType::StringZeroTerminated)
    } else {
        None
    }
}

/// The canonical wire type id of each kind.
pub open spec fn spec_to_id(t: ShnDataType) -> u32 {
    match t {
        ShnDataType::Byte => 1,
        ShnDataType::UnsignedShort => 2,
        ShnDataType::UnsignedInteger => 3,
        ShnDataType::SingleFloatingPoint => 5,
        ShnDataType::StringFixedLen => 9,
        ShnDataType::SignedShort => 13,
        ShnDataType::SignedByte => 20,
        ShnDataType::SignedInteger => 22,
        ShnDataType::StringZeroTerminated => 26,
    }
}

/// The default byte width of each kind; string kinds default to 0, their
/// actual width comes from the column, not from the kind.
pub open spec fn spec_default_length(t: ShnDataType) -> usize {
    match t {
        ShnDataType::Byte => 1,
        ShnDataType::SignedByte => 1,
        ShnDataType::SignedShort => 2,
        ShnDataType::UnsignedShort => 2,
        ShnDataType::SignedInteger => 4,
        ShnDataType::UnsignedInteger => 4,
        ShnDataType::SingleFloatingPoint => 4,
        ShnDataType::StringFixedLen => 0,
        ShnDataType::StringZeroTerminated => 0,
    }
}

impl ShnDataType {
    /// Resolves a wire type id to its kind; unassigned ids are a
    /// structural decoding failure, never a crash.
    pub fn from_id(id: u32) -> (r: Result<ShnDataType, ShnError>)
        ensures
            match spec_from_id(id) {
                Some(t) => r == Ok::<ShnDataType, ShnError>(t),
                None => r == Err::<ShnDataType, ShnError>(ShnError::InvalidFile),
            },
    {
        match id {
            1 | 12 | 16 => Ok(ShnDataType::Byte),
            2 => Ok(ShnDataType::UnsignedShort),
            3 | 11 | 18 | 27 => Ok(ShnDataType::UnsignedInteger),
            5 => Ok(ShnDataType::SingleFloatingPoint),
            9 | 24 => Ok(ShnDataType::StringFixedLen),
            13 | 21 => Ok(ShnDataType::SignedShort),
            20 => Ok(ShnDataType::SignedByte),
            22 => Ok(ShnDataType::SignedInteger),
            26 => Ok(ShnDataType::StringZeroTerminated),
            _ => Err(ShnError::InvalidFile),
        }
    }

    /// Returns the canonical id of the kind: the one the writer emits.
    pub fn to_id(&self) -> (r: u32)
        ensures
            r == spec_to_id(*self),
    {
        match *self {
            ShnDataType::Byte => 1,
            ShnDataType::UnsignedShort => 2,
            ShnDataType::UnsignedInteger => 3,
            ShnDataType::SingleFloatingPoint => 5,
            ShnDataType::StringFixedLen => 9,
            ShnDataType::SignedShort => 13,
            ShnDataType::SignedByte => 20,
            ShnDataType::SignedInteger => 22,
            ShnDataType::StringZeroTerminated => 26,
        }
    }

    /// Returns the default byte width of the kind.
    pub fn default_length(&self) -> (r: usize)
        ensures
            r == spec_default_length(*self),
    {
        match *self {
            ShnDataType::Byte | ShnDataType::SignedByte => 1,
            ShnDataType::SignedShort | ShnDataType::UnsignedShort => 2,
            ShnDataType::SignedInteger
            | ShnDataType::UnsignedInteger
            | ShnDataType::SingleFloatingPoint => 4,
            ShnDataType::StringFixedLen | ShnDataType::StringZeroTerminated => 0,
        }
    }
}

/// Law: every assigned wire id resolves to a kind whose canonical id is
/// itself assigned to that same kind.
pub proof fn lemma_type_id_mapping()
    ensures
        forall|id: u32|
            #[trigger] spec_from_id(id) matches Some(t) ==> spec_from_id(spec_to_id(t)) == Some(t),
{
}

/// A single data cell within an SHN file.
///
/// Floating-point cells carry the 32-bit IEEE-754 bit pattern exactly as
/// it stands on the wire; `f32::from_bits` / `f32::to_bits` convert at
/// the caller's edge.
#[derive(Clone, PartialEq, Debug)]
pub enum ShnCell {
    /// A cell of the `StringFixedLen` kind.
    StringFixedLen(String),
    /// A cell of the `StringZeroTerminated` kind.
    StringZeroTerminated(String),
    /// A cell of the `Byte` kind.
    Byte(u8),
    /// A cell of the `SignedByte` kind.
    SignedByte(i8),
    /// A cell of the `SignedShort` kind.
    SignedShort(i16),
    /// A cell of the `UnsignedShort` kind.
    UnsignedShort(u16),
    /// A cell of the `SignedInteger` kind.
    SignedInteger(i32),
    /// A cell of the `UnsignedInteger` kind.
    UnsignedInteger(u32),
    /// A cell of the `SingleFloatingPoint` kind, as its bit pattern.
    SingleFloatingPoint(u32),
}

/// The mathematical value of a cell: strings as character sequences.
pub enum CellV {
    /// Value of a `StringFixedLen` cell.
    StringFixedLen(Seq<char>),
    /// Value of a `StringZeroTerminated` cell.
    StringZeroTerminated(Seq<char>),
    /// Value of a `Byte` cell.
    Byte(u8),
    /// Value of a `SignedByte` cell.
    SignedByte(i8),
    /// Value of a `SignedShort` cell.
    SignedShort(i16),
    /// Value of an `UnsignedShort` cell.
    UnsignedShort(u16),
    /// Value of a `SignedInteger` cell.
    SignedInteger(i32),
    /// Value of an `UnsignedInteger` cell.
    UnsignedInteger(u32),
    /// Value of a `SingleFloatingPoint` cell (the bit pattern).
    SingleFloatingPoint(u32),
}

impl CellV {
    /// The kind a cell value belongs to, derived structurally.
    pub open spec fn dtype(self) -> ShnDataType {
        match self {
            CellV::StringFixedLen(_) => ShnDataType::StringFixedLen,
            CellV::StringZeroTerminated(_) => ShnDataType::StringZeroTerminated,
            CellV::Byte(_) => ShnDataType::Byte,
            CellV::SignedByte(_) => ShnDataType::SignedByte,
            CellV::SignedShort(_) => ShnDataType::SignedShort,
            CellV::UnsignedShort(_) => ShnDataType::UnsignedShort,
            CellV::SignedInteger(_) => ShnDataType::SignedInteger,
            CellV::UnsignedInteger(_) => ShnDataType::UnsignedInteger,
            CellV::SingleFloatingPoint(_) => ShnDataType::SingleFloatingPoint,
        }
    }
}

impl View for ShnCell {
    type V = CellV;

    open spec fn view(&self) -> CellV {
        match self {
            ShnCell::StringFixedLen(s) => CellV::StringFixedLen(s@),
            ShnCell::StringZeroTerminated(s) => CellV::StringZeroTerminated(s@),
            ShnCell::Byte(v) => CellV::Byte(*v),
            ShnCell::SignedByte(v) => CellV::SignedByte(*v),
            ShnCell::SignedShort(v) => CellV::SignedShort(*v),
            ShnCell::UnsignedShort(v) => CellV::UnsignedShort(*v),
            ShnCell::SignedInteger(v) => CellV::SignedInteger(*v),
            ShnCell::UnsignedInteger(v) => CellV::UnsignedInteger(*v),
            ShnCell::SingleFloatingPoint(v) => CellV::SingleFloatingPoint(*v),
        }
    }
}

impl ShnCell {
    /// Returns the kind this cell belongs to.
    pub fn data_type(&self) -> (t: ShnDataType)
        ensures
            t == self@.dtype(),
    {
        match *self {
            ShnCell::StringFixedLen(_) => ShnDataType::StringFixedLen,
            ShnCell::StringZeroTerminated(_) => ShnDataType::StringZeroTerminated,
            ShnCell::Byte(_) => ShnDataType::Byte,
            ShnCell::SignedByte(_) => ShnDataType::SignedByte,
            ShnCell::SignedShort(_) => ShnDataType::SignedShort,
            ShnCell::UnsignedShort(_) => ShnDataType::UnsignedShort,
            ShnCell::SignedInteger(_) => ShnDataType::SignedInteger,
            ShnCell::UnsignedInteger(_) => ShnDataType::UnsignedInteger,
            ShnCell::SingleFloatingPoint(_) => ShnDataType::SingleFloatingPoint,
        }
    }
}

/// A column in the SHN table.
#[derive(Clone, Debug)]
pub struct ShnColumn {
    /// The name identifying the column.
    pub name: String,
    /// The kind of data held by this column.
    pub data_type: ShnDataType,
    /// The byte width of the column's cells; 0 stands in for
    /// zero-terminated strings, whose width varies by cell.
    pub data_length: i32,
}

/// The mathematical value of a column.
pub struct ColumnV {
    /// The column's name as a character sequence.
    pub name: Seq<char>,
    /// The kind of data held by the column.
    pub data_type: ShnDataType,
    /// The byte width of the column's cells.
    pub data_length: i32,
}

impl View for ShnColumn {
    type V = ColumnV;

    open spec fn view(&self) -> ColumnV {
        ColumnV { name: self.name@, data_type: self.data_type, data_length: self.data_length }
    }
}

impl PartialEq for ShnColumn {
    fn eq(&self, other: &ShnColumn) -> (r: bool) {
        self.name == other.name && self.data_type == other.data_type && self.data_length
            == other.data_length
    }
}

impl vstd::std_specs::cmp::PartialEqSpecImpl for ShnColumn {
    open spec fn obeys_eq_spec() -> bool {
        true
    }

    open spec fn eq_spec(&self, other: &ShnColumn) -> bool {
        self@ == other@
    }
}

impl ShnColumn {
    /// Constructs a new column of the `StringFixedLen` kind.
    pub fn new_string_fixed_len(name: &str, len: i32) -> (c: ShnColumn)
        ensures
            c@ == (ColumnV {
                name: name@,
                data_type: ShnDataType::StringFixedLen,
                data_length: len,
            }),
    {
        ShnColumn {
            name: name.to_owned(),
            data_type: ShnDataType::StringFixedLen,
            data_length: len,
        }
    }

    /// Constructs a new column of the `StringZeroTerminated` kind.
    pub fn new_string_terminated(name: &str) -> (c: ShnColumn)
        ensures
            c@ == (ColumnV {
                name: name@,
                data_type: ShnDataType::StringZeroTerminated,
                data_length: 0,
            }),
    {
        ShnColumn {
            name: name.to_owned(),
            data_type: ShnDataType::StringZeroTerminated,
            data_length: 0,
        }
    }

    /// Constructs a new column of the `Byte` kind.
    pub fn new_byte(name: &str) -> (c: ShnColumn)
        ensures
            c@ == (ColumnV { name: name@, data_type: ShnDataType::Byte, data_length: 1 }),
    {
        ShnColumn { name: name.to_owned(), data_type: ShnDataType::Byte, data_length: 1 }
    }

    /// Constructs a new column of the `SignedByte` kind.
    pub fn new_signed_byte(name: &str) -> (c: ShnColumn)
        ensures
            c@ == (ColumnV { name: name@, data_type: ShnDataType::SignedByte, data_length: 1 }),
    {
        ShnColumn { name: name.to_owned(), data_type: ShnDataType::SignedByte, data_length: 1 }
    }

    /// Constructs a new column of the `UnsignedShort` kind.
    pub fn new_unsigned_short(name: &str) -> (c: ShnColumn)
        ensures
            c@ == (ColumnV { name: name@, data_type: ShnDataType::UnsignedShort, data_length: 2 }),
    {
        ShnColumn { name: name.to_owned(), data_type: ShnDataType::UnsignedShort, data_length: 2 }
    }

    /// Constructs a new column of the `SignedShort` kind.
    pub fn new_signed_short(name: &str) -> (c: ShnColumn)
        ensures
            c@ == (ColumnV { name: name@, data_type: ShnDataType::SignedShort, data_length: 2 }),
    {
        ShnColumn { name: name.to_owned(), data_type: ShnDataType::SignedShort, data_length: 2 }
    }

    /// Constructs a new column of the `UnsignedInteger` kind.
    pub fn new_unsigned_integer(name: &str) -> (c: ShnColumn)
        ensures
            c@ == (ColumnV {
                name: name@,
                data_type: ShnDataType::UnsignedInteger,
                data_length: 4,
            }),
    {
        ShnColumn {
            name: name.to_owned(),
            data_type: ShnDataType::UnsignedInteger,
            data_length: 4,
        }
    }

    /// Constructs a new column of the `SignedInteger` kind.
    pub fn new_signed_integer(name: &str) -> (c: ShnColumn)
        ensures
            c@ == (ColumnV { name: name@, data_type: ShnDataType::SignedInteger, data_length: 4 }),
    {
        ShnColumn { name: name.to_owned(), data_type: ShnDataType::SignedInteger, data_length: 4 }
    }

    /// Constructs a new column of the `SingleFloatingPoint` kind.
    pub fn new_single_floating_point(name: &str) -> (c: ShnColumn)
        ensures
            c@ == (ColumnV {
                name: name@,
                data_type: ShnDataType::SingleFloatingPoint,
                data_length: 4,
            }),
    {
        ShnColumn {
            name: name.to_owned(),
            data_type: ShnDataType::SingleFloatingPoint,
            data_length: 4,
        }
    }
}

/// The sum of the byte widths of a column sequence.
pub open spec fn record_len(cols: Seq<ColumnV>) -> int
    decreases cols.len(),
{
    if cols.len() == 0 {
        0
    } else {
        record_len(cols.drop_last()) + cols.last().data_length
    }
}

/// The schema of an SHN file: its ordered column definitions. Column 0
/// of a schema built by the reader is always the synthetic `__ID__`
/// unsigned-short column, which the serialized column table omits.
#[derive(Clone, Debug)]
pub struct ShnSchema {
    /// The columns defining the schema.
    pub columns: Vec<ShnColumn>,
}

impl View for ShnSchema {
    type V = Seq<ColumnV>;

    open spec fn view(&self) -> Seq<ColumnV> {
        self.columns@.map_values(|c: ShnColumn| c@)
    }
}

impl PartialEq for ShnSchema {
    fn eq(&self, other: &ShnSchema) -> (r: bool) {
        if self.columns.len() != other.columns.len() {
            proof {
                assert(self@.len() == self.columns@.len());
                assert(other@.len() == other.columns@.len());
            }
            return false;
        }
        let n = self.columns.len();
        let mut i: usize = 0;
        while i < n
            invariant
                i <= n,
                n == self.columns@.len(),
                n == other.columns@.len(),
                forall|j: int| 0 <= j < i ==> self.columns@[j]@ == other.columns@[j]@,
            decreases n - i,
        {
            if !(self.columns[i] == other.columns[i]) {
                proof {
                    assert(self@[i as int] == self.columns@[i as int]@);
                    assert(other@[i as int] == other.columns@[i as int]@);
                }
                return false;
            }
            i += 1;
        }
        proof {
            assert(self@ =~= other@);
        }
        true
    }
}

impl vstd::std_specs::cmp::PartialEqSpecImpl for ShnSchema {
    open spec fn obeys_eq_spec() -> bool {
        true
    }

    open spec fn eq_spec(&self, other: &ShnSchema) -> bool {
        self@ == other@
    }
}

impl ShnSchema {
    /// Constructs a new, empty schema.
    pub fn new() -> (s: ShnSchema)
        ensures
            s@ == Seq::<ColumnV>::empty(),
    {
        let s = ShnSchema { columns: Vec::new() };
        proof {
            assert(s@ =~= Seq::<ColumnV>::empty());
        }
        s
    }

    /// Calculates the default length in bytes of each record: the sum of
    /// all columns' byte widths (the synthetic column contributes 2).
    /// The sum must fit the `i32` the wire format stores it in.
    pub fn calculate_record_length(&self) -> (r: i32)
        requires
            -0x8000_0000 <= record_len(self@) <= 0x7fff_ffff,
        ensures
            r as int == record_len(self@),
    {
        let n = self.columns.len();
        let mut acc: i128 = 0;
        let mut i: usize = 0;
        proof {
            assert(self@.subrange(0, 0) =~= Seq::<ColumnV>::empty());
        }
        while i < n
            invariant
                i <= n,
                n == self.columns@.len(),
                self@.len() == n,
                acc == record_len(self@.subrange(0, i as int)),
                -0x8000_0000 * (i as i128) <= acc <= 0x7fff_ffff * (i as i128),
            decreases n - i,
        {
            proof {
                assert(self@.subrange(0, i + 1).drop_last() =~= self@.subrange(0, i as int));
                assert(self@.subrange(0, i + 1).last() == self.columns@[i as int]@);
            }
            acc = acc + self.columns[i].data_length as i128;
            i += 1;
        }
        proof {
            assert(self@.subrange(0, n as int) =~= self@);
        }
        acc as i32
    }
}

/// A single row of data within a file.
#[derive(Debug)]
pub struct ShnRow {
    /// Shared reference to the schema defining the file.
    pub schema: Arc<ShnSchema>,
    /// The row's cells, one per schema column, in column order.
    pub data: Vec<ShnCell>,
}

/// The mathematical value of a row.
pub struct RowV {
    /// The schema the row refers to.
    pub schema: Seq<ColumnV>,
    /// The row's cell values in column order.
    pub cells: Seq<CellV>,
}

impl View for ShnRow {
    type V = RowV;

    open spec fn view(&self) -> RowV {
        RowV { schema: self.schema@, cells: self.data@.map_values(|c: ShnCell| c@) }
    }
}

/// Well-formedness of a row value: one cell per column, each of its
/// column's kind.
pub open spec fn wf_row(r: RowV) -> bool {
    &&& r.cells.len() == r.schema.len()
    &&& forall|i: int| 0 <= i < r.cells.len() ==> r.cells[i].dtype() == r.schema[i].data_type
}

/// An SHN file.
#[derive(Debug)]
pub struct ShnFile {
    /// The opaque crypt header, preserved verbatim across read and write.
    pub crypt_header: [u8; SHN_CRYPT_HEADER_LEN],
    /// The opaque header word, preserved verbatim.
    pub header: u32,
    /// The schema defining the file.
    pub schema: Arc<ShnSchema>,
    /// The rows held in the file.
    pub data: Vec<ShnRow>,
}

/// The mathematical value of a file.
pub struct FileV {
    /// The crypt header bytes.
    pub crypt_header: Seq<u8>,
    /// The opaque header word.
    pub header: u32,
    /// The schema's column values.
    pub schema: Seq<ColumnV>,
    /// The rows' values in order.
    pub rows: Seq<RowV>,
}

impl View for ShnFile {
    type V = FileV;

    open spec fn view(&self) -> FileV {
        FileV {
            crypt_header: self.crypt_header@,
            header: self.header,
            schema: self.schema@,
            rows: self.data@.map_values(|r: ShnRow| r@),
        }
    }
}

/// Well-formedness of a file value: every row is well-formed under the
/// file's own schema.
pub open spec fn wf_file(f: FileV) -> bool {
    &&& f.crypt_header.len() == SHN_CRYPT_HEADER_LEN
    &&& forall|i: int|
        0 <= i < f.rows.len() ==> (#[trigger] f.rows[i]).schema == f.schema && wf_row(f.rows[i])
}

impl ShnFile {
    /// Appends a row to the file after checking that the row's schema
    /// equals the file's schema by value; on a mismatch the file is left
    /// unchanged and `InvalidSchema` comes back.
    pub fn append_row(&mut self, row: ShnRow) -> (r: Result<(), ShnError>)
        ensures
            match r {
                Ok(()) => row@.schema == old(self)@.schema && final(self)@ == (FileV {
                    rows: old(self)@.rows.push(row@),
                    ..old(self)@
                }),
                Err(e) => {
                    &&& e == ShnError::InvalidSchema
                    &&& row@.schema != old(self)@.schema
                    &&& final(self)@ == old(self)@
                },
            },
    {
        let same = *self.schema == *row.schema;
        if !same {
            Err(ShnError::InvalidSchema)
        } else {
            let ghost old_rows = self@.rows;
            self.data.push(row);
            proof {
                assert(self@.rows =~= old_rows.push(row@));
            }
            Ok(())
        }
    }
}

} // verus!
