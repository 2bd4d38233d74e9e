//! Codec for the `SHN` binary table format: statically typed game data
//! tables stored as an obfuscated payload holding a self-describing
//! column schema followed by fixed-layout records.
//!
//! The library reads and writes whole files as byte buffers; the caller
//! does the I/O that fills or drains them, and supplies a
//! [`codec::TextCodec`] for the names and string cells.

pub mod buffed_io;
pub mod codec;
pub mod roundtrip;
pub mod shn;
pub mod shn_reader;
pub mod shn_writer;
pub mod transform;
pub mod wire;

pub use buffed_io::BufferedWriter;
pub use shn::{ShnCell, ShnColumn, ShnDataType, ShnError, ShnFile, ShnRow, ShnSchema};
pub use transform::decrypt;

use codec::TextCodec;
use shn::{wf_file, FileV};
use vstd::prelude::*;

verus! {

/// Reads an `ShnFile` from the bytes of a whole file, using the given
/// codec for any text.
pub fn read_from<C: TextCodec>(source: &Vec<u8>, codec: &C) -> (r: Result<ShnFile, ShnError>)
    ensures
        match r {
            Ok(f) => {
                &&& wire::parse_file(source@, codec) == Ok::<FileV, ShnError>(f@)
                &&& wf_file(f@)
            },
            Err(e) => wire::parse_file(source@, codec) == Err::<FileV, ShnError>(e),
        },
{
    shn_reader::ShnReader::read_from(source, codec)
}

/// Writes the `ShnFile` to a fresh byte buffer, using the given codec
/// for any text.
pub fn write_to<C: TextCodec>(file: &ShnFile, codec: &C) -> (r: Result<Vec<u8>, ShnError>)
    requires
        wf_file(file@),
    ensures
        match r {
            Ok(out) => wire::ser_file(file@, codec) == Ok::<Seq<u8>, ShnError>(out@),
            Err(e) => wire::ser_file(file@, codec) == Err::<Seq<u8>, ShnError>(e),
        },
{
    shn_writer::ShnWriter::write_to(file, codec)
}

} // verus!
