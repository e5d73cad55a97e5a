//! The whole-database file: a name and a table count, a durability
//! unit parallel to — and independent of — any single table.
//!
//! Its layout is the name in a 64-byte zero-padded slot at offset 0
//! and the table count as a 4-byte little-endian integer at offset
//! 64. It is written once when a database is initialized; no row or
//! table operation updates it.

use vstd::prelude::*;
use vstd::bytes::*;
use vstd::utf8::encode_utf8;
use crate::disk::DiskWrite;
use crate::errors::DurabilityError;
use crate::layout::{pad_name, pad_name_bytes, ParseFailure};

verus! {

/// Identifies a database: its name and the directory its file lives
/// in. The I/O shell joins the two into the file's path.
pub struct DatabaseConfig {
    pub name: String,
    pub file_path: String,
}

/// Mathematical model of the database header.
#[verifier::ext_equal]
pub struct DatabaseHeaderModel {
    pub name: Seq<u8>,
    pub table_count: u32,
}

impl DatabaseHeaderModel {
    /// A well-formed header holds exactly the 64-byte name slot.
    pub open spec fn wf(self) -> bool {
        self.name.len() == 64
    }
}

/// The 68-byte encoding of the database header:
/// `[name:64][table count:4]`, the count little-endian.
pub open spec fn spec_database_header_bytes(m: DatabaseHeaderModel) -> Seq<u8> {
    m.name + spec_u32_to_le_bytes(m.table_count)
}

/// Reading a database header back from the start of its file's
/// bytes; fails only when the bytes end before the header does.
pub open spec fn spec_parse_database_header(bytes: Seq<u8>) -> Result<
    DatabaseHeaderModel,
    ParseFailure,
> {
    if bytes.len() < 68 {
        Err(ParseFailure::Truncated)
    } else {
        Ok(DatabaseHeaderModel {
            name: bytes.subrange(0, 64),
            table_count: spec_u32_from_le_bytes(bytes.subrange(64, 68)),
        })
    }
}

/// The database header: name slot and table count.
pub struct DatabaseFileHeader {
    pub name: Vec<u8>,
    pub table_count: u32,
}

impl View for DatabaseFileHeader {
    type V = DatabaseHeaderModel;

    open spec fn view(&self) -> DatabaseHeaderModel {
        DatabaseHeaderModel { name: self.name@, table_count: self.table_count }
    }
}

impl DatabaseFileHeader {
    /// Builds a header, padding the name with zero bytes into its
    /// 64-byte slot. Names longer than the slot do not fit and are
    /// ruled out.
    pub fn new(name: &str, table_count: u32) -> (r: Self)
        requires
            encode_utf8(name@).len() <= 64,
        ensures
            r@ == (DatabaseHeaderModel { name: pad_name(encode_utf8(name@)), table_count }),
            r@.wf(),
    {
        let buf = pad_name_bytes(name);
        DatabaseFileHeader { name: buf, table_count }
    }

    /// The whole header as one positioned write at offset 0.
    pub fn write_to_disk(&self) -> (w: DiskWrite)
        requires
            self@.wf(),
        ensures
            w.offset == 0,
            w.bytes@ == spec_database_header_bytes(self@),
            w.bytes@.len() == 68,
    {
        let mut bytes = self.name.clone();
        proof {
            assert(bytes@ =~= self@.name);
        }
        let mut cnt = u32_to_le_bytes(self.table_count);
        bytes.append(&mut cnt);
        proof {
            lemma_auto_spec_u32_to_from_le_bytes();
            assert(bytes@ =~= spec_database_header_bytes(self@));
        }
        DiskWrite { offset: 0, bytes }
    }

    /// Reconstructs the header from the bytes of a database file:
    /// the inverse of applying `write_to_disk`. Fails exactly when
    /// the bytes end inside the header.
    pub fn read_from_disk(bytes: &[u8]) -> (r: Result<Self, DurabilityError>)
        ensures
            r matches Ok(h) ==> spec_parse_database_header(bytes@) == Ok::<
                DatabaseHeaderModel,
                ParseFailure,
            >(h@) && h@.wf(),
            r is Err <==> bytes@.len() < 68,
    {
        if bytes.len() < 68 {
            return Err(
                DurabilityError::IoError("database file ends inside its header".to_owned()),
            );
        }
        let name = vstd::slice::slice_to_vec(&bytes[0..64]);
        let table_count = u32_from_le_bytes(&bytes[64..68]);
        let h = DatabaseFileHeader { name, table_count };
        proof {
            assert(spec_parse_database_header(bytes@)->Ok_0 =~= h@);
        }
        Ok(h)
    }
}

/// A database file is its header; nothing else is persisted at the
/// database level.
pub struct DatabaseFile {
    pub header: DatabaseFileHeader,
}

impl DatabaseFile {
    /// The database file's single positioned write: its header.
    pub fn write_to_disk(&self) -> (w: DiskWrite)
        requires
            self.header@.wf(),
        ensures
            w.offset == 0,
            w.bytes@ == spec_database_header_bytes(self.header@),
    {
        self.header.write_to_disk()
    }

    /// Reconstructs a database file from its bytes.
    pub fn read_from_disk(bytes: &[u8]) -> (r: Result<Self, DurabilityError>)
        ensures
            r matches Ok(d) ==> spec_parse_database_header(bytes@) == Ok::<
                DatabaseHeaderModel,
                ParseFailure,
            >(d.header@) && d.header@.wf(),
            r is Err <==> bytes@.len() < 68,
    {
        let header = DatabaseFileHeader::read_from_disk(bytes)?;
        Ok(DatabaseFile { header })
    }
}

/// Round trip: a written database header reads back as exactly the
/// header that was written, whatever follows it in the file.
pub proof fn lemma_database_header_round_trip(m: DatabaseHeaderModel, rest: Seq<u8>)
    requires
        m.wf(),
    ensures
        spec_parse_database_header(spec_database_header_bytes(m) + rest) == Ok::<
            DatabaseHeaderModel,
            ParseFailure,
        >(m),
{
    lemma_auto_spec_u32_to_from_le_bytes();
    let b = spec_database_header_bytes(m) + rest;
    assert(b.subrange(0, 64) =~= m.name);
    assert(b.subrange(64, 68) =~= spec_u32_to_le_bytes(m.table_count));
    assert(spec_parse_database_header(b)->Ok_0 =~= m);
}

} // verus!
