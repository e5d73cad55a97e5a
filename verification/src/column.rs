//! Column definitions: a fixed-size descriptor (name, logical type,
//! byte length) for one table column, with its 76-byte encoding.

use vstd::prelude::*;
use vstd::bytes::*;
use vstd::utf8::encode_utf8;
use crate::layout::{pad_name, spec_column_bytes};

verus! {

/// Logical type of a column. The set is closed; each variant has a
/// stable numeric code in the on-disk format.
#[derive(Clone, Copy, Debug, PartialEq, Eq, Structural)]
pub enum ColumnType {
    Int,
    Varchar,
}

impl ColumnType {
    /// The numeric code under which this type is stored on disk:
    /// 1 for `Int`, 2 for `Varchar`.
    pub open spec fn spec_code(self) -> u32 {
        match self {
            ColumnType::Int => 1,
            ColumnType::Varchar => 2,
        }
    }

    /// The numeric code of this type.
    pub fn code(&self) -> (c: u32)
        ensures
            c == self.spec_code(),
    {
        match self {
            ColumnType::Int => 1,
            ColumnType::Varchar => 2,
        }
    }

    /// Decodes a stored type code. Codes other than 1 and 2 have no
    /// representation: decoding them fails, so unknown codes cannot
    /// survive a read.
    pub fn from_code(code: u32) -> (r: Option<ColumnType>)
        ensures
            r matches Some(t) ==> t.spec_code() == code,
            r is Some <==> code == 1 || code == 2,
    {
        if code == 1 {
            Some(ColumnType::Int)
        } else if code == 2 {
            Some(ColumnType::Varchar)
        } else {
            None
        }
    }

    /// The 4-byte little-endian encoding of this type's code.
    pub fn bytes(&self) -> (r: Vec<u8>)
        ensures
            r@ == spec_u32_to_le_bytes(self.spec_code()),
    {
        u32_to_le_bytes(self.code())
    }
}

/// Mathematical model of a column definition: the 64-byte name slot as
/// it appears on disk, the logical type, and the byte length of the
/// column's fixed storage slot.
#[verifier::ext_equal]
pub struct ColumnModel {
    pub name: Seq<u8>,
    pub column_type: ColumnType,
    pub length: u64,
}

impl ColumnModel {
    /// A well-formed column holds exactly the 64-byte name slot.
    pub open spec fn wf(self) -> bool {
        self.name.len() == 64
    }
}

/// A column definition: name, logical type, and fixed byte length of
/// the column's storage slot. The name is kept as the full 64-byte
/// zero-padded slot written to disk.
pub struct ColumnDefinition {
    pub name: Vec<u8>,
    pub column_type: ColumnType,
    pub length: u64,
}

impl View for ColumnDefinition {
    type V = ColumnModel;

    open spec fn view(&self) -> ColumnModel {
        ColumnModel { name: self.name@, column_type: self.column_type, length: self.length }
    }
}

impl ColumnDefinition {
    /// Builds a definition, padding the name with zero bytes to the
    /// fixed 64-byte slot. Names longer than the slot do not fit and
    /// are ruled out.
    pub fn new(name: String, column_type: ColumnType, length: u64) -> (r: Self)
        requires
            encode_utf8(name@).len() <= 64,
        ensures
            r@ == (ColumnModel {
                name: pad_name(encode_utf8(name@)),
                column_type,
                length,
            }),
            r@.wf(),
    {
        let buf = crate::layout::pad_name_bytes(name.as_str());
        ColumnDefinition { name: buf, column_type, length }
    }

    /// The fixed encoded size of a column definition: 64 name bytes,
    /// 4 type-code bytes, 8 length bytes.
    pub fn size() -> (r: u64)
        ensures
            r == 76,
    {
        76
    }

    /// Serializes this definition to its 76-byte on-disk encoding.
    pub fn bytes(&self) -> (r: Vec<u8>)
        requires
            self@.wf(),
        ensures
            r@ == spec_column_bytes(self@),
            r@.len() == 76,
    {
        let mut r = self.name.clone();
        proof {
            assert(r@ =~= self.name@);
        }
        let mut tb = self.column_type.bytes();
        r.append(&mut tb);
        let mut lb = u64_to_le_bytes(self.length);
        r.append(&mut lb);
        proof {
            lemma_auto_spec_u32_to_from_le_bytes();
            lemma_auto_spec_u64_to_from_le_bytes();
            assert(r@ =~= spec_column_bytes(self@));
        }
        r
    }
}

} // verus!
