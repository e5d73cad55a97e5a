//! The on-disk byte layout of a table file, as mathematical functions.
//!
//! A table file starts with a header laid out at fixed offsets: the
//! table name in a 64-byte zero-padded slot, the column count as a
//! 4-byte little-endian integer at offset 64, one 76-byte column
//! definition per column starting at offset 68, and the row count as an
//! 8-byte little-endian integer immediately after the last column
//! definition. Row-storage pages follow the header.
//!
//! [`spec_table_header_bytes`] gives the serialization of a table's
//! header; [`spec_parse_table`] gives the result of reading one back,
//! including the exact failure (truncated input, or a column type code
//! that is neither 1 nor 2). The lemmas at the end tie the two
//! together: a written header parses back to the same table, and a
//! parsed header pins down the bytes it was read from.

use vstd::prelude::*;
use vstd::bytes::*;
use vstd::string::StrSliceExecFns;
use vstd::utf8::encode_utf8;
use crate::column::{ColumnModel, ColumnType};

verus! {

/// A sequence of `n` zero bytes.
pub open spec fn zeros(n: int) -> Seq<u8> {
    Seq::new(n as nat, |i: int| 0u8)
}

/// A byte string zero-padded to the fixed 64-byte name slot.
pub open spec fn pad_name(s: Seq<u8>) -> Seq<u8>
    recommends
        s.len() <= 64,
{
    s + zeros(64 - s.len())
}

/// Zero-pads a name's UTF-8 bytes to the fixed 64-byte name slot.
/// Names longer than the slot do not fit and are ruled out.
pub fn pad_name_bytes(name: &str) -> (r: Vec<u8>)
    requires
        encode_utf8(name@).len() <= 64,
    ensures
        r@ == pad_name(encode_utf8(name@)),
        r@.len() == 64,
{
    let mut buf = name.as_bytes_vec();
    while buf.len() < 64
        invariant
            encode_utf8(name@).len() <= buf@.len() <= 64,
            buf@ == encode_utf8(name@) + zeros(buf@.len() - encode_utf8(name@).len()),
        decreases 64 - buf@.len(),
    {
        buf.push(0);
        proof {
            let n = encode_utf8(name@);
            assert(buf@ =~= n + zeros(buf@.len() - n.len()));
        }
    }
    proof {
        assert(buf@ =~= pad_name(encode_utf8(name@)));
    }
    buf
}

/// Mathematical model of a table: the 64-byte name slot as stored on
/// disk, the column count, the column definitions in row layout order,
/// and the row counter.
#[verifier::ext_equal]
pub struct TableModel {
    pub name: Seq<u8>,
    pub column_count: u32,
    pub columns: Seq<ColumnModel>,
    pub row_count: u64,
}

impl TableModel {
    /// A well-formed table holds exactly the 64-byte name slot, a
    /// column count equal to the number of columns, and well-formed
    /// columns.
    pub open spec fn wf(self) -> bool {
        &&& self.name.len() == 64
        &&& self.column_count == self.columns.len()
        &&& forall|i: int| 0 <= i < self.columns.len() ==> (#[trigger] self.columns[i]).wf()
    }

    /// The byte offset at which row-storage pages begin: the header
    /// occupies the name slot (64), the column count (4), the column
    /// definitions (76 each) and the row count (8).
    pub open spec fn spec_header_size(self) -> int {
        68 + 76 * (self.columns.len() as int) + 8
    }

    /// The same table with its row counter replaced.
    pub open spec fn with_row_count(self, row_count: u64) -> TableModel {
        TableModel { row_count, ..self }
    }
}

/// The 76-byte encoding of one column definition:
/// `[name:64][type code:4][length:8]`, integers little-endian.
pub open spec fn spec_column_bytes(c: ColumnModel) -> Seq<u8> {
    c.name + spec_u32_to_le_bytes(c.column_type.spec_code()) + spec_u64_to_le_bytes(c.length)
}

/// The concatenation of the encodings of a sequence of column
/// definitions, in layout order.
pub open spec fn spec_columns_bytes(cs: Seq<ColumnModel>) -> Seq<u8>
    decreases cs.len(),
{
    if cs.len() == 0 {
        Seq::empty()
    } else {
        spec_column_bytes(cs[0]) + spec_columns_bytes(cs.drop_first())
    }
}

/// The full header serialization of a table.
pub open spec fn spec_table_header_bytes(t: TableModel) -> Seq<u8> {
    t.name + spec_u32_to_le_bytes(t.column_count) + spec_columns_bytes(t.columns)
        + spec_u64_to_le_bytes(t.row_count)
}

/// The two ways reading a table header can fail: the file ends before
/// a field that had to be read, or a column carries a type code that
/// is neither 1 nor 2 — the offending code rides along.
pub enum ParseFailure {
    Truncated,
    UnknownColumnType(u32),
}

/// The column type a stored code denotes.
pub open spec fn spec_type_of_code(code: u32) -> ColumnType
    recommends
        code == 1 || code == 2,
{
    if code == 1 {
        ColumnType::Int
    } else {
        ColumnType::Varchar
    }
}

/// Reading the `i`-th column definition, whose slot starts at byte
/// `68 + 76*i`: the name and type code are read first, then — only if
/// the code is known — the length. Each read fails if the bytes end
/// before it.
pub open spec fn spec_parse_column(bytes: Seq<u8>, i: int) -> Result<ColumnModel, ParseFailure> {
    let off = 68 + 76 * i;
    if bytes.len() < off + 68 {
        Err(ParseFailure::Truncated)
    } else {
        let code = spec_u32_from_le_bytes(bytes.subrange(off + 64, off + 68));
        if code != 1 && code != 2 {
            Err(ParseFailure::UnknownColumnType(code))
        } else if bytes.len() < off + 76 {
            Err(ParseFailure::Truncated)
        } else {
            Ok(ColumnModel {
                name: bytes.subrange(off, off + 64),
                column_type: spec_type_of_code(code),
                length: spec_u64_from_le_bytes(bytes.subrange(off + 68, off + 76)),
            })
        }
    }
}

/// Reading column definitions `i` to `cc - 1` in order; the first
/// failure wins.
pub open spec fn spec_parse_columns(bytes: Seq<u8>, cc: int, i: int) -> Result<
    Seq<ColumnModel>,
    ParseFailure,
>
    decreases cc - i,
{
    if i >= cc {
        Ok(Seq::empty())
    } else {
        match spec_parse_column(bytes, i) {
            Err(e) => Err(e),
            Ok(c) => match spec_parse_columns(bytes, cc, i + 1) {
                Err(e) => Err(e),
                Ok(rest) => Ok(seq![c] + rest),
            },
        }
    }
}

/// Reading a whole table header from the start of a file's bytes: the
/// name slot and column count, then each column definition, then the
/// row count that follows the last definition.
pub open spec fn spec_parse_table(bytes: Seq<u8>) -> Result<TableModel, ParseFailure> {
    if bytes.len() < 68 {
        Err(ParseFailure::Truncated)
    } else {
        let cc = spec_u32_from_le_bytes(bytes.subrange(64, 68));
        match spec_parse_columns(bytes, cc as int, 0) {
            Err(e) => Err(e),
            Ok(cols) => if bytes.len() < 68 + 76 * (cc as int) + 8 {
                Err(ParseFailure::Truncated)
            } else {
                Ok(TableModel {
                    name: bytes.subrange(0, 64),
                    column_count: cc,
                    columns: cols,
                    row_count: spec_u64_from_le_bytes(
                        bytes.subrange(68 + 76 * (cc as int), 68 + 76 * (cc as int) + 8),
                    ),
                })
            },
        }
    }
}

/// Each column encoding is 76 bytes, so `n` columns occupy `76 * n` bytes.
pub proof fn lemma_columns_bytes_len(cs: Seq<ColumnModel>)
    requires
        forall|i: int| 0 <= i < cs.len() ==> (#[trigger] cs[i]).wf(),
    ensures
        spec_columns_bytes(cs).len() == 76 * cs.len(),
    decreases cs.len(),
{
    lemma_auto_spec_u32_to_from_le_bytes();
    lemma_auto_spec_u64_to_from_le_bytes();
    if cs.len() > 0 {
        assert(cs[0].wf());
        lemma_columns_bytes_len(cs.drop_first());
    }
}

/// Appending a column to a sequence appends its encoding to the
/// concatenated encodings.
pub proof fn lemma_columns_bytes_snoc(cs: Seq<ColumnModel>, c: ColumnModel)
    ensures
        spec_columns_bytes(cs.push(c)) == spec_columns_bytes(cs) + spec_column_bytes(c),
    decreases cs.len(),
{
    if cs.len() == 0 {
        assert(cs.push(c)[0] == c);
        assert(cs.push(c).drop_first() =~= Seq::<ColumnModel>::empty());
        assert(spec_columns_bytes(Seq::<ColumnModel>::empty()) == Seq::<u8>::empty());
        assert(spec_columns_bytes(cs.push(c)) == spec_column_bytes(c) + Seq::<u8>::empty());
        assert(spec_column_bytes(c) + Seq::<u8>::empty() =~= spec_column_bytes(c));
        assert(spec_columns_bytes(cs) + spec_column_bytes(c) =~= spec_column_bytes(c));
    } else {
        lemma_columns_bytes_snoc(cs.drop_first(), c);
        assert(cs.push(c).drop_first() =~= cs.drop_first().push(c));
        assert(cs.push(c)[0] == cs[0]);
        assert(spec_columns_bytes(cs) + spec_column_bytes(c) =~= spec_column_bytes(cs[0]) + (
        spec_columns_bytes(cs.drop_first()) + spec_column_bytes(c)));
    }
}

/// Within the concatenated column encodings, the `i`-th column's bytes
/// sit at offset `76 * i`.
pub proof fn lemma_columns_bytes_index(cs: Seq<ColumnModel>, i: int)
    requires
        forall|k: int| 0 <= k < cs.len() ==> (#[trigger] cs[k]).wf(),
        0 <= i < cs.len(),
    ensures
        spec_columns_bytes(cs).subrange(76 * i, 76 * i + 76) == spec_column_bytes(cs[i]),
    decreases i,
{
    lemma_auto_spec_u32_to_from_le_bytes();
    lemma_auto_spec_u64_to_from_le_bytes();
    lemma_columns_bytes_len(cs);
    assert(cs[0].wf());
    if i == 0 {
        assert(spec_columns_bytes(cs).subrange(0, 76) =~= spec_column_bytes(cs[0]));
    } else {
        lemma_columns_bytes_index(cs.drop_first(), i - 1);
        assert(spec_columns_bytes(cs).subrange(76 * i, 76 * i + 76) =~= spec_columns_bytes(
            cs.drop_first(),
        ).subrange(76 * (i - 1), 76 * (i - 1) + 76));
        assert(cs.drop_first()[i - 1] == cs[i]);
    }
}

/// The header serialization of a well-formed table is exactly as long
/// as the header: `68 + 76 * columns + 8` bytes.
pub proof fn lemma_header_bytes_len(t: TableModel)
    requires
        t.wf(),
    ensures
        spec_table_header_bytes(t).len() == t.spec_header_size(),
{
    lemma_auto_spec_u32_to_from_le_bytes();
    lemma_auto_spec_u64_to_from_le_bytes();
    lemma_columns_bytes_len(t.columns);
}

/// A byte range that holds a well-formed column's encoding parses back
/// to that column.
pub proof fn lemma_parse_column_from_slice(b: Seq<u8>, c: ColumnModel, i: int)
    requires
        c.wf(),
        0 <= i,
        b.len() >= 68 + 76 * i + 76,
        b.subrange(68 + 76 * i, 68 + 76 * i + 76) == spec_column_bytes(c),
    ensures
        spec_parse_column(b, i) == Ok::<ColumnModel, ParseFailure>(c),
{
    lemma_auto_spec_u32_to_from_le_bytes();
    lemma_auto_spec_u64_to_from_le_bytes();
    let off = 68 + 76 * i;
    let cb = spec_column_bytes(c);
    assert(cb.len() == 76);
    assert(b.subrange(off + 64, off + 68) =~= cb.subrange(64, 68));
    assert(cb.subrange(64, 68) =~= spec_u32_to_le_bytes(c.column_type.spec_code()));
    let code = spec_u32_from_le_bytes(b.subrange(off + 64, off + 68));
    assert(code == c.column_type.spec_code());
    assert(code == 1 || code == 2);
    assert(spec_type_of_code(code) == c.column_type);
    assert(b.subrange(off, off + 64) =~= cb.subrange(0, 64));
    assert(cb.subrange(0, 64) =~= c.name);
    assert(b.subrange(off + 68, off + 76) =~= cb.subrange(68, 76));
    assert(cb.subrange(68, 76) =~= spec_u64_to_le_bytes(c.length));
    assert(spec_u64_from_le_bytes(b.subrange(off + 68, off + 76)) == c.length);
}

/// Byte ranges that hold the encodings of columns `i` to the end parse
/// back to exactly those columns, in order.
pub proof fn lemma_parse_columns_from_slices(b: Seq<u8>, cs: Seq<ColumnModel>, i: int)
    requires
        0 <= i <= cs.len(),
        forall|k: int| 0 <= k < cs.len() ==> (#[trigger] cs[k]).wf(),
        b.len() >= 68 + 76 * cs.len(),
        forall|j: int|
            i <= j < cs.len() ==> b.subrange(68 + 76 * j, 68 + 76 * j + 76)
                == spec_column_bytes(#[trigger] cs[j]),
    ensures
        spec_parse_columns(b, cs.len() as int, i) == Ok::<Seq<ColumnModel>, ParseFailure>(cs.skip(i)),
    decreases cs.len() - i,
{
    if i == cs.len() {
        assert(cs.skip(i) =~= Seq::empty());
    } else {
        lemma_parse_column_from_slice(b, cs[i], i);
        lemma_parse_columns_from_slices(b, cs, i + 1);
        assert(seq![cs[i]] + cs.skip(i + 1) =~= cs.skip(i));
    }
}

/// A byte string whose first `header_size` bytes are the written
/// header of a well-formed table parses back to exactly that table,
/// whatever follows the header.
pub proof fn lemma_parse_table_prefix(b: Seq<u8>, t: TableModel)
    requires
        t.wf(),
        b.len() >= t.spec_header_size(),
        b.subrange(0, t.spec_header_size()) == spec_table_header_bytes(t),
    ensures
        spec_parse_table(b) == Ok::<TableModel, ParseFailure>(t),
{
    lemma_auto_spec_u32_to_from_le_bytes();
    lemma_auto_spec_u64_to_from_le_bytes();
    lemma_header_bytes_len(t);
    lemma_columns_bytes_len(t.columns);
    let s = spec_table_header_bytes(t);
    let cc = t.columns.len() as int;
    assert(b.subrange(64, 68) =~= s.subrange(64, 68));
    assert(s.subrange(64, 68) =~= spec_u32_to_le_bytes(t.column_count));
    assert(spec_u32_from_le_bytes(b.subrange(64, 68)) == t.column_count);
    assert forall|j: int| 0 <= j < cc implies b.subrange(68 + 76 * j, 68 + 76 * j + 76)
        == spec_column_bytes(t.columns[j]) by {
        lemma_columns_bytes_index(t.columns, j);
        assert(b.subrange(68 + 76 * j, 68 + 76 * j + 76) =~= s.subrange(
            68 + 76 * j,
            68 + 76 * j + 76,
        ));
        assert(s.subrange(68 + 76 * j, 68 + 76 * j + 76) =~= spec_columns_bytes(
            t.columns,
        ).subrange(76 * j, 76 * j + 76));
    }
    lemma_parse_columns_from_slices(b, t.columns, 0);
    assert(t.columns.skip(0) =~= t.columns);
    assert(b.subrange(68 + 76 * cc, 68 + 76 * cc + 8) =~= s.subrange(
        68 + 76 * cc,
        68 + 76 * cc + 8,
    ));
    assert(s.subrange(68 + 76 * cc, 68 + 76 * cc + 8) =~= spec_u64_to_le_bytes(t.row_count));
    assert(b.subrange(0, 64) =~= s.subrange(0, 64));
    assert(s.subrange(0, 64) =~= t.name);
}

/// Round trip: the written header of any well-formed table reads back
/// as exactly that table — same name slot, column count, column
/// definitions and row count.
pub proof fn lemma_table_header_round_trip(t: TableModel)
    requires
        t.wf(),
    ensures
        spec_parse_table(spec_table_header_bytes(t)) == Ok::<TableModel, ParseFailure>(t),
{
    lemma_header_bytes_len(t);
    let b = spec_table_header_bytes(t);
    assert(b.subrange(0, t.spec_header_size()) =~= b);
    lemma_parse_table_prefix(b, t);
}

/// A successfully parsed column pins down the bytes of its 76-byte
/// slot: they are exactly the encoding of the parsed column.
pub proof fn lemma_parse_column_implies_slice(b: Seq<u8>, i: int, c: ColumnModel)
    requires
        0 <= i,
        spec_parse_column(b, i) == Ok::<ColumnModel, ParseFailure>(c),
    ensures
        c.wf(),
        b.len() >= 68 + 76 * i + 76,
        b.subrange(68 + 76 * i, 68 + 76 * i + 76) == spec_column_bytes(c),
{
    lemma_auto_spec_u32_to_from_le_bytes();
    lemma_auto_spec_u64_to_from_le_bytes();
    let off = 68 + 76 * i;
    let code = spec_u32_from_le_bytes(b.subrange(off + 64, off + 68));
    assert(c.column_type.spec_code() == code);
    assert(spec_u32_to_le_bytes(code) == b.subrange(off + 64, off + 68));
    assert(spec_u64_to_le_bytes(c.length) == b.subrange(off + 68, off + 76));
    assert(b.subrange(off, off + 76) =~= c.name + spec_u32_to_le_bytes(code)
        + spec_u64_to_le_bytes(c.length));
}

/// Successfully parsed columns pin down the byte range they were read
/// from: it is exactly the concatenation of their encodings.
pub proof fn lemma_parse_columns_implies_bytes(b: Seq<u8>, cc: int, i: int, cols: Seq<ColumnModel>)
    requires
        0 <= i <= cc,
        spec_parse_columns(b, cc, i) == Ok::<Seq<ColumnModel>, ParseFailure>(cols),
    ensures
        cols.len() == cc - i,
        forall|k: int| 0 <= k < cols.len() ==> (#[trigger] cols[k]).wf(),
        i < cc ==> b.len() >= 68 + 76 * cc,
        i < cc ==> b.subrange(68 + 76 * i, 68 + 76 * cc) == spec_columns_bytes(cols),
    decreases cc - i,
{
    if i < cc {
        let c = spec_parse_column(b, i)->Ok_0;
        let rest = spec_parse_columns(b, cc, i + 1)->Ok_0;
        lemma_parse_column_implies_slice(b, i, c);
        lemma_parse_columns_implies_bytes(b, cc, i + 1, rest);
        assert(cols == seq![c] + rest);
        assert(cols[0] == c);
        assert(cols.drop_first() =~= rest);
        lemma_columns_bytes_len(rest);
        if i + 1 == cc {
            assert(b.subrange(68 + 76 * (i + 1), 68 + 76 * cc) =~= spec_columns_bytes(rest));
        }
        assert(b.subrange(68 + 76 * i, 68 + 76 * cc) =~= b.subrange(
            68 + 76 * i,
            68 + 76 * i + 76,
        ) + b.subrange(68 + 76 * (i + 1), 68 + 76 * cc));
        assert(spec_columns_bytes(cols) == spec_column_bytes(c) + spec_columns_bytes(rest));
    }
}

/// A successfully parsed table header pins down the file's prefix: the
/// first `header_size` bytes are exactly the written header of the
/// parsed table, which is itself well-formed.
pub proof fn lemma_parse_table_implies_prefix(b: Seq<u8>, t: TableModel)
    requires
        spec_parse_table(b) == Ok::<TableModel, ParseFailure>(t),
    ensures
        t.wf(),
        b.len() >= t.spec_header_size(),
        b.subrange(0, t.spec_header_size()) == spec_table_header_bytes(t),
{
    lemma_auto_spec_u32_to_from_le_bytes();
    lemma_auto_spec_u64_to_from_le_bytes();
    let cc = spec_u32_from_le_bytes(b.subrange(64, 68)) as int;
    lemma_parse_columns_implies_bytes(b, cc, 0, t.columns);
    lemma_columns_bytes_len(t.columns);
    assert(spec_u32_to_le_bytes(t.column_count) == b.subrange(64, 68));
    assert(spec_u64_to_le_bytes(t.row_count) == b.subrange(68 + 76 * cc, 68 + 76 * cc + 8));
    assert(b.subrange(0, t.spec_header_size()) =~= t.name + spec_u32_to_le_bytes(t.column_count)
        + spec_columns_bytes(t.columns) + spec_u64_to_le_bytes(t.row_count));
}

} // verus!
