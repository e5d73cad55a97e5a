//! Tables: schema, page geometry, the row codec, and the durability
//! writes of the append path.
//!
//! A `Table` is the in-memory description of one table file: name,
//! column definitions and row counter. Reading is pure — the header
//! parser and the page decoder work on bytes handed in by the I/O
//! shell. Writing is modelled as data: `header_write`, `add_page` and
//! `add_row` return the positioned writes (`DiskWrite`) to apply to
//! the file, so the offset arithmetic and encodings they carry are
//! verified here while the shell merely performs them.

use vstd::prelude::*;
use vstd::bytes::*;
use vstd::utf8::encode_utf8;
use crate::column::{ColumnDefinition, ColumnModel};
use crate::disk::DiskWrite;
use vstd::string::StringExecFns;
use crate::errors::{DurabilityError, decimal_string, spec_decimal_digits, string_from_utf8};
use crate::layout::{
    pad_name, pad_name_bytes, spec_columns_bytes, spec_table_header_bytes, spec_parse_table,
    spec_parse_column, spec_parse_columns, spec_type_of_code, lemma_columns_bytes_snoc,
    ParseFailure, TableModel, zeros,
};

verus! {

/// One record: a byte buffer per column, in column order.
#[derive(Debug)]
pub struct Row {
    pub data: Vec<Vec<u8>>,
}

impl View for Row {
    type V = Seq<Seq<u8>>;

    open spec fn view(&self) -> Seq<Seq<u8>> {
        Seq::new(self.data@.len(), |i: int| self.data@[i]@)
    }
}

/// A table: the 64-byte name slot, the column count, the ordered
/// column definitions (their order is the row layout order), and the
/// row counter, which on disk is the sole source of truth for how
/// many rows exist.
pub struct Table {
    pub name: Vec<u8>,
    pub column_count: u32,
    pub columns: Vec<ColumnDefinition>,
    pub row_count: u64,
}

impl View for Table {
    type V = TableModel;

    open spec fn view(&self) -> TableModel {
        TableModel {
            name: self.name@,
            column_count: self.column_count,
            columns: Seq::new(self.columns@.len(), |i: int| self.columns@[i]@),
            row_count: self.row_count,
        }
    }
}

/// Sum of the column lengths from position `i` on.
pub open spec fn spec_row_size_from(cs: Seq<ColumnModel>, i: int) -> int
    decreases cs.len() - i,
{
    if i < 0 || i >= cs.len() {
        0
    } else {
        cs[i].length + spec_row_size_from(cs, i + 1)
    }
}

/// The fixed byte size of one encoded row: the sum of all column
/// lengths.
pub open spec fn spec_row_size(cs: Seq<ColumnModel>) -> int {
    spec_row_size_from(cs, 0)
}

/// Every partial sum of column lengths is non-negative.
pub proof fn lemma_row_size_from_nonneg(cs: Seq<ColumnModel>, i: int)
    ensures
        spec_row_size_from(cs, i) >= 0,
    decreases cs.len() - i,
{
    if 0 <= i < cs.len() {
        lemma_row_size_from_nonneg(cs, i + 1);
    }
}

/// The page size of a table whose rows are `rs` bytes wide: the fixed
/// 128-byte target, clamped down to a whole number of rows; a row
/// wider than the target gets a page of exactly its own size, so no
/// row ever spans a page boundary.
pub open spec fn spec_page_size_for(rs: int) -> int
    recommends
        rs > 0,
{
    if rs < 128 {
        128int - (128int % rs)
    } else {
        rs
    }
}

/// The page size of a table.
pub open spec fn spec_page_size(m: TableModel) -> int {
    spec_page_size_for(spec_row_size(m.columns))
}

/// The number of pages the table accounts for: none while empty,
/// otherwise the pages covered by the stored rows plus the page
/// currently being filled.
pub open spec fn spec_page_count(m: TableModel) -> int {
    if m.row_count == 0 {
        0
    } else {
        spec_row_size(m.columns) * m.row_count / spec_page_size(m) + 1
    }
}

/// True when the stored rows exactly fill whole pages, i.e. the next
/// append needs a freshly allocated page.
pub open spec fn spec_last_page_at_limit(m: TableModel) -> bool {
    (spec_row_size(m.columns) * m.row_count) % spec_page_size(m) == 0
}

/// The file offset of the next row to be appended.
pub open spec fn spec_row_offset(m: TableModel) -> int {
    m.spec_header_size() + spec_row_size(m.columns) * m.row_count
}

/// The file offset at which `add_page` places a fresh page.
pub open spec fn spec_add_page_offset(m: TableModel) -> int {
    if m.row_count == 0 {
        m.spec_header_size()
    } else {
        m.spec_header_size() + spec_page_count(m) * spec_page_size(m)
    }
}

/// The file offset of the row-count field: the last 8 header bytes.
pub open spec fn spec_row_count_offset(m: TableModel) -> int {
    m.spec_header_size() - 8
}

/// Machine-size side conditions under which the geometry of the
/// append path fits 64-bit arithmetic: the row size, the total row
/// bytes, and the offsets just past the row region and the next fresh
/// page all fit in a `u64`, and the row size also fits a `usize` so a
/// row buffer can be built.
pub open spec fn spec_geometry_fits(m: TableModel) -> bool {
    &&& 0 < spec_row_size(m.columns) <= usize::MAX
    &&& spec_row_size(m.columns) * (m.row_count + 1) <= u64::MAX
    &&& m.spec_header_size() + spec_row_size(m.columns) * (m.row_count + 1) <= u64::MAX
    &&& m.spec_header_size() + (spec_page_count(m) + 1) * spec_page_size(m) <= u64::MAX
}

/// The failure text for a column type code that is neither 1 nor 2,
/// naming the offending code.
pub open spec fn spec_unknown_code_message(code: u32) -> Seq<char> {
    "Invalid column type: "@ + spec_decimal_digits(code as int)
}

/// The failure text for a row with the wrong number of values,
/// naming the expected and supplied counts.
pub open spec fn spec_arity_message(expected: int, got: int) -> Seq<char> {
    "Invalid row data expected "@ + spec_decimal_digits(expected) + " columns got "@
        + spec_decimal_digits(got) + " "@
}

/// Builds the cardinality failure text.
fn arity_message(expected: u32, got: usize) -> (s: String)
    ensures
        s@ == spec_arity_message(expected as int, got as int),
{
    let mut s = "Invalid row data expected ".to_owned();
    let d1 = decimal_string(expected as u64);
    s.append(d1.as_str());
    s.append(" columns got ");
    let d2 = decimal_string(got as u64);
    s.append(d2.as_str());
    s.append(" ");
    proof {
        assert(s@ =~= spec_arity_message(expected as int, got as int));
    }
    s
}

impl Table {
    /// Builds an in-memory table with zero rows over the given
    /// columns; nothing touches disk. The name is zero-padded into
    /// its 64-byte slot, so it must fit that slot, and the column
    /// count must fit its 32-bit field.
    pub fn new(name: String, columns: Vec<ColumnDefinition>) -> (r: Self)
        requires
            encode_utf8(name@).len() <= 64,
            columns@.len() <= u32::MAX,
        ensures
            r@.name == pad_name(encode_utf8(name@)),
            r@.column_count == columns@.len(),
            r@.columns == Seq::new(columns@.len(), |i: int| columns@[i]@),
            r@.row_count == 0,
            (forall|i: int| 0 <= i < columns@.len() ==> (#[trigger] columns@[i])@.wf())
                ==> r@.wf(),
    {
        let buf = pad_name_bytes(name.as_str());
        let column_count = columns.len() as u32;
        Table { name: buf, column_count, columns, row_count: 0 }
    }

    /// The fixed byte size of one encoded row: the sum of the column
    /// lengths, which is invariant for the table's lifetime.
    pub fn row_size(&self) -> (r: u64)
        requires
            spec_row_size(self@.columns) <= u64::MAX,
        ensures
            r == spec_row_size(self@.columns),
    {
        let ghost cs = self@.columns;
        let mut acc: u64 = 0;
        let mut i: usize = 0;
        while i < self.columns.len()
            invariant
                0 <= i <= self.columns@.len(),
                cs == self@.columns,
                cs.len() == self.columns@.len(),
                spec_row_size(cs) <= u64::MAX,
                acc + spec_row_size_from(cs, i as int) == spec_row_size(cs),
            decreases self.columns@.len() - i,
        {
            proof {
                lemma_row_size_from_nonneg(cs, i + 1);
                assert(cs[i as int].length == self.columns@[i as int].length);
            }
            acc = acc + self.columns[i].length;
            i = i + 1;
        }
        acc
    }

    /// The byte offset at which row-storage pages begin; fixed for
    /// the table's lifetime because the column count cannot change.
    pub fn header_size(&self) -> (r: u64)
        requires
            self@.wf(),
        ensures
            r == self@.spec_header_size(),
    {
        68 + (self.column_count as u64) * 76 + 8
    }

    /// The page size: the larger of the fixed 128-byte target and the
    /// row size, with the target clamped down to a whole number of
    /// rows. Every page holds `page_size / row_size` complete rows.
    pub fn page_size(&self) -> (r: u64)
        requires
            0 < spec_row_size(self@.columns) <= u64::MAX,
        ensures
            r == spec_page_size(self@),
            r >= spec_row_size(self@.columns),
            r as int % spec_row_size(self@.columns) == 0,
    {
        let row_size = self.row_size();
        let r = if row_size < 128 {
            128 - (128 % row_size)
        } else {
            row_size
        };
        proof {
            lemma_page_size_properties(spec_row_size(self@.columns));
        }
        r
    }

    /// The number of pages needed for the rows stored so far: zero
    /// for an empty table, otherwise the pages covered plus the page
    /// currently being filled.
    pub fn page_count(&self) -> (r: u64)
        requires
            0 < spec_row_size(self@.columns) <= u64::MAX,
            spec_row_size(self@.columns) * self@.row_count <= u64::MAX,
        ensures
            r == spec_page_count(self@),
    {
        let row_size = self.row_size();
        let page_size = self.page_size();
        let row_count = self.row_count;
        if row_count == 0 {
            return 0;
        }
        proof {
            lemma_page_size_properties(spec_row_size(self@.columns));
            lemma_page_count_fits(self@);
        }
        (row_size * row_count) / page_size + 1
    }

    /// True exactly when the rows stored so far fill whole pages, so
    /// the next append must first allocate a page.
    pub fn last_page_at_limit(&self) -> (r: bool)
        requires
            0 < spec_row_size(self@.columns) <= u64::MAX,
            spec_row_size(self@.columns) * self@.row_count <= u64::MAX,
        ensures
            r == spec_last_page_at_limit(self@),
    {
        let row_size = self.row_size();
        let page_size = self.page_size();
        (row_size * self.row_count) % page_size == 0
    }
}

impl Table {
    /// The whole header as one positioned write at offset 0: name
    /// slot, column count, every column definition in order, and the
    /// row count. Applying it to the table file makes the header
    /// durable.
    pub fn header_write(&self) -> (w: DiskWrite)
        requires
            self@.wf(),
        ensures
            w.offset == 0,
            w.bytes@ == spec_table_header_bytes(self@),
            w.bytes@.len() == self@.spec_header_size(),
    {
        let mut bytes = self.name.clone();
        proof {
            assert(bytes@ =~= self@.name);
        }
        let mut cc = u32_to_le_bytes(self.column_count);
        bytes.append(&mut cc);
        let ghost pre = self@.name + spec_u32_to_le_bytes(self@.column_count);
        proof {
            assert(self@.columns.take(0) =~= Seq::<ColumnModel>::empty());
            assert(bytes@ =~= pre + spec_columns_bytes(self@.columns.take(0)));
        }
        let mut i: usize = 0;
        while i < self.columns.len()
            invariant
                0 <= i <= self.columns@.len(),
                self@.wf(),
                pre == self@.name + spec_u32_to_le_bytes(self@.column_count),
                self@.columns.len() == self.columns@.len(),
                bytes@ == pre + spec_columns_bytes(self@.columns.take(i as int)),
            decreases self.columns@.len() - i,
        {
            proof {
                assert(self.columns@[i as int]@ == self@.columns[i as int]);
                assert(self@.columns[i as int].wf());
            }
            let mut cb = self.columns[i].bytes();
            bytes.append(&mut cb);
            proof {
                lemma_columns_bytes_snoc(self@.columns.take(i as int), self@.columns[i as int]);
                assert(self@.columns.take(i as int + 1) =~= self@.columns.take(i as int).push(
                    self@.columns[i as int],
                ));
                assert(bytes@ =~= pre + spec_columns_bytes(self@.columns.take(i as int + 1)));
            }
            i = i + 1;
        }
        proof {
            assert(self@.columns.take(self.columns@.len() as int) =~= self@.columns);
        }
        let mut rc = u64_to_le_bytes(self.row_count);
        bytes.append(&mut rc);
        proof {
            assert(bytes@ =~= spec_table_header_bytes(self@));
            crate::layout::lemma_header_bytes_len(self@);
        }
        DiskWrite { offset: 0, bytes }
    }

    /// The positioned write that rewrites only the row-count field,
    /// at its fixed offset right after the column definitions. It is
    /// applied after every successful row append, so the on-disk
    /// counter is immediately visible to any later reader.
    pub fn write_row_count_to_disk(&self) -> (w: DiskWrite)
        requires
            self@.wf(),
        ensures
            w.offset == spec_row_count_offset(self@),
            w.bytes@ == spec_u64_to_le_bytes(self@.row_count),
    {
        let offset = 68 + (self.column_count as u64) * 76;
        let bytes = u64_to_le_bytes(self.row_count);
        DiskWrite { offset, bytes }
    }

    /// Reconstructs a table from the bytes of its file: the inverse
    /// of applying `header_write`. Fails with an `IoError` when the
    /// bytes end before a header field, and with a `DbError` — whose
    /// text names the offending code — when a column's type code is
    /// neither 1 nor 2; the first failing field decides.
    pub fn read_from_disk(bytes: &[u8]) -> (r: Result<Table, DurabilityError>)
        ensures
            r matches Ok(t) ==> spec_parse_table(bytes@) == Ok::<TableModel, ParseFailure>(t@)
                && t@.wf(),
            r matches Err(DurabilityError::IoError(_)) ==> spec_parse_table(bytes@) == Err::<
                TableModel,
                ParseFailure,
            >(ParseFailure::Truncated),
            r matches Err(DurabilityError::DbError(m)) ==> spec_parse_table(bytes@) matches Err(
                ParseFailure::UnknownColumnType(code),
            ) && m@ == spec_unknown_code_message(code),
    {
        let ghost b = bytes@;
        if bytes.len() < 68 {
            return Err(
                DurabilityError::IoError("table file ends inside its header".to_owned()),
            );
        }
        let name = vstd::slice::slice_to_vec(&bytes[0..64]);
        let column_count = u32_from_le_bytes(&bytes[64..68]);
        let ghost cc = column_count as int;
        let mut columns: Vec<ColumnDefinition> = Vec::new();
        let mut i: usize = 0;
        while i < column_count as usize
            invariant
                b == bytes@,
                b.len() >= 68,
                cc == column_count as int,
                0 <= i <= cc,
                columns@.len() == i,
                cc == spec_u32_from_le_bytes(b.subrange(64, 68)) as int,
                forall|j: int|
                    0 <= j < i ==> spec_parse_column(b, j) == Ok::<ColumnModel, ParseFailure>(
                        (#[trigger] columns@[j])@,
                    ),
            decreases cc - i,
        {
            let off64: u64 = 68 + 76 * (i as u64);
            proof {
                assert(off64 == 68 + 76 * (i as int));
            }
            if (bytes.len() as u64) < off64 + 68 {
                proof {
                    lemma_parse_columns_stops(b, cc, i as int, columns@);
                }
                return Err(
                    DurabilityError::IoError("table file ends inside a column definition".to_owned()),
                );
            }
            let off = off64 as usize;
            let cname = vstd::slice::slice_to_vec(&bytes[off..off + 64]);
            let code = u32_from_le_bytes(&bytes[off + 64..off + 68]);
            let column_type = match crate::column::ColumnType::from_code(code) {
                Some(t) => t,
                None => {
                    proof {
                        lemma_parse_columns_stops(b, cc, i as int, columns@);
                    }
                    let mut msg = "Invalid column type: ".to_owned();
                    let digits = decimal_string(code as u64);
                    msg.append(digits.as_str());
                    proof {
                        assert(msg@ == spec_unknown_code_message(code));
                    }
                    return Err(DurabilityError::DbError(msg));
                },
            };
            if (bytes.len() as u64) < off64 + 76 {
                proof {
                    lemma_parse_columns_stops(b, cc, i as int, columns@);
                }
                return Err(
                    DurabilityError::IoError("table file ends inside a column definition".to_owned()),
                );
            }
            let length = u64_from_le_bytes(&bytes[off + 68..off + 76]);
            let cd = ColumnDefinition { name: cname, column_type, length };
            proof {
                assert(spec_type_of_code(code) == column_type);
                assert(spec_parse_column(b, i as int) == Ok::<ColumnModel, ParseFailure>(cd@));
            }
            columns.push(cd);
            i = i + 1;
        }
        let tail64: u64 = 68 + 76 * (column_count as u64);
        if (bytes.len() as u64) < tail64 + 8 {
            proof {
                lemma_parse_columns_resolves(b, cc, columns@);
            }
            return Err(
                DurabilityError::IoError("table file ends before its row count".to_owned()),
            );
        }
        let tail = tail64 as usize;
        let row_count = u64_from_le_bytes(&bytes[tail..tail + 8]);
        let t = Table { name, column_count, columns, row_count };
        proof {
            lemma_parse_columns_resolves(b, cc, columns@);
            assert(spec_parse_table(b) == Ok::<TableModel, ParseFailure>(t@)) by {
                let parsed = spec_parse_table(b)->Ok_0;
                assert(parsed =~= t@);
            }
            crate::layout::lemma_parse_table_implies_prefix(b, t@);
        }
        Ok(t)
    }
}

/// If every column before `i` parses to the columns read so far and
/// column `i` fails to parse, the whole column read fails the same
/// way.
proof fn lemma_parse_columns_stops(b: Seq<u8>, cc: int, i: int, cols: Seq<ColumnDefinition>)
    requires
        0 <= i < cc,
        cols.len() == i,
        forall|j: int|
            0 <= j < i ==> spec_parse_column(b, j) == Ok::<ColumnModel, ParseFailure>(
                (#[trigger] cols[j])@,
            ),
        spec_parse_column(b, i) is Err,
    ensures
        spec_parse_columns(b, cc, 0) == Err::<Seq<ColumnModel>, ParseFailure>(
            spec_parse_column(b, i)->Err_0,
        ),
{
    lemma_parse_columns_stops_from(b, cc, 0, i, cols);
}

proof fn lemma_parse_columns_stops_from(b: Seq<u8>, cc: int, k: int, i: int, cols: Seq<
    ColumnDefinition,
>)
    requires
        0 <= k <= i < cc,
        cols.len() == i,
        forall|j: int|
            0 <= j < i ==> spec_parse_column(b, j) == Ok::<ColumnModel, ParseFailure>(
                (#[trigger] cols[j])@,
            ),
        spec_parse_column(b, i) is Err,
    ensures
        spec_parse_columns(b, cc, k) == Err::<Seq<ColumnModel>, ParseFailure>(
            spec_parse_column(b, i)->Err_0,
        ),
    decreases i - k,
{
    if k == i {
    } else {
        lemma_parse_columns_stops_from(b, cc, k + 1, i, cols);
        assert(spec_parse_column(b, k) == Ok::<ColumnModel, ParseFailure>(cols[k]@));
    }
}

/// If every column parses to the columns read, the whole column read
/// succeeds with exactly those columns.
proof fn lemma_parse_columns_resolves(b: Seq<u8>, cc: int, cols: Seq<ColumnDefinition>)
    requires
        0 <= cc,
        cols.len() == cc,
        forall|j: int|
            0 <= j < cc ==> spec_parse_column(b, j) == Ok::<ColumnModel, ParseFailure>(
                (#[trigger] cols[j])@,
            ),
    ensures
        spec_parse_columns(b, cc, 0) == Ok::<Seq<ColumnModel>, ParseFailure>(
            Seq::new(cols.len() as nat, |j: int| cols[j]@),
        ),
{
    lemma_parse_columns_resolves_from(b, cc, 0, cols);
    assert(Seq::new(cols.len() as nat, |j: int| cols[j]@) =~= Seq::new(
        (cc - 0) as nat,
        |j: int| cols[0 + j]@,
    ));
}

proof fn lemma_parse_columns_resolves_from(b: Seq<u8>, cc: int, k: int, cols: Seq<
    ColumnDefinition,
>)
    requires
        0 <= k <= cc,
        cols.len() == cc,
        forall|j: int|
            0 <= j < cc ==> spec_parse_column(b, j) == Ok::<ColumnModel, ParseFailure>(
                (#[trigger] cols[j])@,
            ),
    ensures
        spec_parse_columns(b, cc, k) == Ok::<Seq<ColumnModel>, ParseFailure>(
            Seq::new((cc - k) as nat, |j: int| cols[k + j]@),
        ),
    decreases cc - k,
{
    if k == cc {
        assert(Seq::new(0nat, |j: int| cols[k + j]@) =~= Seq::<ColumnModel>::empty());
    } else {
        lemma_parse_columns_resolves_from(b, cc, k + 1, cols);
        assert(seq![cols[k]@] + Seq::new((cc - k - 1) as nat, |j: int| cols[k + 1 + j]@) =~= Seq::new(
            (cc - k) as nat,
            |j: int| cols[k + j]@,
        ));
    }
}

/// The zero-padded encoding of one row value in its column's fixed
/// slot.
pub open spec fn spec_padded_value(v: Seq<u8>, len: int) -> Seq<u8>
    recommends
        v.len() <= len,
{
    v + zeros(len - v.len())
}

/// The encoded bytes of the row values from column `i` on: each value
/// zero-padded to its column's length, concatenated in column order.
pub open spec fn spec_row_bytes_from(cs: Seq<ColumnModel>, row: Seq<Seq<u8>>, i: int) -> Seq<u8>
    decreases cs.len() - i,
{
    if i < 0 || i >= cs.len() {
        Seq::empty()
    } else {
        spec_padded_value(row[i], cs[i].length as int) + spec_row_bytes_from(cs, row, i + 1)
    }
}

/// The full fixed-width encoding of a row.
pub open spec fn spec_row_bytes(cs: Seq<ColumnModel>, row: Seq<Seq<u8>>) -> Seq<u8> {
    spec_row_bytes_from(cs, row, 0)
}

/// A row the table accepts: one value per column, none longer than
/// its column's declared length.
pub open spec fn spec_row_valid(cs: Seq<ColumnModel>, row: Seq<Seq<u8>>) -> bool {
    &&& row.len() == cs.len()
    &&& forall|i: int| 0 <= i < cs.len() ==> (#[trigger] row[i]).len() <= cs[i].length
}

/// A valid row encodes to exactly `row_size` bytes.
pub proof fn lemma_row_bytes_len(cs: Seq<ColumnModel>, row: Seq<Seq<u8>>, i: int)
    requires
        spec_row_valid(cs, row),
        0 <= i,
    ensures
        spec_row_bytes_from(cs, row, i).len() == spec_row_size_from(cs, i),
    decreases cs.len() - i,
{
    if i < cs.len() {
        lemma_row_bytes_len(cs, row, i + 1);
    }
}

/// No column is longer than the whole row.
pub proof fn lemma_column_length_le_row_size(cs: Seq<ColumnModel>, k: int, i: int)
    requires
        0 <= k <= i < cs.len(),
    ensures
        cs[i].length <= spec_row_size_from(cs, k),
    decreases i - k,
{
    lemma_row_size_from_nonneg(cs, k + 1);
    if k < i {
        lemma_column_length_le_row_size(cs, k + 1, i);
    }
}

/// A zero-filled buffer of the given size.
fn zero_bytes(n: usize) -> (r: Vec<u8>)
    ensures
        r@ == zeros(n as int),
{
    let v = vec![0u8; n];
    proof {
        assert forall|i: int| 0 <= i < n implies v@[i] == 0u8 by {
            assert(cloned(0u8, v@[i]));
        }
        assert(v@ =~= zeros(n as int));
    }
    v
}

/// The positioned writes that make one row append durable, to be
/// applied in order: first the fresh zero-filled page, if the append
/// crossed a page boundary; then the encoded row at its slot; then
/// the updated row count. The row and the counter are two separate
/// writes — a crash between them leaves the row's bytes present but
/// uncounted, and so invisible to every later reader.
pub struct RowAppend {
    pub new_page: Option<DiskWrite>,
    pub row: DiskWrite,
    pub row_count: DiskWrite,
}

impl Table {
    /// The positioned write that appends one zero-filled page of
    /// `page_size` bytes at the next page offset. Pages are
    /// append-only: there is no reclamation or compaction.
    pub fn add_page(&self) -> (w: DiskWrite)
        requires
            self@.wf(),
            spec_geometry_fits(self@),
        ensures
            w.offset == spec_add_page_offset(self@),
            w.bytes@ == zeros(spec_page_size(self@)),
    {
        let ghost m = self@;
        let ghost rs = spec_row_size(m.columns);
        proof {
            lemma_page_size_properties(rs);
            assert(rs * m.row_count <= rs * (m.row_count + 1)) by (nonlinear_arith)
                requires
                    rs > 0,
            {}
            assert(spec_page_count(m) * spec_page_size(m) <= (spec_page_count(m) + 1)
                * spec_page_size(m)) by (nonlinear_arith)
                requires
                    spec_page_size(m) > 0,
                    spec_page_count(m) >= 0,
            {}
            if m.row_count != 0 {
                vstd::arithmetic::div_mod::lemma_div_pos_is_pos(rs * m.row_count, spec_page_size(m));
                vstd::arithmetic::mul::lemma_mul_nonnegative(rs, m.row_count as int);
            }
        }
        let page_size = self.page_size();
        let page_offset: u64 = if self.row_count == 0 {
            self.header_size()
        } else {
            self.header_size() + self.page_count() * page_size
        };
        let bytes = zero_bytes(page_size as usize);
        DiskWrite { offset: page_offset, bytes }
    }

    /// Validates and appends one row. On success the in-memory row
    /// counter is incremented and the positioned writes that make the
    /// append durable are returned; on failure — a row with the wrong
    /// number of values, or a value longer than its column — the
    /// table is left untouched and nothing is written. The encoded
    /// row is proved to be exactly `row_size` bytes, so no separate
    /// length check is needed.
    pub fn add_row(&mut self, row: Row) -> (r: Result<RowAppend, String>)
        requires
            old(self)@.wf(),
            spec_geometry_fits(old(self)@),
        ensures
            final(self)@.wf(),
            r matches Ok(_) <==> spec_row_valid(old(self)@.columns, row@),
            r is Err ==> *final(self) == *old(self),
            r matches Err(e) ==> e@ == (if row@.len() != old(self)@.columns.len() {
                spec_arity_message(old(self)@.columns.len() as int, row@.len() as int)
            } else {
                "Invalid column data"@
            }),
            r matches Ok(p) ==> {
                &&& final(self)@ == old(self)@.with_row_count((old(self)@.row_count + 1) as u64)
                &&& (p.new_page is Some <==> spec_last_page_at_limit(old(self)@))
                &&& (p.new_page matches Some(w) ==> w.offset == spec_add_page_offset(old(self)@)
                    && w.bytes@ == zeros(spec_page_size(old(self)@)))
                &&& p.row.offset == spec_row_offset(old(self)@)
                &&& p.row.bytes@ == spec_row_bytes(old(self)@.columns, row@)
                &&& p.row.bytes@.len() == spec_row_size(old(self)@.columns)
                &&& p.row_count.offset == spec_row_count_offset(old(self)@)
                &&& p.row_count.bytes@ == spec_u64_to_le_bytes(final(self)@.row_count)
            },
    {
        let ghost m = old(self)@;
        let ghost cs = m.columns;
        let ghost rowv = row@;
        let ghost rs = spec_row_size(cs);
        if row.data.len() != self.column_count as usize {
            return Err(arity_message(self.column_count, row.data.len()));
        }
        let mut row_bytes: Vec<u8> = Vec::new();
        let mut i: usize = 0;
        proof {
            assert(row_bytes@ + spec_row_bytes_from(cs, rowv, 0) =~= spec_row_bytes(cs, rowv));
        }
        while i < self.columns.len()
            invariant
                *self == *old(self),
                self@.wf(),
                m == self@,
                cs == m.columns,
                rowv == row@,
                rs == spec_row_size(cs),
                spec_geometry_fits(m),
                0 <= i <= self.columns@.len(),
                rowv.len() == cs.len(),
                cs.len() == self.columns@.len(),
                forall|j: int| 0 <= j < i ==> (#[trigger] rowv[j]).len() <= cs[j].length,
                row_bytes@ + spec_row_bytes_from(cs, rowv, i as int) == spec_row_bytes(cs, rowv),
            decreases self.columns@.len() - i,
        {
            proof {
                assert(self.columns@[i as int]@ == cs[i as int]);
                assert(rowv[i as int] == row.data@[i as int]@);
            }
            if row.data[i].len() as u64 > self.columns[i].length {
                return Err("Invalid column data".to_owned());
            }
            proof {
                lemma_column_length_le_row_size(cs, 0, i as int);
            }
            let target = self.columns[i].length as usize;
            let mut v = row.data[i].clone();
            proof {
                assert(v@ =~= rowv[i as int]);
            }
            while v.len() < target
                invariant
                    rowv[i as int].len() <= v@.len() <= target,
                    i < rowv.len(),
                    v@ == rowv[i as int] + zeros(v@.len() - rowv[i as int].len()),
                decreases target - v@.len(),
            {
                v.push(0);
                proof {
                    let orig = rowv[i as int];
                    assert(v@ =~= orig + zeros(v@.len() - orig.len()));
                }
            }
            proof {
                assert(v@ =~= spec_padded_value(rowv[i as int], cs[i as int].length as int));
            }
            row_bytes.append(&mut v);
            proof {
                assert(row_bytes@ + spec_row_bytes_from(cs, rowv, i as int + 1)
                    =~= spec_row_bytes(cs, rowv));
            }
            i = i + 1;
        }
        proof {
            assert(spec_row_valid(cs, rowv));
            lemma_row_bytes_len(cs, rowv, 0);
            assert(spec_row_bytes_from(cs, rowv, cs.len() as int) =~= Seq::<u8>::empty());
            assert(row_bytes@ =~= spec_row_bytes(cs, rowv));
        }
        proof {
            assert(rs * m.row_count <= rs * (m.row_count + 1)) by (nonlinear_arith)
                requires
                    rs > 0,
            {}
            assert(m.row_count + 1 <= rs * (m.row_count + 1)) by (nonlinear_arith)
                requires
                    rs >= 1,
                    m.row_count >= 0,
            {}
        }
        let new_page = if self.last_page_at_limit() {
            Some(self.add_page())
        } else {
            None
        };
        let row_offset = self.header_size() + self.row_size() * self.row_count;
        self.row_count = self.row_count + 1;
        let row_count_write = self.write_row_count_to_disk();
        proof {
            assert(self@ =~= m.with_row_count((m.row_count + 1) as u64));
        }
        Ok(RowAppend {
            new_page,
            row: DiskWrite { offset: row_offset, bytes: row_bytes },
            row_count: row_count_write,
        })
    }
}

/// A page: `page_size` bytes of the row-storage region of the table
/// file, read as a point-in-time snapshot by the I/O shell, plus the
/// zero-based page index it was read from. A page is not a persisted
/// entity of its own — it is a window over the row bytes.
pub struct Page {
    pub data: Vec<u8>,
    pub page_number: u64,
}

/// The byte offset inside an encoded row at which column `j`'s slot
/// starts: the sum of the lengths of the columns before it.
pub open spec fn spec_col_offset(cs: Seq<ColumnModel>, j: int) -> int
    decreases j,
{
    if j <= 0 {
        0
    } else {
        spec_col_offset(cs, j - 1) + cs[j - 1].length
    }
}

/// How many rows a page holds: `page_size / row_size` whole rows.
pub open spec fn spec_rows_in_page(m: TableModel) -> int {
    spec_page_size(m) / spec_row_size(m.columns)
}

/// How many rows actually exist in the given page: every page
/// before the last is full, and the last — the page the next append
/// starts — holds the remainder, which is zero when the stored rows
/// exactly fill whole pages. Rows that do not exist are never
/// decoded, and trailing unused page bytes are ignored.
pub open spec fn spec_page_row_count(m: TableModel, page_number: int) -> int {
    let rp = spec_rows_in_page(m);
    if m.row_count >= rp {
        if page_number == spec_page_count(m) - 1 {
            m.row_count as int % rp
        } else {
            rp
        }
    } else {
        m.row_count as int
    }
}

/// One decoded row of a page: value `j` is the `length_j`-byte slice
/// of the `i`-th row chunk at column `j`'s offset.
pub open spec fn spec_row_decoded(m: TableModel, pd: Seq<u8>, i: int, rv: Seq<Seq<u8>>) -> bool {
    let rs = spec_row_size(m.columns);
    &&& rv.len() == m.columns.len()
    &&& forall|j: int|
        0 <= j < m.columns.len() ==> #[trigger] rv[j] == pd.subrange(
            i * rs + spec_col_offset(m.columns, j),
            i * rs + spec_col_offset(m.columns, j) + m.columns[j].length,
        )
}

/// The column offsets partition the row: after the last column the
/// offset is the row size, and every slot lies inside the row.
pub proof fn lemma_col_offset_bounds(cs: Seq<ColumnModel>, j: int)
    requires
        0 <= j <= cs.len(),
    ensures
        spec_col_offset(cs, j) + spec_row_size_from(cs, j) == spec_row_size(cs),
        spec_col_offset(cs, j) >= 0,
    decreases j,
{
    if j == 0 {
    } else {
        lemma_col_offset_bounds(cs, j - 1);
        lemma_row_size_from_nonneg(cs, j);
    }
}

impl Table {
    /// Validates a page number and gives the byte range of that
    /// page: `page_size` bytes at the returned offset. Page numbers
    /// from `page_count` on are out of range. The shell reads or
    /// maps exactly that range to produce the `Page` snapshot.
    pub fn page_at(&self, page: u64) -> (r: Result<u64, String>)
        requires
            self@.wf(),
            spec_geometry_fits(self@),
        ensures
            r matches Ok(off) ==> page < spec_page_count(self@) && off
                == self@.spec_header_size() + page * spec_page_size(self@) && off + spec_page_size(
                self@,
            ) <= u64::MAX,
            r is Err <==> page >= spec_page_count(self@),
    {
        let ghost m = self@;
        let ghost rs = spec_row_size(m.columns);
        let ghost ps = spec_page_size(m);
        proof {
            lemma_page_size_properties(rs);
            assert(rs * m.row_count <= rs * (m.row_count + 1)) by (nonlinear_arith)
                requires
                    rs > 0,
            {}
        }
        if page >= self.page_count() {
            return Err("Invalid page number".to_owned());
        }
        proof {
            assert((page + 1) * ps <= (spec_page_count(m) + 1) * ps) by (nonlinear_arith)
                requires
                    ps > 0,
                    page + 1 <= spec_page_count(m) + 1,
            {}
            assert(0 <= page * ps <= (page + 1) * ps && (page + 1) * ps == page * ps + ps)
                by (nonlinear_arith)
                requires
                    ps > 0,
                    page >= 0,
            {}
        }
        Ok(self.header_size() + page * self.page_size())
    }

    /// Decodes the rows that exist in a page snapshot: the page's
    /// bytes are split into `row_size` chunks, and each chunk into
    /// per-column slices of the columns' lengths, in column order.
    /// Only rows the row counter accounts for are decoded; trailing
    /// unused page bytes are ignored.
    pub fn page_rows(&self, page: &Page) -> (r: Vec<Row>)
        requires
            self@.wf(),
            0 < spec_row_size(self@.columns) <= usize::MAX,
            spec_row_size(self@.columns) * self@.row_count <= u64::MAX,
            page.data@.len() == spec_page_size(self@),
        ensures
            r@.len() == spec_page_row_count(self@, page.page_number as int),
            forall|i: int|
                0 <= i < r@.len() ==> spec_row_decoded(self@, page.data@, i, (#[trigger] r@[i])@),
    {
        let ghost m = self@;
        let ghost cs = m.columns;
        let ghost rs_g = spec_row_size(cs);
        let ghost ps_g = spec_page_size(m);
        let ghost rp_g = spec_rows_in_page(m);
        let rs64 = self.row_size();
        let ps64 = self.page_size();
        let rows_in_page64 = ps64 / rs64;
        proof {
            lemma_page_size_properties(rs_g);
            assert(ps_g <= usize::MAX);
            vstd::arithmetic::div_mod::lemma_fundamental_div_mod(ps_g, rs_g);
            assert(rp_g * rs_g <= ps_g);
            assert(rp_g >= 1) by (nonlinear_arith)
                requires
                    ps_g >= rs_g > 0,
                    ps_g == rp_g * rs_g + ps_g % rs_g,
                    0 <= ps_g % rs_g < rs_g,
            {}
        }
        let row_count64: u64 = if self.row_count >= rows_in_page64 {
            proof {
                if m.row_count >= rp_g {
                    assert(spec_page_count(m) >= 1) by {
                        vstd::arithmetic::mul::lemma_mul_nonnegative(rs_g, m.row_count as int);
                        vstd::arithmetic::div_mod::lemma_div_pos_is_pos(
                            rs_g * m.row_count,
                            ps_g,
                        );
                    }
                }
            }
            if page.page_number == self.page_count() - 1 {
                self.row_count % rows_in_page64
            } else {
                rows_in_page64
            }
        } else {
            self.row_count
        };
        proof {
            assert(row_count64 == spec_page_row_count(m, page.page_number as int));
            assert(row_count64 <= rp_g);
            assert(row_count64 * rs_g <= rp_g * rs_g) by (nonlinear_arith)
                requires
                    rs_g > 0,
                    row_count64 <= rp_g,
            {}
        }
        let row_count = row_count64 as usize;
        let rs = rs64 as usize;
        let mut rows: Vec<Row> = Vec::new();
        let mut i: usize = 0;
        while i < row_count
            invariant
                m == self@,
                cs == m.columns,
                rs_g == spec_row_size(cs),
                ps_g == spec_page_size(m),
                rp_g == spec_rows_in_page(m),
                self@.wf(),
                0 < rs_g <= usize::MAX,
                rs == rs_g,
                row_count == row_count64,
                row_count64 * rs_g <= rp_g * rs_g,
                rp_g * rs_g <= ps_g,
                page.data@.len() == ps_g,
                0 <= i <= row_count,
                rows@.len() == i,
                row_count64 == spec_page_row_count(m, page.page_number as int),
                forall|k: int|
                    0 <= k < i ==> spec_row_decoded(m, page.data@, k, (#[trigger] rows@[k])@),
            decreases row_count - i,
        {
            proof {
                assert((i + 1) * rs_g <= row_count64 * rs_g) by (nonlinear_arith)
                    requires
                        rs_g > 0,
                        i + 1 <= row_count64,
                {}
                assert(i * rs_g >= 0) by (nonlinear_arith)
                    requires
                        rs_g > 0,
                        i >= 0,
                {}
                assert((i + 1) * rs_g == i * rs_g + rs_g) by (nonlinear_arith) {}
            }
            let row_start = i * rs;
            let mut data: Vec<Vec<u8>> = Vec::new();
            let mut off: usize = row_start;
            let mut j: usize = 0;
            proof {
                lemma_col_offset_bounds(cs, 0);
            }
            while j < self.columns.len()
                invariant
                    m == self@,
                    cs == m.columns,
                    rs_g == spec_row_size(cs),
                    0 < rs_g <= usize::MAX,
                    ps_g <= usize::MAX,
                    self@.wf(),
                    page.data@.len() == ps_g,
                    0 <= j <= cs.len(),
                    cs.len() == self.columns@.len(),
                    data@.len() == j,
                    row_start == i * rs_g,
                    row_start + rs_g <= page.data@.len(),
                    off == row_start + spec_col_offset(cs, j as int),
                    off + spec_row_size_from(cs, j as int) == row_start + rs_g,
                    forall|k: int|
                        0 <= k < j ==> (#[trigger] data@[k])@ == page.data@.subrange(
                            i * rs_g + spec_col_offset(cs, k),
                            i * rs_g + spec_col_offset(cs, k) + cs[k].length,
                        ),
                decreases cs.len() - j,
            {
                proof {
                    assert(self.columns@[j as int]@ == cs[j as int]);
                    lemma_row_size_from_nonneg(cs, j as int + 1);
                    lemma_col_offset_bounds(cs, j as int);
                    lemma_column_length_le_row_size(cs, j as int, j as int);
                    assert(cs[j as int].length <= spec_row_size_from(cs, j as int));
                }
                let l = self.columns[j].length as usize;
                let piece = vstd::slice::slice_to_vec(
                    vstd::slice::slice_subrange(page.data.as_slice(), off, off + l),
                );
                data.push(piece);
                off = off + l;
                j = j + 1;
                proof {
                    assert(spec_col_offset(cs, j as int) == spec_col_offset(cs, j as int - 1)
                        + cs[j as int - 1].length);
                }
            }
            let row = Row { data };
            proof {
                assert(spec_row_decoded(m, page.data@, i as int, row@));
            }
            rows.push(row);
            i = i + 1;
        }
        rows
    }
}

/// A byte string with its trailing zero bytes removed: the inverse
/// of the zero padding applied when the value was encoded, correct
/// for zero-padded text.
pub open spec fn spec_trim_trailing_zeros(s: Seq<u8>) -> Seq<u8>
    decreases s.len(),
{
    if s.len() == 0 {
        s
    } else if s.last() == 0 {
        spec_trim_trailing_zeros(s.drop_last())
    } else {
        s
    }
}

/// The textual form of one decoded row: each column value with its
/// trailing zero padding stripped, read as UTF-8 text. Values whose
/// remaining bytes are not valid UTF-8 have no textual form and are
/// ruled out.
pub fn stringify_result(row: &Row) -> (r: Vec<String>)
    requires
        forall|i: int|
            0 <= i < row@.len() ==> vstd::utf8::valid_utf8(
                spec_trim_trailing_zeros(#[trigger] row@[i]),
            ),
    ensures
        r@.len() == row@.len(),
        forall|i: int|
            0 <= i < row@.len() ==> encode_utf8((#[trigger] r@[i])@) == spec_trim_trailing_zeros(
                row@[i],
            ),
{
    let mut result: Vec<String> = Vec::new();
    let mut i: usize = 0;
    while i < row.data.len()
        invariant
            0 <= i <= row.data@.len(),
            result@.len() == i,
            forall|k: int|
                0 <= k < row@.len() ==> vstd::utf8::valid_utf8(
                    spec_trim_trailing_zeros(#[trigger] row@[k]),
                ),
            forall|k: int|
                0 <= k < i ==> encode_utf8((#[trigger] result@[k])@) == spec_trim_trailing_zeros(
                    row@[k],
                ),
        decreases row.data@.len() - i,
    {
        let v = &row.data[i];
        let ghost vg = row@[i as int];
        proof {
            assert(vg == v@);
        }
        let mut end = v.len();
        proof {
            assert(vg.subrange(0, vg.len() as int) =~= vg);
        }
        while end > 0 && v[end - 1] == 0
            invariant
                0 <= end <= v@.len(),
                vg == v@,
                spec_trim_trailing_zeros(vg) == spec_trim_trailing_zeros(
                    vg.subrange(0, end as int),
                ),
            decreases end,
        {
            proof {
                let pre = vg.subrange(0, end as int);
                assert(pre.drop_last() =~= vg.subrange(0, end - 1));
            }
            end = end - 1;
        }
        proof {
            let pre = vg.subrange(0, end as int);
            if end > 0 {
                assert(pre.last() == vg[end - 1]);
                assert(pre.last() != 0);
            }
            assert(spec_trim_trailing_zeros(vg) == pre);
        }
        let trimmed = vstd::slice::slice_to_vec(
            vstd::slice::slice_subrange(v.as_slice(), 0, end),
        );
        let s = match string_from_utf8(trimmed) {
            Some(s) => s,
            None => {
                proof {
                    assert(false);
                }
                String::new()
            },
        };
        result.push(s);
        i = i + 1;
    }
    result
}

/// The page size is at least the row size, a multiple of it, at
/// least 64 bytes, and at most the larger of 128 and the row size.
pub proof fn lemma_page_size_properties(rs: int)
    requires
        rs > 0,
    ensures
        spec_page_size_for(rs) >= rs,
        spec_page_size_for(rs) % rs == 0,
        spec_page_size_for(rs) >= 64,
        rs < 128 ==> spec_page_size_for(rs) <= 128,
        rs >= 128 ==> spec_page_size_for(rs) == rs,
{
    if rs < 128 {
        let q = 128int / rs;
        let r = 128int % rs;
        vstd::arithmetic::div_mod::lemma_fundamental_div_mod(128, rs);
        assert(128 == q * rs + r);
        assert(0 <= r < rs);
        assert(q >= 1) by (nonlinear_arith)
            requires
                128 == q * rs + r,
                0 < rs < 128,
                0 <= r < rs,
        {}
        assert(spec_page_size_for(rs) == q * rs);
        assert(q * rs >= rs) by (nonlinear_arith)
            requires
                q >= 1,
                rs > 0,
        {}
        assert((q * rs) % rs == 0) by {
            vstd::arithmetic::div_mod::lemma_mod_multiples_basic(q, rs);
        }
        assert(q * rs == 128 - r);
        assert(128 - r >= 64) by {
            assert(r < rs < 128);
            if r >= 64 {
                assert(rs > 64);
                assert(q == 1) by (nonlinear_arith)
                    requires
                        128 == q * rs + r,
                        64 < rs < 128,
                        0 <= r < rs,
                        q >= 1,
                {}
                assert(r == 128 - rs < 64);
            }
        }
    } else {
        vstd::arithmetic::div_mod::lemma_mod_self_0(rs);
    }
}

/// When the total row bytes fit a `u64`, so does the page count.
pub proof fn lemma_page_count_fits(m: TableModel)
    requires
        0 < spec_row_size(m.columns),
        spec_row_size(m.columns) * m.row_count <= u64::MAX,
    ensures
        spec_page_count(m) <= u64::MAX,
{
    let rs = spec_row_size(m.columns);
    let ps = spec_page_size(m);
    lemma_page_size_properties(rs);
    if m.row_count != 0 {
        let total = rs * m.row_count;
        vstd::arithmetic::mul::lemma_mul_nonnegative(rs, m.row_count as int);
        vstd::arithmetic::div_mod::lemma_div_is_ordered_by_denominator(total, 64, ps);
        assert(total / ps <= total / 64);
        assert(total / 64 <= u64::MAX / 64) by {
            vstd::arithmetic::div_mod::lemma_div_is_ordered(total, u64::MAX as int, 64);
        }
    }
}

} // verus!
