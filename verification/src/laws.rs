//! The engine's cross-cutting guarantees, as theorems.
//!
//! The header round trip itself is [`crate::layout::lemma_table_header_round_trip`];
//! this module proves what the append path does to a whole table
//! file, and how the page bookkeeping behaves at a page boundary.

use vstd::prelude::*;
use vstd::bytes::*;
use crate::column::ColumnModel;
use crate::disk::{
    spec_apply_write, lemma_apply_write_overwrites, lemma_apply_write_preserves_prefix,
};
use crate::layout::{
    spec_table_header_bytes, spec_parse_table, lemma_header_bytes_len,
    lemma_parse_table_implies_prefix, lemma_parse_table_prefix, ParseFailure, TableModel, zeros,
};
use crate::table::{
    spec_add_page_offset, spec_col_offset, spec_last_page_at_limit, spec_padded_value,
    spec_page_count, spec_page_size, spec_rows_in_page, spec_row_bytes, spec_row_bytes_from,
    spec_row_count_offset, spec_row_offset, spec_row_size, spec_row_size_from, spec_row_valid,
    lemma_col_offset_bounds, lemma_page_size_properties, lemma_row_bytes_len,
    lemma_row_size_from_nonneg,
};

verus! {

/// The bytes of a table file after the writes of one row append, in
/// the order `add_row` hands them out: the fresh zero page when the
/// stored rows had exactly filled the pages, then the encoded row,
/// then the updated row count.
pub open spec fn spec_after_append(image: Seq<u8>, m: TableModel, row_bytes: Seq<u8>) -> Seq<u8> {
    let after_page = if spec_last_page_at_limit(m) {
        spec_apply_write(image, spec_add_page_offset(m), zeros(spec_page_size(m)))
    } else {
        image
    };
    let after_row = spec_apply_write(after_page, spec_row_offset(m), row_bytes);
    spec_apply_write(
        after_row,
        spec_row_count_offset(m),
        spec_u64_to_le_bytes((m.row_count + 1) as u64),
    )
}

/// Durable append — row count monotonicity: applying the writes of
/// one successful row append to any table file whose header parses
/// to the table leaves a file whose header parses to the same table
/// with its row count exactly one higher. Name, column count and
/// column definitions are untouched; after `k` such appends the row
/// count read back from disk is `k` more than it was.
pub proof fn lemma_add_row_durable(image: Seq<u8>, m: TableModel, row_bytes: Seq<u8>)
    requires
        spec_parse_table(image) == Ok::<TableModel, ParseFailure>(m),
        0 < spec_row_size(m.columns),
        m.row_count < u64::MAX,
    ensures
        spec_parse_table(spec_after_append(image, m, row_bytes)) == Ok::<
            TableModel,
            ParseFailure,
        >(m.with_row_count((m.row_count + 1) as u64)),
{
    let hs = m.spec_header_size();
    let rs = spec_row_size(m.columns);
    let ps = spec_page_size(m);
    let pc = spec_page_count(m);
    lemma_parse_table_implies_prefix(image, m);
    lemma_header_bytes_len(m);
    lemma_page_size_properties(rs);
    vstd::arithmetic::mul::lemma_mul_nonnegative(rs, m.row_count as int);
    if m.row_count != 0 {
        vstd::arithmetic::div_mod::lemma_div_pos_is_pos(rs * m.row_count, ps);
        vstd::arithmetic::mul::lemma_mul_nonnegative(pc, ps);
    }

    let after_page = if spec_last_page_at_limit(m) {
        spec_apply_write(image, spec_add_page_offset(m), zeros(ps))
    } else {
        image
    };
    if spec_last_page_at_limit(m) {
        lemma_apply_write_preserves_prefix(image, spec_add_page_offset(m), zeros(ps), hs);
    }
    assert(after_page.len() >= hs);
    assert(after_page.subrange(0, hs) == image.subrange(0, hs));

    let after_row = spec_apply_write(after_page, spec_row_offset(m), row_bytes);
    lemma_apply_write_preserves_prefix(after_page, spec_row_offset(m), row_bytes, hs);
    assert(after_row.subrange(0, hs) == image.subrange(0, hs));

    let count_bytes = spec_u64_to_le_bytes((m.row_count + 1) as u64);
    lemma_auto_spec_u64_to_from_le_bytes();
    let after_count = spec_apply_write(after_row, spec_row_count_offset(m), count_bytes);
    lemma_apply_write_preserves_prefix(after_row, spec_row_count_offset(m), count_bytes, hs - 8);
    lemma_apply_write_overwrites(after_row, spec_row_count_offset(m), count_bytes);
    assert(after_count.subrange(0, hs - 8) == after_row.subrange(0, hs - 8));
    assert(after_row.subrange(0, hs - 8) =~= image.subrange(0, hs).subrange(0, hs - 8));
    assert(after_count.subrange(hs - 8, hs) == count_bytes);

    let m2 = m.with_row_count((m.row_count + 1) as u64);
    assert(m2.wf());
    assert(m2.spec_header_size() == hs);
    lemma_header_bytes_len(m2);
    let ser1 = spec_table_header_bytes(m);
    let ser2 = spec_table_header_bytes(m2);
    assert(after_count.subrange(0, hs) =~= ser2) by {
        assert forall|k: int| 0 <= k < hs implies after_count.subrange(0, hs)[k] == ser2[k] by {
            if k < hs - 8 {
                assert(after_count.subrange(0, hs)[k] == after_count.subrange(0, hs - 8)[k]);
                assert(after_count.subrange(0, hs - 8)[k] == image.subrange(0, hs)[k]);
                assert(image.subrange(0, hs)[k] == ser1[k]);
                assert(ser1[k] == ser2[k]);
            } else {
                assert(after_count.subrange(0, hs)[k] == after_count.subrange(hs - 8, hs)[k - (hs
                    - 8)]);
                assert(ser2[k] == count_bytes[k - (hs - 8)]);
            }
        }
    }
    lemma_parse_table_prefix(after_count, m2);
}

/// The bytes of a table file after a whole sequence of row appends,
/// each applied to the file the previous one left.
pub open spec fn spec_after_appends(image: Seq<u8>, m: TableModel, rows: Seq<Seq<u8>>) -> Seq<u8>
    decreases rows.len(),
{
    if rows.len() == 0 {
        image
    } else {
        spec_after_appends(
            spec_after_append(image, m, rows[0]),
            m.with_row_count((m.row_count + 1) as u64),
            rows.drop_first(),
        )
    }
}

/// Row count monotonicity over a whole run: appending `k` rows to a
/// table file leaves a file whose header reads back as the same
/// table with its row count exactly `k` higher — for a fresh table,
/// exactly `k`.
pub proof fn lemma_appends_durable(image: Seq<u8>, m: TableModel, rows: Seq<Seq<u8>>)
    requires
        spec_parse_table(image) == Ok::<TableModel, ParseFailure>(m),
        0 < spec_row_size(m.columns),
        m.row_count + rows.len() <= u64::MAX,
    ensures
        spec_parse_table(spec_after_appends(image, m, rows)) == Ok::<TableModel, ParseFailure>(
            m.with_row_count((m.row_count + rows.len()) as u64),
        ),
    decreases rows.len(),
{
    if rows.len() == 0 {
        assert(m.with_row_count((m.row_count + 0) as u64) =~= m);
    } else {
        lemma_add_row_durable(image, m, rows[0]);
        let m1 = m.with_row_count((m.row_count + 1) as u64);
        lemma_appends_durable(spec_after_append(image, m, rows[0]), m1, rows.drop_first());
        assert(m1.with_row_count((m1.row_count + rows.drop_first().len()) as u64)
            =~= m.with_row_count((m.row_count + rows.len()) as u64));
    }
}

/// Row codec round trip: inside the fixed-width encoding of a valid
/// row, the byte range carved out for column `j` — which is exactly
/// what the page decoder hands back for that column — holds that
/// column's value, zero-padded to the column's length.
pub proof fn lemma_row_bytes_column_slices(cs: Seq<ColumnModel>, row: Seq<Seq<u8>>, j: int)
    requires
        spec_row_valid(cs, row),
        0 <= j < cs.len(),
    ensures
        spec_row_bytes(cs, row).subrange(
            spec_col_offset(cs, j),
            spec_col_offset(cs, j) + cs[j].length,
        ) == spec_padded_value(row[j], cs[j].length as int),
{
    lemma_row_bytes_column_slices_from(cs, row, 0, j);
    lemma_col_offset_bounds(cs, 0);
}

proof fn lemma_row_bytes_column_slices_from(cs: Seq<ColumnModel>, row: Seq<Seq<u8>>, i: int, j: int)
    requires
        spec_row_valid(cs, row),
        0 <= i <= j < cs.len(),
    ensures
        spec_row_bytes_from(cs, row, i).subrange(
            spec_col_offset(cs, j) - spec_col_offset(cs, i),
            spec_col_offset(cs, j) - spec_col_offset(cs, i) + cs[j].length,
        ) == spec_padded_value(row[j], cs[j].length as int),
    decreases j - i,
{
    lemma_row_bytes_len(cs, row, i);
    lemma_row_bytes_len(cs, row, i + 1);
    lemma_col_offset_bounds(cs, i);
    lemma_col_offset_bounds(cs, j);
    lemma_col_offset_bounds(cs, j + 1);
    lemma_row_size_from_nonneg(cs, j + 1);
    if i == j {
        assert(spec_row_bytes_from(cs, row, i).subrange(0, cs[i].length as int)
            =~= spec_padded_value(row[i], cs[i].length as int));
    } else {
        lemma_row_bytes_column_slices_from(cs, row, i + 1, j);
        lemma_col_offset_bounds(cs, i + 1);
        lemma_row_size_from_decreasing(cs, i + 1, j);
        let off = spec_col_offset(cs, j) - spec_col_offset(cs, i);
        assert(spec_col_offset(cs, i) + cs[i].length == spec_col_offset(cs, i + 1));
        assert(spec_col_offset(cs, i + 1) <= spec_col_offset(cs, j));
        assert(spec_padded_value(row[i], cs[i].length as int).len() == cs[i].length);
        assert(spec_row_bytes_from(cs, row, i).subrange(off, off + cs[j].length)
            =~= spec_row_bytes_from(cs, row, i + 1).subrange(
            off - cs[i].length,
            off - cs[i].length + cs[j].length,
        ));
    }
}

/// Later suffixes of the column lengths sum to no more.
proof fn lemma_row_size_from_decreasing(cs: Seq<ColumnModel>, a: int, b: int)
    requires
        0 <= a <= b,
    ensures
        spec_row_size_from(cs, a) >= spec_row_size_from(cs, b),
    decreases b - a,
{
    if a < b {
        lemma_row_size_from_decreasing(cs, a + 1, b);
    }
}

/// Page boundary: with rows of `row_size` bytes and pages holding
/// `rows_per_page = page_size / row_size` of them (at least two),
/// the page count is 1 while the first page is filling and no append
/// in that phase needs a page allocation; once exactly
/// `rows_per_page` rows are stored the page count has risen by
/// exactly one, to 2, and the allocation check fires, so the next
/// append allocates exactly one page; after that next row the page
/// count is still 2.
pub proof fn lemma_page_boundary(m: TableModel)
    requires
        m.wf(),
        0 < spec_row_size(m.columns),
        2 <= spec_rows_in_page(m),
    ensures
        0 < m.row_count < spec_rows_in_page(m) ==> spec_page_count(m) == 1
            && !spec_last_page_at_limit(m),
        m.row_count == spec_rows_in_page(m) ==> spec_page_count(m) == 2
            && spec_last_page_at_limit(m),
        m.row_count == spec_rows_in_page(m) + 1 ==> spec_page_count(m) == 2
            && !spec_last_page_at_limit(m),
{
    let rs = spec_row_size(m.columns);
    let ps = spec_page_size(m);
    let rp = spec_rows_in_page(m);
    let rc = m.row_count as int;
    let total = rs * rc;
    lemma_page_size_properties(rs);
    vstd::arithmetic::div_mod::lemma_fundamental_div_mod(ps, rs);
    assert(ps == rs * rp) by {
        vstd::arithmetic::mul::lemma_mul_is_commutative(rs, rp);
    }
    if 0 < rc < rp {
        assert(0 < total < ps) by (nonlinear_arith)
            requires
                total == rs * rc,
                ps == rs * rp,
                0 < rc < rp,
                rs > 0,
        {}
        vstd::arithmetic::div_mod::lemma_fundamental_div_mod_converse(total, ps, 0, total);
    }
    if rc == rp {
        assert(total == ps) by (nonlinear_arith)
            requires
                total == rs * rc,
                ps == rs * rp,
                rc == rp,
        {}
        vstd::arithmetic::div_mod::lemma_fundamental_div_mod_converse(total, ps, 1, 0);
    }
    if rc == rp + 1 {
        assert(total == ps + rs && rs < ps) by (nonlinear_arith)
            requires
                total == rs * rc,
                ps == rs * rp,
                rc == rp + 1,
                rp >= 2,
                rs > 0,
        {}
        vstd::arithmetic::div_mod::lemma_fundamental_div_mod_converse(total, ps, 1, rs);
    }
}

} // verus!
