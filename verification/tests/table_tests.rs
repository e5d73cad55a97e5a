//! Tests of the storage engine: header durability, the append path,
//! page geometry and page decoding, all against an in-memory file
//! image that receives the engine's positioned writes.

use tablestore::column::{ColumnDefinition, ColumnType};
use tablestore::disk::apply_write;
use tablestore::errors::DurabilityError;
use tablestore::table::{Page, Row, Table};

fn new_accounts_table() -> Table {
    Table::new(
        "accounts".to_string(),
        vec![
            ColumnDefinition::new("id".to_string(), ColumnType::Int, 11),
            ColumnDefinition::new("account_id".to_string(), ColumnType::Int, 11),
        ],
    )
}

/// Creates the table's file image the way the shell does: write the
/// header, then allocate the first page.
fn create_table_image(table: &Table) -> Vec<u8> {
    let mut image: Vec<u8> = Vec::new();
    apply_write(&mut image, &table.header_write());
    apply_write(&mut image, &table.add_page());
    image
}

/// Performs one append against the image, applying the returned
/// writes in order.
fn append_row(table: &mut Table, image: &mut Vec<u8>, values: Vec<Vec<u8>>) -> Result<(), String> {
    let plan = table.add_row(Row { data: values })?;
    if let Some(w) = &plan.new_page {
        apply_write(image, w);
    }
    apply_write(image, &plan.row);
    apply_write(image, &plan.row_count);
    Ok(())
}

fn sample_row() -> Vec<Vec<u8>> {
    vec!["123".as_bytes().to_vec(), "1".as_bytes().to_vec()]
}

#[test]
fn table_test_read_write_on_disk() {
    let mut table = Table::new(
        "test_table".to_string(),
        vec![
            ColumnDefinition::new("id".to_string(), ColumnType::Int, 11),
            ColumnDefinition::new("account_id".to_string(), ColumnType::Int, 11),
        ],
    );
    let mut image = create_table_image(&table);

    let read = Table::read_from_disk(&image);
    if let Err(e) = &read {
        panic!("Error reading table from disk: {:?}", e.message());
    }
    assert!(read.is_ok());
    let mut table_back = read.unwrap();
    assert!(table_back.column_count == 2);

    for _ in 0..3 {
        let row_added = append_row(&mut table, &mut image, sample_row());
        if let Err(e) = row_added {
            panic!("Error adding row to table: {:?}", e);
        }
    }

    let read = Table::read_from_disk(&image);
    if let Err(e) = &read {
        panic!("Error reading table from disk: {:?}", e.message());
    }
    assert!(read.is_ok());
    table_back = read.unwrap();
    assert!(table_back.row_count == 3);
}

#[test]
fn mod_test_read_write_on_disk() {
    let mut table = Table::new(
        "test_table".to_string(),
        vec![
            ColumnDefinition::new("id".to_string(), ColumnType::Int, 11),
            ColumnDefinition::new("account_id".to_string(), ColumnType::Int, 11),
        ],
    );
    let mut image: Vec<u8> = Vec::new();
    apply_write(&mut image, &table.header_write());
    apply_write(&mut image, &table.add_page());

    let read = Table::read_from_disk(&image);
    if let Err(e) = &read {
        panic!("Error reading table from disk: {:?}", e.message());
    }
    assert!(read.is_ok());
    let table_back = read.unwrap();
    assert!(table_back.column_count == 2);

    for _ in 0..3 {
        let row_added = append_row(&mut table, &mut image, sample_row());
        if let Err(e) = row_added {
            panic!("Error adding row to table: {:?}", e);
        }
    }

    let read = Table::read_from_disk(&image);
    assert!(read.is_ok());
    assert!(read.unwrap().row_count == 3);
}

#[test]
fn round_trip_preserves_schema() {
    let table = Table::new(
        "people".to_string(),
        vec![
            ColumnDefinition::new("name".to_string(), ColumnType::Varchar, 32),
            ColumnDefinition::new("age".to_string(), ColumnType::Int, 4),
        ],
    );
    let image = create_table_image(&table);
    let back = Table::read_from_disk(&image).unwrap();
    assert_eq!(back.name, table.name);
    assert_eq!(back.column_count, table.column_count);
    assert_eq!(back.row_count, 0);
    assert_eq!(back.columns.len(), 2);
    for i in 0..2 {
        assert_eq!(back.columns[i].name, table.columns[i].name);
        assert_eq!(back.columns[i].column_type.code(), table.columns[i].column_type.code());
        assert_eq!(back.columns[i].length, table.columns[i].length);
    }
}

#[test]
fn row_count_monotonic_zero() {
    let table = new_accounts_table();
    let image = create_table_image(&table);
    assert_eq!(Table::read_from_disk(&image).unwrap().row_count, 0);
}

#[test]
fn row_count_monotonic_one() {
    let mut table = new_accounts_table();
    let mut image = create_table_image(&table);
    append_row(&mut table, &mut image, sample_row()).unwrap();
    assert_eq!(Table::read_from_disk(&image).unwrap().row_count, 1);
}

#[test]
fn row_count_monotonic_thousand() {
    let mut table = new_accounts_table();
    let mut image = create_table_image(&table);
    for _ in 0..1000 {
        append_row(&mut table, &mut image, sample_row()).unwrap();
    }
    assert_eq!(Table::read_from_disk(&image).unwrap().row_count, 1000);
}

#[test]
fn page_boundary_allocation() {
    // Rows are 22 bytes, so the 128-byte target clamps to a 110-byte
    // page holding exactly 5 rows.
    let mut table = new_accounts_table();
    let mut image = create_table_image(&table);
    assert_eq!(table.page_size(), 110);
    assert_eq!(table.page_count(), 0);

    let mut allocations = 0;
    for _ in 0..5 {
        let plan = table.add_row(Row { data: sample_row() }).unwrap();
        if let Some(w) = &plan.new_page {
            allocations += 1;
            apply_write(&mut image, w);
        }
        apply_write(&mut image, &plan.row);
        apply_write(&mut image, &plan.row_count);
    }
    // Filling the first page allocated only the first page itself.
    assert_eq!(allocations, 1);
    // The counter already accounts for the page the next row starts.
    assert_eq!(table.page_count(), 2);

    let plan = table.add_row(Row { data: sample_row() }).unwrap();
    // The sixth row is the one that needs a second page.
    assert!(plan.new_page.is_some());
    apply_write(&mut image, plan.new_page.as_ref().unwrap());
    apply_write(&mut image, &plan.row);
    apply_write(&mut image, &plan.row_count);
    assert_eq!(table.page_count(), 2);

    // And the seventh does not.
    let plan = table.add_row(Row { data: sample_row() }).unwrap();
    assert!(plan.new_page.is_none());
}

#[test]
fn oversized_value_rejected() {
    let mut table = new_accounts_table();
    let mut image = create_table_image(&table);
    let result = append_row(
        &mut table,
        &mut image,
        vec!["123456789012".as_bytes().to_vec(), "1".as_bytes().to_vec()],
    );
    assert_eq!(result, Err("Invalid column data".to_string()));
    assert_eq!(table.row_count, 0);
    assert_eq!(Table::read_from_disk(&image).unwrap().row_count, 0);
}

#[test]
fn wrong_column_count_rejected() {
    let mut table = new_accounts_table();
    let mut image = create_table_image(&table);
    let result = append_row(&mut table, &mut image, vec!["123".as_bytes().to_vec()]);
    assert_eq!(
        result,
        Err("Invalid row data expected 2 columns got 1 ".to_string())
    );
    assert_eq!(table.row_count, 0);
}

#[test]
fn unknown_type_code_rejected() {
    // A one-column header whose type code is 3: neither 1 nor 2.
    let mut bytes: Vec<u8> = Vec::new();
    bytes.extend(std::iter::repeat(0u8).take(64)); // table name slot
    bytes.extend(1u32.to_le_bytes()); // one column
    bytes.extend(std::iter::repeat(0u8).take(64)); // column name slot
    bytes.extend(3u32.to_le_bytes()); // unknown type code
    bytes.extend(11u64.to_le_bytes()); // column length
    bytes.extend(0u64.to_le_bytes()); // row count
    let read = Table::read_from_disk(&bytes);
    match read {
        Err(DurabilityError::DbError(m)) => assert_eq!(m, "Invalid column type: 3"),
        _ => panic!("expected a format error"),
    }

    // The full 32-bit code is named, not just its low byte.
    let start = 64 + 4 + 64;
    bytes[start..start + 4].copy_from_slice(&16777219u32.to_le_bytes());
    let read = Table::read_from_disk(&bytes);
    match read {
        Err(DurabilityError::DbError(m)) => assert_eq!(m, "Invalid column type: 16777219"),
        _ => panic!("expected a format error"),
    }
}

#[test]
fn exactly_full_page_has_no_phantom_rows() {
    // Five 22-byte rows exactly fill the 110-byte page: the counter
    // already accounts for the empty in-progress page, but that page
    // must decode to zero rows, not to phantom rows of zeros.
    let mut table = new_accounts_table();
    let mut image = create_table_image(&table);
    for _ in 0..5 {
        append_row(&mut table, &mut image, sample_row()).unwrap();
    }
    let table_back = Table::read_from_disk(&image).unwrap();
    assert_eq!(table_back.page_count(), 2);
    let page_size = table_back.page_size() as usize;

    let offset0 = table_back.page_at(0).unwrap() as usize;
    let page0 = Page {
        data: image[offset0..offset0 + page_size].to_vec(),
        page_number: 0,
    };
    assert_eq!(table_back.page_rows(&page0).len(), 5);

    let offset1 = table_back.page_at(1).unwrap() as usize;
    let mut data1 = vec![0u8; page_size];
    let available = image.len().saturating_sub(offset1).min(page_size);
    data1[..available].copy_from_slice(&image[offset1..offset1 + available]);
    let page1 = Page { data: data1, page_number: 1 };
    assert_eq!(table_back.page_rows(&page1).len(), 0);
}

#[test]
fn truncated_header_rejected() {
    let table = new_accounts_table();
    let image = create_table_image(&table);
    let read = Table::read_from_disk(&image[0..70]);
    assert!(matches!(read, Err(DurabilityError::IoError(_))));
    let read = Table::read_from_disk(&image[0..20]);
    assert!(matches!(read, Err(DurabilityError::IoError(_))));
}

#[test]
fn three_account_rows_scenario() {
    let mut table = new_accounts_table();
    let mut image = create_table_image(&table);
    for _ in 0..3 {
        append_row(&mut table, &mut image, sample_row()).unwrap();
    }
    // 22 bytes per row and 3 rows fit the 110-byte page.
    assert_eq!(table.page_count(), 1);

    let table_back = Table::read_from_disk(&image).unwrap();
    assert_eq!(table_back.row_count, 3);

    let offset = table_back.page_at(0).unwrap() as usize;
    let page_size = table_back.page_size() as usize;
    let page = Page {
        data: image[offset..offset + page_size].to_vec(),
        page_number: 0,
    };
    let rows = table_back.page_rows(&page);
    assert_eq!(rows.len(), 3);
    for row in &rows {
        let texts = tablestore::table::stringify_result(row);
        assert_eq!(texts, vec!["123".to_string(), "1".to_string()]);
    }
}

#[test]
fn page_at_out_of_range() {
    let mut table = new_accounts_table();
    let mut image = create_table_image(&table);
    append_row(&mut table, &mut image, sample_row()).unwrap();
    assert!(table.page_at(0).is_ok());
    let err = table.page_at(1);
    assert_eq!(err, Err("Invalid page number".to_string()));
    assert_eq!(
        table.page_at(0).unwrap(),
        table.header_size()
    );
}

#[test]
fn stringify_strips_trailing_zeros() {
    let row = Row {
        data: vec![
            vec![b'a', b'b', 0, 0, 0],
            vec![0, 0],
            vec![b'x', 0, b'y', 0],
        ],
    };
    let texts = tablestore::table::stringify_result(&row);
    assert_eq!(texts[0], "ab");
    assert_eq!(texts[1], "");
    assert_eq!(texts[2], "x\u{0}y");
}

#[test]
fn row_bytes_layout() {
    // One append writes the row at header_size, zero-padded per column.
    let mut table = new_accounts_table();
    let mut image = create_table_image(&table);
    let header = table.header_size();
    append_row(&mut table, &mut image, sample_row()).unwrap();
    let start = header as usize;
    let mut expected = "123".as_bytes().to_vec();
    expected.extend(std::iter::repeat(0u8).take(8));
    expected.push(b'1');
    expected.extend(std::iter::repeat(0u8).take(10));
    assert_eq!(&image[start..start + 22], expected.as_slice());
}

#[test]
fn type_codes_encode_and_decode() {
    assert_eq!(ColumnType::Int.code(), 1);
    assert_eq!(ColumnType::Varchar.code(), 2);
    assert_eq!(ColumnType::Int.bytes(), 1u32.to_le_bytes().to_vec());
    assert!(ColumnType::from_code(1).is_some());
    assert!(ColumnType::from_code(2).is_some());
    assert!(ColumnType::from_code(3).is_none());
    assert!(ColumnType::from_code(0).is_none());
}

#[test]
fn column_definition_encoding() {
    let cd = ColumnDefinition::new("id".to_string(), ColumnType::Int, 11);
    assert_eq!(ColumnDefinition::size(), 76);
    let bytes = cd.bytes();
    assert_eq!(bytes.len(), 76);
    assert_eq!(&bytes[0..2], "id".as_bytes());
    assert!(bytes[2..64].iter().all(|b| *b == 0));
    assert_eq!(&bytes[64..68], &1u32.to_le_bytes());
    assert_eq!(&bytes[68..76], &11u64.to_le_bytes());
}

#[test]
fn mixed_width_columns_decode() {
    // Columns of different lengths: each decoded slice must start at
    // the sum of the previous lengths, not at a multiple of its own.
    let mut table = Table::new(
        "mixed".to_string(),
        vec![
            ColumnDefinition::new("flag".to_string(), ColumnType::Varchar, 1),
            ColumnDefinition::new("label".to_string(), ColumnType::Varchar, 9),
        ],
    );
    let mut image = create_table_image(&table);
    append_row(
        &mut table,
        &mut image,
        vec!["y".as_bytes().to_vec(), "ledger".as_bytes().to_vec()],
    )
    .unwrap();

    let table_back = Table::read_from_disk(&image).unwrap();
    let offset = table_back.page_at(0).unwrap() as usize;
    let page_size = table_back.page_size() as usize;
    let page = Page {
        data: image[offset..offset + page_size].to_vec(),
        page_number: 0,
    };
    let rows = table_back.page_rows(&page);
    assert_eq!(rows.len(), 1);
    assert_eq!(rows[0].data[0], "y".as_bytes().to_vec());
    let mut padded = "ledger".as_bytes().to_vec();
    padded.extend(std::iter::repeat(0u8).take(3));
    assert_eq!(rows[0].data[1], padded);
    let texts = tablestore::table::stringify_result(&rows[0]);
    assert_eq!(texts, vec!["y".to_string(), "ledger".to_string()]);
}
