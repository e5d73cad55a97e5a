//! Tests of the whole-database header file.

use tablestore::database::{DatabaseFile, DatabaseFileHeader};
use tablestore::disk::apply_write;

#[test]
fn test_init_db() {
    let name = String::from("test");
    let header = DatabaseFileHeader::new(&name, 0);
    let mut image: Vec<u8> = Vec::new();
    apply_write(&mut image, &header.write_to_disk());

    let header = DatabaseFileHeader::read_from_disk(&image);
    assert!(header.is_ok());
    let header = header.unwrap();
    assert_eq!(
        std::str::from_utf8(&header.name).unwrap(),
        format!("{:\0<64}", "test")
    );
    assert_eq!(0, header.table_count);
}

#[test]
fn database_file_round_trip() {
    let file = DatabaseFile { header: DatabaseFileHeader::new("ledger", 7) };
    let mut image: Vec<u8> = Vec::new();
    apply_write(&mut image, &file.write_to_disk());
    assert_eq!(image.len(), 68);

    let back = DatabaseFile::read_from_disk(&image).unwrap();
    assert_eq!(back.header.name, file.header.name);
    assert_eq!(back.header.table_count, 7);
}

#[test]
fn database_header_rejects_truncation() {
    let header = DatabaseFileHeader::new("short", 1);
    let mut image: Vec<u8> = Vec::new();
    apply_write(&mut image, &header.write_to_disk());
    assert!(DatabaseFileHeader::read_from_disk(&image[0..67]).is_err());
}
