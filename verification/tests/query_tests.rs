//! Tests of the query front-end: tokenizing and statement parsing.

use tablestore::query::{pop_word, pop_string_inside_parenthesis, ColumnList, Query, QuerySource, ValueList};

#[test]
fn test_pop_word() {
    let mut query = "SELECT * FROM users".as_bytes().to_vec();
    let word = pop_word(&mut query);
    assert_eq!(word, "SELECT".as_bytes().to_vec());
    assert_eq!(query, "* FROM users".as_bytes().to_vec());
}

#[test]
fn parse_query_source() {
    let query_str = "FROM users";
    let mut query = query_str.as_bytes().to_vec();
    let query_source = QuerySource::from(&mut query);
    match query_source {
        QuerySource::Table(table) => {
            assert_eq!(table, "users".as_bytes().to_vec());
        }
        _ => {
            panic!("Invalid query source");
        }
    }
}

#[test]
fn parse_select_query() {
    let mut text = "SELECT FROM users".as_bytes().to_vec();
    let query = Query::from(&mut text);
    match query {
        Query::Select(query_source, _scope) => match query_source {
            QuerySource::Table(table) => {
                assert_eq!(table, "users".as_bytes().to_vec());
            }
            _ => {
                panic!("Invalid query source");
            }
        },
        _ => {
            panic!("Invalid query");
        }
    }
}

#[test]
fn parse_insert_query() {
    let mut text = "INSERT INTO users (id, account_id) VALUES (1,2) (3,4)"
        .as_bytes()
        .to_vec();
    let query = Query::from(&mut text);
    println!("{:?}", query);
    match query {
        Query::Insert(query_source, column_list, data) => {
            match query_source {
                QuerySource::IntoTable(table) => {
                    assert_eq!(table, "users".as_bytes().to_vec());
                }
                _ => {
                    panic!("Invalid query source");
                }
            }
            match column_list {
                ColumnList::Columns(columns) => {
                    let expected: Vec<Vec<u8>> =
                        vec!["id".as_bytes().to_vec(), "account_id".as_bytes().to_vec()];
                    assert_eq!(columns, expected);
                }
                _ => {
                    panic!("Invalid columns");
                }
            }
            match data {
                ValueList::Values(data) => {
                    let expected: Vec<Vec<Vec<u8>>> = vec![
                        vec!["1".as_bytes().to_vec(), "2".as_bytes().to_vec()],
                        vec!["3".as_bytes().to_vec(), "4".as_bytes().to_vec()],
                    ];
                    assert_eq!(data, expected)
                }
                _ => {
                    panic!("Invalid data");
                }
            }
        }
        _ => {
            panic!("Invalid query");
        }
    }
}

#[test]
fn pop_parenthesized_group() {
    let mut query = "(id, account_id) VALUES (1,2)".as_bytes().to_vec();
    let group = pop_string_inside_parenthesis(&mut query);
    assert_eq!(group, "id, account_id".as_bytes().to_vec());
    assert_eq!(query, " VALUES (1,2)".as_bytes().to_vec());
}

#[test]
fn column_list_requires_trailing_space() {
    // The byte right after the column group is not a space, so the
    // list is invalid; the offending byte is still consumed.
    let mut query = "(id)X tail".as_bytes().to_vec();
    let columns = ColumnList::from(&mut query);
    assert!(matches!(columns, ColumnList::Invalid));
    assert_eq!(query, " tail".as_bytes().to_vec());
}

#[test]
fn value_list_trims_whitespace() {
    let mut query = "VALUES ( 7 ,  8 ) (9,10)".as_bytes().to_vec();
    let values = ValueList::from(&mut query);
    match values {
        ValueList::Values(rows) => {
            let expected: Vec<Vec<Vec<u8>>> = vec![
                vec!["7".as_bytes().to_vec(), "8".as_bytes().to_vec()],
                vec!["9".as_bytes().to_vec(), "10".as_bytes().to_vec()],
            ];
            assert_eq!(rows, expected);
        }
        _ => panic!("Invalid data"),
    }
}

#[test]
fn value_list_rejects_other_keyword() {
    let mut query = "VALUE (1,2)".as_bytes().to_vec();
    let values = ValueList::from(&mut query);
    assert!(matches!(values, ValueList::Invalid));
}
