use bytes::Bytes;
use parquet::file::reader::{FileReader, SerializedFileReader};
use parquet::record::RowAccessor;
use schema_mirror::columnar::{encode_rows, settle};
use schema_mirror::error::SyncError;
use schema_mirror::layout::Table;
use schema_mirror::storage::{
    field_cell_rows, schema, tag_cell_rows, write_field_file, write_tag_file, FIELDS_SCHEMA,
    TAGS_SCHEMA,
};
use schema_mirror::tagset::TagSet;

fn strings(items: &[&str]) -> Vec<String> {
    items.iter().map(|item| item.to_string()).collect()
}

fn read_back(file: Vec<u8>) -> (Vec<String>, Vec<Vec<String>>) {
    let reader = SerializedFileReader::new(Bytes::from(file)).unwrap();
    let columns: Vec<String> = reader
        .metadata()
        .file_metadata()
        .schema_descr()
        .columns()
        .iter()
        .map(|column| column.name().to_string())
        .collect();
    let mut rows = Vec::new();
    for row in reader.get_row_iter(None).unwrap() {
        let row = row.unwrap();
        let mut cells = Vec::new();
        for at in 0..columns.len() {
            cells.push(row.get_string(at).unwrap().clone());
        }
        rows.push(cells);
    }
    (columns, rows)
}

#[test]
fn two_keys_with_two_values_give_four_rows() {
    let tags = TagSet::new()
        .insert("host".to_string(), strings(&["a", "b"]))
        .insert("region".to_string(), strings(&["eu", "us"]));
    let (columns, rows) = read_back(write_tag_file("cpu", &tags).unwrap());
    assert_eq!(columns, strings(&["measurement", "tag", "value"]));
    assert_eq!(
        rows,
        vec![
            strings(&["cpu", "host", "a"]),
            strings(&["cpu", "host", "b"]),
            strings(&["cpu", "region", "eu"]),
            strings(&["cpu", "region", "us"]),
        ]
    );
    for key in ["host", "region"] {
        for value in ["a", "b", "eu", "us"] {
            let wanted = strings(&["cpu", key, value]);
            let expected = if (key == "host") == (value == "a" || value == "b") { 1 } else { 0 };
            assert_eq!(rows.iter().filter(|row| **row == wanted).count(), expected);
        }
    }
}

#[test]
fn empty_tag_set_gives_a_file_without_rows() {
    let (columns, rows) = read_back(write_tag_file("cpu", &TagSet::new()).unwrap());
    assert_eq!(columns, strings(&["measurement", "tag", "value"]));
    assert!(rows.is_empty());
}

#[test]
fn key_without_values_gives_no_row() {
    let tags = TagSet::new()
        .insert("host".to_string(), Vec::new())
        .insert("region".to_string(), strings(&["eu"]));
    let (_, rows) = read_back(write_tag_file("cpu", &tags).unwrap());
    assert_eq!(rows, vec![strings(&["cpu", "region", "eu"])]);
}

#[test]
fn field_keys_give_one_row_each() {
    let fields = strings(&["usage_idle", "usage_user", "usage_idle"]);
    let (columns, rows) = read_back(write_field_file("cpu", &fields).unwrap());
    assert_eq!(columns, strings(&["measurement", "value"]));
    assert_eq!(
        rows,
        vec![
            strings(&["cpu", "usage_idle"]),
            strings(&["cpu", "usage_user"]),
            strings(&["cpu", "usage_idle"]),
        ]
    );
}

#[test]
fn no_field_keys_give_a_file_without_rows() {
    let (columns, rows) = read_back(write_field_file("cpu", &Vec::new()).unwrap());
    assert_eq!(columns, strings(&["measurement", "value"]));
    assert!(rows.is_empty());
}

#[test]
fn same_input_gives_the_same_bytes() {
    let tags = TagSet::new().insert("host".to_string(), strings(&["a", "b"]));
    let again = TagSet::new().insert("host".to_string(), strings(&["a", "b"]));
    assert_eq!(write_tag_file("cpu", &tags).unwrap(), write_tag_file("cpu", &again).unwrap());
    let fields = strings(&["usage_idle"]);
    assert_eq!(write_field_file("cpu", &fields).unwrap(), write_field_file("cpu", &fields).unwrap());
}

#[test]
fn encoded_file_is_not_the_input() {
    let file = write_field_file("cpu", &strings(&["usage_idle"])).unwrap();
    assert!(file.starts_with(b"PAR1"));
    assert!(file.ends_with(b"PAR1"));
    assert_ne!(file, b"usage_idle".to_vec());
}

#[test]
fn cells_with_other_scripts_come_back_unchanged() {
    let fields = strings(&["temp\u{e9}rature", "\u{6e29}\u{5ea6}", ""]);
    let (_, rows) = read_back(write_field_file("m", &fields).unwrap());
    assert_eq!(rows.len(), 3);
    assert_eq!(rows[0][1], "temp\u{e9}rature");
    assert_eq!(rows[1][1], "\u{6e29}\u{5ea6}");
    assert_eq!(rows[2][1], "");
}

#[test]
fn schemas_belong_to_their_tables() {
    assert_eq!(schema(Table::Tags), TAGS_SCHEMA);
    assert_eq!(schema(Table::Fields), FIELDS_SCHEMA);
    assert!(TAGS_SCHEMA.contains("REQUIRED BINARY tag (UTF8)"));
    assert!(!FIELDS_SCHEMA.contains("tag"));
}

#[test]
fn encoder_refusal_becomes_a_file_failure() {
    let refused: Result<u8, parquet::errors::ParquetError> =
        Err(parquet::errors::ParquetError::General("no".to_string()));
    match settle(refused) {
        Err(SyncError::FileIo(report)) => assert!(report.contains("no")),
        other => panic!("unexpected {:?}", other),
    }
    let accepted: Result<u8, parquet::errors::ParquetError> = Ok(7);
    assert_eq!(settle(accepted), Ok(7));
}

#[test]
fn rows_are_built_key_after_key() {
    let tags = TagSet::new()
        .insert("host".to_string(), strings(&["a", "b"]))
        .insert("region".to_string(), strings(&["eu"]));
    assert_eq!(
        tag_cell_rows("cpu", &tags),
        vec![
            strings(&["cpu", "host", "a"]),
            strings(&["cpu", "host", "b"]),
            strings(&["cpu", "region", "eu"]),
        ]
    );
    assert!(tag_cell_rows("cpu", &TagSet::new()).is_empty());
    assert_eq!(
        field_cell_rows("cpu", &strings(&["x", "y"])),
        vec![strings(&["cpu", "x"]), strings(&["cpu", "y"])]
    );
    assert!(field_cell_rows("cpu", &Vec::new()).is_empty());
}

#[test]
fn rows_are_encoded_as_they_are_given() {
    let rows = vec![strings(&["m", "k", "v"]), strings(&["m", "k", "w"])];
    let (columns, read) = read_back(encode_rows(TAGS_SCHEMA, &rows).unwrap());
    assert_eq!(columns, strings(&["measurement", "tag", "value"]));
    assert_eq!(read, rows);
}

#[test]
fn row_with_a_cell_too_many_is_refused() {
    let rows = vec![strings(&["m", "k", "v"]), strings(&["m", "k", "v", "extra"])];
    assert!(matches!(encode_rows(TAGS_SCHEMA, &rows), Err(SyncError::FileIo(_))));
    let rows = vec![strings(&["m", "f", "extra"])];
    assert!(matches!(encode_rows(FIELDS_SCHEMA, &rows), Err(SyncError::FileIo(_))));
}

#[test]
fn row_with_a_cell_too_few_is_refused() {
    let rows = vec![strings(&["m", "k"])];
    assert!(matches!(encode_rows(TAGS_SCHEMA, &rows), Err(SyncError::FileIo(_))));
    let rows = vec![Vec::new()];
    assert!(matches!(encode_rows(FIELDS_SCHEMA, &rows), Err(SyncError::FileIo(_))));
}

#[test]
fn column_of_another_kind_is_refused() {
    let numbers = "message schema { REQUIRED BINARY name (UTF8); REQUIRED INT32 count; }";
    let rows = vec![strings(&["m", "7"])];
    assert!(matches!(encode_rows(numbers, &rows), Err(SyncError::FileIo(_))));
    let (columns, read) = read_back(encode_rows(numbers, &Vec::new()).unwrap());
    assert_eq!(columns, strings(&["name", "count"]));
    assert!(read.is_empty());
}

#[test]
fn schema_that_cannot_be_read_is_refused() {
    assert!(matches!(encode_rows("not a schema", &Vec::new()), Err(SyncError::FileIo(_))));
}
