use schema_mirror::layout::{sanitize, Table, FILE_EXTENSION};

#[test]
fn quoted_name_is_cleaned() {
    assert_eq!(sanitize("\"cpu\""), "cpu");
}

#[test]
fn quotes_inside_a_name_are_removed_too() {
    assert_eq!(sanitize("a\"b\"\"c"), "abc");
    assert_eq!(sanitize("\"\""), "");
}

#[test]
fn plain_name_is_unchanged() {
    assert_eq!(sanitize("disk_io"), "disk_io");
    assert_eq!(sanitize(""), "");
    assert_eq!(sanitize("temp\u{e9}rature"), "temp\u{e9}rature");
}

#[test]
fn cleaning_twice_is_cleaning_once() {
    let once = sanitize("\"c\"pu\"");
    assert_eq!(sanitize(&once), once);
}

#[test]
fn quoted_name_gives_plain_file_names() {
    let clean = sanitize("\"cpu\"");
    let tags = Table::Tags.file_name(&clean);
    let fields = Table::Fields.file_name(&clean);
    assert_eq!(tags, "cpu_tags.parquet");
    assert_eq!(fields, "cpu_fields.parquet");
    assert!(!tags.contains('"'));
    assert!(!fields.contains('"'));
}

#[test]
fn tables_are_named_like_their_directories() {
    assert_eq!(Table::Tags.name(), "tags");
    assert_eq!(Table::Fields.name(), "fields");
    assert_eq!(Table::Tags.suffix(), "_tags.parquet");
    assert_eq!(Table::Fields.suffix(), "_fields.parquet");
    assert_eq!(FILE_EXTENSION, ".parquet");
    assert!(Table::Tags.suffix().ends_with(FILE_EXTENSION));
    assert!(Table::Fields.suffix().ends_with(FILE_EXTENSION));
}
