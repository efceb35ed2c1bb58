use bytes::Bytes;
use parquet::file::reader::{FileReader, SerializedFileReader};
use parquet::record::RowAccessor;
use schema_mirror::error::{Malformation, SyncError, SyncOutcome};
use schema_mirror::json::{Json, Member};
use schema_mirror::layout::Table;
use schema_mirror::task::{file_step, start, Awaited, FileWrite, TaskStep};

fn named(name: &str, value: Json) -> Member {
    Member { name: name.to_string(), value }
}

fn row(cells: &[&str]) -> Json {
    Json::Array(cells.iter().map(|cell| Json::Text(cell.to_string())).collect())
}

fn answer(rows: Vec<Json>) -> Result<Vec<Json>, String> {
    Ok(vec![Json::Object(vec![named(
        "series",
        Json::Array(vec![Json::Object(vec![named("values", Json::Array(rows))])]),
    )])])
}

fn no_series() -> Result<Vec<Json>, String> {
    Ok(vec![Json::Object(Vec::new())])
}

fn source(query: &str) -> Result<Vec<Json>, String> {
    match query {
        "show tag keys from cpu" => answer(vec![row(&["host"]), row(&["region"])]),
        "show tag values from cpu with key = \"host\"" => {
            answer(vec![row(&["host", "a"]), row(&["host", "b"])])
        }
        "show tag values from cpu with key = \"region\"" => {
            answer(vec![row(&["region", "eu"]), row(&["region", "us"])])
        }
        "show field keys from cpu" => {
            answer(vec![row(&["usage_idle", "float"]), row(&["usage_user", "float"])])
        }
        "show tag keys from mem" => no_series(),
        "show field keys from mem" => no_series(),
        "show tag keys from disk" => answer(vec![row(&["path"])]),
        "show tag values from disk with key = \"path\"" => Err("timed out".to_string()),
        _ => Err(format!("unexpected query: {query}")),
    }
}

fn run(name: &str, disk: Result<(), String>) -> (Vec<String>, Vec<FileWrite>, SyncOutcome) {
    let mut queries = Vec::new();
    let mut writes = Vec::new();
    let mut step = start(name);
    loop {
        step = match step {
            TaskStep::Query(query, pending) => {
                let text = query.text();
                let reply = source(&text);
                queries.push(text);
                pending.reply(reply)
            }
            TaskStep::Write(write, pending) => {
                writes.push(write);
                pending.written(disk.clone())
            }
            TaskStep::Finish(outcome) => return (queries, writes, outcome),
        };
    }
}

fn rows_of(file: &[u8]) -> Vec<Vec<String>> {
    let reader = SerializedFileReader::new(Bytes::from(file.to_vec())).unwrap();
    let width = reader.metadata().file_metadata().schema_descr().num_columns();
    let mut rows = Vec::new();
    for row in reader.get_row_iter(None).unwrap() {
        let row = row.unwrap();
        rows.push((0..width).map(|at| row.get_string(at).unwrap().clone()).collect());
    }
    rows
}

fn strings(items: &[&str]) -> Vec<String> {
    items.iter().map(|item| item.to_string()).collect()
}

#[test]
fn task_fetches_everything_then_writes_both_files() {
    let (queries, writes, outcome) = run("\"cpu\"", Ok(()));
    assert_eq!(outcome, SyncOutcome::Success);
    assert_eq!(
        queries,
        strings(&[
            "show tag keys from cpu",
            "show tag values from cpu with key = \"host\"",
            "show tag values from cpu with key = \"region\"",
            "show field keys from cpu",
        ])
    );
    assert_eq!(writes.len(), 2);
    assert_eq!(writes[0].table, Table::Tags);
    assert_eq!(writes[0].file, "cpu_tags.parquet");
    assert_eq!(writes[1].table, Table::Fields);
    assert_eq!(writes[1].file, "cpu_fields.parquet");
    assert_eq!(
        rows_of(&writes[0].bytes),
        vec![
            strings(&["cpu", "\"host\"", "\"a\""]),
            strings(&["cpu", "\"host\"", "\"b\""]),
            strings(&["cpu", "\"region\"", "\"eu\""]),
            strings(&["cpu", "\"region\"", "\"us\""]),
        ]
    );
    assert_eq!(
        rows_of(&writes[1].bytes),
        vec![strings(&["cpu", "\"usage_idle\""]), strings(&["cpu", "\"usage_user\""])]
    );
}

#[test]
fn quoted_name_never_reaches_a_file_name() {
    let (_, writes, _) = run("\"cpu\"", Ok(()));
    for write in &writes {
        assert!(!write.file.contains('"'));
    }
}

#[test]
fn measurement_without_tags_and_fields_gets_two_empty_files() {
    let (queries, writes, outcome) = run("mem", Ok(()));
    assert_eq!(outcome, SyncOutcome::Success);
    assert_eq!(queries, strings(&["show tag keys from mem", "show field keys from mem"]));
    assert_eq!(writes.len(), 2);
    assert_eq!(writes[0].file, "mem_tags.parquet");
    assert!(rows_of(&writes[0].bytes).is_empty());
    assert_eq!(writes[1].file, "mem_fields.parquet");
    assert!(rows_of(&writes[1].bytes).is_empty());
}

#[test]
fn failed_fetch_ends_the_task_before_any_write() {
    let (queries, writes, outcome) = run("disk", Ok(()));
    assert_eq!(outcome, SyncOutcome::Failed(SyncError::Network("timed out".to_string())));
    assert_eq!(queries.len(), 2);
    assert!(writes.is_empty());
}

#[test]
fn malformed_answer_ends_the_task_before_any_write() {
    let step = match start("cpu") {
        TaskStep::Query(_, pending) => pending.reply(Ok(Vec::new())),
        _ => panic!("a task begins with a query"),
    };
    match step {
        TaskStep::Finish(outcome) => assert_eq!(
            outcome,
            SyncOutcome::Failed(SyncError::MalformedResponse(Malformation::NoResult))
        ),
        _ => panic!("a malformed answer ends the task"),
    }
}

#[test]
fn failed_write_of_the_tags_file_ends_the_task() {
    let (_, writes, outcome) = run("cpu", Err("read-only file system".to_string()));
    assert_eq!(
        outcome,
        SyncOutcome::Failed(SyncError::FileIo("read-only file system".to_string()))
    );
    assert_eq!(writes.len(), 1);
    assert_eq!(writes[0].table, Table::Tags);
}

#[test]
fn failed_write_of_the_fields_file_ends_the_task() {
    let mut step = start("cpu");
    let mut written = 0;
    let outcome = loop {
        step = match step {
            TaskStep::Query(query, pending) => pending.reply(source(&query.text())),
            TaskStep::Write(write, pending) => {
                written += 1;
                if write.table == Table::Fields {
                    pending.written(Err("disk full".to_string()))
                } else {
                    pending.written(Ok(()))
                }
            }
            TaskStep::Finish(outcome) => break outcome,
        };
    };
    assert_eq!(written, 2);
    assert_eq!(outcome, SyncOutcome::Failed(SyncError::FileIo("disk full".to_string())));
}

#[test]
fn same_source_gives_the_same_files_again() {
    let (_, first, _) = run("cpu", Ok(()));
    let (_, second, _) = run("cpu", Ok(()));
    assert_eq!(first.len(), second.len());
    for (a, b) in first.iter().zip(second.iter()) {
        assert_eq!(a.file, b.file);
        assert_eq!(a.bytes, b.bytes);
    }
}

#[test]
fn refused_encoding_ends_the_task_before_any_write() {
    let refused = || Err(SyncError::FileIo("refused".to_string()));
    match file_step("cpu".to_string(), refused(), Ok(vec![1])) {
        TaskStep::Finish(outcome) => {
            assert_eq!(outcome, SyncOutcome::Failed(SyncError::FileIo("refused".to_string())))
        }
        _ => panic!("a refused tags file ends the task"),
    }
    match file_step("cpu".to_string(), Ok(vec![1]), refused()) {
        TaskStep::Finish(outcome) => {
            assert_eq!(outcome, SyncOutcome::Failed(SyncError::FileIo("refused".to_string())))
        }
        _ => panic!("a refused fields file ends the task"),
    }
    let first = Err(SyncError::FileIo("tags".to_string()));
    let second = Err(SyncError::FileIo("fields".to_string()));
    match file_step("cpu".to_string(), first, second) {
        TaskStep::Finish(outcome) => {
            assert_eq!(outcome, SyncOutcome::Failed(SyncError::FileIo("tags".to_string())))
        }
        _ => panic!("a refusal ends the task"),
    }
}

#[test]
fn accepted_encodings_are_written_under_the_name_of_the_measurement() {
    match file_step("cpu".to_string(), Ok(vec![1, 2, 3]), Ok(vec![4, 5])) {
        TaskStep::Write(write, pending) => {
            assert_eq!(write.table, Table::Tags);
            assert_eq!(write.file, "cpu_tags.parquet");
            assert_eq!(write.bytes, vec![1, 2, 3]);
            match pending.written(Ok(())) {
                TaskStep::Write(write, pending) => {
                    assert_eq!(write.table, Table::Fields);
                    assert_eq!(write.file, "cpu_fields.parquet");
                    assert_eq!(write.bytes, vec![4, 5]);
                    match pending.written(Ok(())) {
                        TaskStep::Finish(outcome) => assert_eq!(outcome, SyncOutcome::Success),
                        _ => panic!("the fields file is the last"),
                    }
                }
                _ => panic!("the fields file follows the tags file"),
            }
        }
        _ => panic!("accepted bytes are written"),
    }
}

#[test]
fn awaited_lists_name_their_column() {
    assert_eq!(Awaited::TagKeys.column(), 0);
    assert_eq!(Awaited::TagValues.column(), 1);
    assert_eq!(Awaited::FieldKeys.column(), 0);
}
