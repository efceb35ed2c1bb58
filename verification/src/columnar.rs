//! The columnar encoder: a file writer that takes rows of text cells, one
//! at a time, and hands back the bytes of the finished file.

use crate::error::SyncError;
use parquet::column::writer::ColumnWriter;
use parquet::data_type::ByteArray;
use parquet::errors::ParquetError;
use parquet::file::properties::WriterProperties;
use parquet::file::writer::SerializedFileWriter;
use parquet::schema::parser::parse_message_type;
use std::sync::Arc;
use vstd::prelude::*;

verus! {

/// A row of a snapshot file: its cells, in the order of the columns.
pub type Row = Seq<Seq<char>>;

/// A list of strings as the contracts see it.
pub open spec fn texts(strings: Seq<String>) -> Seq<Seq<char>> {
    strings.map_values(|s: String| s@)
}

/// The encoder's file writer, a `SerializedFileWriter` over a buffer in
/// memory. What it holds is known only by `writer_schema` and
/// `writer_rows`, and only the three functions below touch it.
#[verifier::external_body]
pub struct RowWriter {
    inner: SerializedFileWriter<Vec<u8>>,
}

/// The encoder's error type, `parquet::errors::ParquetError`: carried
/// from a refusal to `settle`, never looked into.
#[verifier::external_type_specification]
#[verifier::external_body]
pub struct ExParquetError(ParquetError);

/// The schema text that a file writer was opened with.
pub uninterp spec fn writer_schema(writer: RowWriter) -> Seq<char>;

/// The rows in the row groups that a file writer has written, in their
/// order.
pub uninterp spec fn writer_rows(writer: RowWriter) -> Seq<Row>;

/// Whether the encoder opens a file for a schema text.
pub uninterp spec fn schema_accepted(schema: Seq<char>) -> bool;

/// Whether the encoder, in a file of this schema that holds these rows,
/// writes this row after them.
pub uninterp spec fn row_accepted(schema: Seq<char>, rows: Seq<Row>, row: Row) -> bool;

/// Whether the encoder ends a file of this schema that holds these rows.
pub uninterp spec fn file_accepted(schema: Seq<char>, rows: Seq<Row>) -> bool;

/// The bytes of the file that the encoder produces for a schema text and
/// rows, each row in a row group of its own.
pub uninterp spec fn columnar_bytes(schema: Seq<char>, rows: Seq<Row>) -> Seq<u8>;

/// Whether the encoder makes a file of these rows under this schema: it
/// opens the file, writes each row after those before it, and ends the
/// file.
pub open spec fn columnar_accepts(schema: Seq<char>, rows: Seq<Row>) -> bool {
    &&& schema_accepted(schema)
    &&& forall|i: int| 0 <= i < rows.len() ==> row_accepted(schema, rows.take(i), #[trigger] rows[i])
    &&& file_accepted(schema, rows)
}

/// Rows of cells as the contracts see them.
pub open spec fn rows_view(rows: Seq<Vec<String>>) -> Seq<Row> {
    rows.map_values(|cells: Vec<String>| texts(cells@))
}

/// Opens a writer over an empty buffer: `parse_message_type` reads the
/// schema text, `SerializedFileWriter::new` starts the file with default
/// properties. Whether both accept depends on the text alone; where they
/// do, the writer holds no row yet.
#[verifier::external_body]
pub(crate) fn open_writer(schema: &str) -> (r: Result<RowWriter, ParquetError>)
    ensures
        r is Ok <==> schema_accepted(schema@),
        r is Ok ==> writer_schema(r->Ok_0) == schema@ && writer_rows(r->Ok_0) == Seq::<Row>::empty(),
{
    let message = Arc::new(parse_message_type(schema)?);
    let properties = Arc::new(WriterProperties::builder().build());
    Ok(RowWriter { inner: SerializedFileWriter::new(Vec::new(), message, properties)? })
}

/// Writes one row as a row group of its own: `next_row_group`, then for
/// each cell `next_column`, `write_batch` of the one value and `close`,
/// then `close` of the row group. A cell without a column, or with a
/// column that holds no byte strings, is a refusal, as is a column
/// without a cell, which `close` refuses. So the writer comes back only
/// where the whole row was written, and then the row follows those that
/// the writer held. Whether it is refused depends on the schema, the rows
/// held and the row.
#[verifier::external_body]
pub(crate) fn append_row(writer: RowWriter, cells: &Vec<String>) -> (r: Result<
    RowWriter,
    ParquetError,
>)
    ensures
        r is Ok <==> row_accepted(writer_schema(writer), writer_rows(writer), texts(cells@)),
        r is Ok ==> writer_schema(r->Ok_0) == writer_schema(writer) && writer_rows(r->Ok_0)
            == writer_rows(writer).push(texts(cells@)),
{
    let mut writer = writer;
    let mut group = writer.inner.next_row_group()?;
    for cell in cells.iter() {
        let Some(mut column) = group.next_column()? else {
            return Err(ParquetError::General("a cell without a column".to_string()));
        };
        let ColumnWriter::ByteArrayColumnWriter(typed) = column.untyped() else {
            return Err(ParquetError::General("a column that holds no byte strings".to_string()));
        };
        typed.write_batch(&[ByteArray::from(cell.as_str())], None, None)?;
        column.close()?;
    }
    group.close()?;
    Ok(writer)
}

/// Ends the file with `SerializedFileWriter::into_inner`, which writes
/// the footer and gives the buffer back. Whether it accepts depends on
/// the schema and the rows held; where it does, the buffer is the file
/// for them.
#[verifier::external_body]
pub(crate) fn finish_writer(writer: RowWriter) -> (r: Result<Vec<u8>, ParquetError>)
    ensures
        r is Ok <==> file_accepted(writer_schema(writer), writer_rows(writer)),
        r is Ok ==> r->Ok_0@ == columnar_bytes(writer_schema(writer), writer_rows(writer)),
{
    writer.inner.into_inner()
}

/// The encoder's report of a refusal, by `ParquetError`'s `to_string`.
#[verifier::external_body]
pub(crate) fn describe(error: &ParquetError) -> String {
    error.to_string()
}

/// Turns a refusal of the encoder into the library's own error and
/// leaves an accepted value as it is.
pub fn settle<T>(outcome: Result<T, ParquetError>) -> (r: Result<T, SyncError>)
    ensures
        outcome is Ok ==> r == Ok::<T, SyncError>(outcome->Ok_0),
        outcome is Err ==> r is Err && r->Err_0 is FileIo,
        r is Ok <==> outcome is Ok,
{
    match outcome {
        Ok(value) => Ok(value),
        Err(error) => Err(SyncError::FileIo(describe(&error))),
    }
}

/// Encodes rows of text cells under a schema, each row in a row group of
/// its own. The result is the whole file; where the encoder refuses the
/// schema, a row or the end of the file, there is no file.
pub fn encode_rows(schema: &str, rows: &Vec<Vec<String>>) -> (file: Result<Vec<u8>, SyncError>)
    ensures
        file is Ok <==> columnar_accepts(schema@, rows_view(rows@)),
        file is Ok ==> file->Ok_0@ == columnar_bytes(schema@, rows_view(rows@)),
        file is Err ==> file->Err_0 is FileIo,
{
    let ghost all = rows_view(rows@);
    let mut writer = match settle(open_writer(schema)) {
        Ok(writer) => writer,
        Err(error) => { return Err(error); },
    };
    let mut i: usize = 0;
    assert(all.take(0) =~= Seq::empty());
    while i < rows.len()
        invariant
            i <= rows.len(),
            all == rows_view(rows@),
            schema_accepted(schema@),
            writer_schema(writer) == schema@,
            writer_rows(writer) == all.take(i as int),
            forall|k: int| 0 <= k < i ==> row_accepted(schema@, all.take(k), #[trigger] all[k]),
        decreases rows.len() - i,
    {
        assert(all[i as int] == texts(rows@[i as int]@));
        assert(all.take(i + 1) =~= all.take(i as int).push(all[i as int]));
        writer = match settle(append_row(writer, &rows[i])) {
            Ok(writer) => writer,
            Err(error) => { return Err(error); },
        };
        i += 1;
    }
    assert(all.take(rows.len() as int) =~= all);
    settle(finish_writer(writer))
}

} // verus!
