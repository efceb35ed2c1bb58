//! The rows of the two snapshot files of a measurement, and their
//! encoding. A file is always made whole, from the first row to the last.

use crate::columnar::{columnar_accepts, columnar_bytes, encode_rows, rows_view, texts, Row};
use crate::error::SyncError;
use crate::layout::Table;
use crate::tagset::{pair_count, well_formed, TagEntry, TagSet, Tags};
use vstd::prelude::*;

verus! {

/// The schema of every tags file: measurement, tag key, tag value.
pub const TAGS_SCHEMA: &'static str =
    "message schema { REQUIRED BINARY measurement (UTF8); REQUIRED BINARY tag (UTF8); REQUIRED BINARY value (UTF8); }";

/// The schema of every fields file: measurement, field key.
pub const FIELDS_SCHEMA: &'static str =
    "message schema { REQUIRED BINARY measurement (UTF8); REQUIRED BINARY value (UTF8); }";

/// The schema that all files of a table share.
pub open spec fn spec_schema(table: Table) -> Seq<char> {
    match table {
        Table::Tags => TAGS_SCHEMA@,
        Table::Fields => FIELDS_SCHEMA@,
    }
}

/// The schema that all files of a table share.
pub fn schema(table: Table) -> (text: &'static str)
    ensures
        text@ == spec_schema(table),
{
    match table {
        Table::Tags => TAGS_SCHEMA,
        Table::Fields => FIELDS_SCHEMA,
    }
}

/// The row of one tag value.
pub open spec fn tag_row(measurement: Seq<char>, key: Seq<char>, value: Seq<char>) -> Row {
    seq![measurement, key, value]
}

/// The row of one field key.
pub open spec fn field_row(measurement: Seq<char>, field: Seq<char>) -> Row {
    seq![measurement, field]
}

/// The rows of one tag key: one for each of its values, in their order.
pub open spec fn entry_rows(measurement: Seq<char>, entry: (Seq<char>, Seq<Seq<char>>)) -> Seq<Row> {
    entry.1.map_values(|value: Seq<char>| tag_row(measurement, entry.0, value))
}

/// The rows of a tags file: the rows of each key, key after key.
pub open spec fn tag_rows(measurement: Seq<char>, tags: Tags) -> Seq<Row> {
    tags.map_values(|entry: (Seq<char>, Seq<Seq<char>>)| entry_rows(measurement, entry)).flatten()
}

/// The rows of a fields file: one for each field key, in their order.
pub open spec fn field_rows(measurement: Seq<char>, fields: Seq<Seq<char>>) -> Seq<Row> {
    fields.map_values(|field: Seq<char>| field_row(measurement, field))
}

/// The rows of a tag set are those of all keys but the last, then those
/// of the last.
pub proof fn lemma_tag_rows_step(measurement: Seq<char>, tags: Tags)
    requires
        tags.len() > 0,
    ensures
        tag_rows(measurement, tags) == tag_rows(measurement, tags.drop_last()) + entry_rows(
            measurement,
            tags.last(),
        ),
{
    let rows_of = |entry: (Seq<char>, Seq<Seq<char>>)| entry_rows(measurement, entry);
    assert(tags.map_values(rows_of) =~= tags.drop_last().map_values(rows_of).push(
        rows_of(tags.last()),
    ));
    tags.drop_last().map_values(rows_of).lemma_flatten_push(rows_of(tags.last()));
}

/// A tags file has one row for each (key, value) pair.
pub proof fn lemma_tag_rows_len(measurement: Seq<char>, tags: Tags)
    ensures
        tag_rows(measurement, tags).len() == pair_count(tags),
    decreases tags.len(),
{
    if tags.len() > 0 {
        lemma_tag_rows_step(measurement, tags);
        lemma_tag_rows_len(measurement, tags.drop_last());
    }
}

/// Every row of a tags file is the row of a value under its key.
pub proof fn lemma_tag_rows_sound(measurement: Seq<char>, tags: Tags, r: int)
    requires
        0 <= r < tag_rows(measurement, tags).len(),
    ensures
        exists|i: int, j: int|
            0 <= i < tags.len() && 0 <= j < tags[i].1.len() && tag_rows(measurement, tags)[r]
                == #[trigger] tag_row(measurement, tags[i].0, tags[i].1[j]),
    decreases tags.len(),
{
    lemma_tag_rows_step(measurement, tags);
    let init = tags.drop_last();
    let before = tag_rows(measurement, init);
    if r < before.len() {
        lemma_tag_rows_sound(measurement, init, r);
        let (i, j) = choose|i: int, j: int|
            0 <= i < init.len() && 0 <= j < init[i].1.len() && before[r] == #[trigger] tag_row(
                measurement,
                init[i].0,
                init[i].1[j],
            );
        assert(tags[i] == init[i]);
        assert(tag_rows(measurement, tags)[r] == tag_row(measurement, tags[i].0, tags[i].1[j]));
    } else {
        let i = tags.len() - 1;
        let j = r - before.len();
        assert(tag_rows(measurement, tags)[r] == tag_row(measurement, tags[i].0, tags[i].1[j]));
    }
}

/// Every value under a key has its row in the tags file.
pub proof fn lemma_tag_rows_complete(measurement: Seq<char>, tags: Tags, i: int, j: int)
    requires
        0 <= i < tags.len(),
        0 <= j < tags[i].1.len(),
    ensures
        tag_rows(measurement, tags).contains(tag_row(measurement, tags[i].0, tags[i].1[j])),
    decreases tags.len(),
{
    lemma_tag_rows_step(measurement, tags);
    let init = tags.drop_last();
    let before = tag_rows(measurement, init);
    let row = tag_row(measurement, tags[i].0, tags[i].1[j]);
    if i < init.len() {
        assert(tags[i] == init[i]);
        lemma_tag_rows_complete(measurement, init, i, j);
        let r = choose|r: int| 0 <= r < before.len() && before[r] == row;
        assert(tag_rows(measurement, tags)[r] == row);
    } else {
        assert(tag_rows(measurement, tags)[before.len() + j] == row);
    }
}

/// In the tags file of a well-formed tag set no row occurs twice: each
/// combination of measurement, key and value is there exactly once.
pub proof fn lemma_tag_rows_distinct(measurement: Seq<char>, tags: Tags)
    requires
        well_formed(tags),
    ensures
        tag_rows(measurement, tags).no_duplicates(),
    decreases tags.len(),
{
    if tags.len() > 0 {
        lemma_tag_rows_step(measurement, tags);
        let init = tags.drop_last();
        let last = tags.last();
        assert(well_formed(init)) by {
            assert forall|i: int| 0 <= i < init.len() implies #[trigger] init[i] == tags[i] by {}
            assert forall|i: int, j: int| 0 <= i < j < init.len() implies (#[trigger] init[i]).0 != (
            #[trigger] init[j]).0 by {
                assert(tags[i].0 != tags[j].0);
            }
            assert forall|i: int| 0 <= i < init.len() implies (#[trigger] init[i]).1.no_duplicates() by {
                assert(tags[i].1.no_duplicates());
            }
        }
        lemma_tag_rows_distinct(measurement, init);
        let before = tag_rows(measurement, init);
        let added = entry_rows(measurement, last);
        let all = tag_rows(measurement, tags);
        assert(tags[tags.len() - 1].1.no_duplicates());
        assert forall|a: int, b: int| 0 <= a < all.len() && 0 <= b < all.len() && a != b implies all[a]
            != all[b] by {
            if a < before.len() && b < before.len() {
                assert(before[a] != before[b]);
            } else if a >= before.len() && b >= before.len() {
                let x = a - before.len();
                let y = b - before.len();
                assert(last.1[x] != last.1[y]);
                assert(all[a][2] == last.1[x]);
                assert(all[b][2] == last.1[y]);
            } else {
                let (old_row, new_row) = if a < before.len() {
                    (a, b)
                } else {
                    (b, a)
                };
                lemma_tag_rows_sound(measurement, init, old_row);
                let (i, j) = choose|i: int, j: int|
                    0 <= i < init.len() && 0 <= j < init[i].1.len() && before[old_row]
                        == #[trigger] tag_row(measurement, init[i].0, init[i].1[j]);
                assert(tags[i].0 != tags[tags.len() - 1].0);
                assert(all[old_row][1] == tags[i].0);
                assert(all[new_row][1] == last.0);
            }
        }
    }
}

/// A fields file has one row for each field key.
pub proof fn lemma_field_rows_len(measurement: Seq<char>, fields: Seq<Seq<char>>)
    ensures
        field_rows(measurement, fields).len() == fields.len(),
        forall|i: int|
            0 <= i < fields.len() ==> #[trigger] field_rows(measurement, fields)[i] == field_row(
                measurement,
                fields[i],
            ),
{
}

/// Every row of the two files of a measurement names the measurement in
/// its first column; a tags row has three cells, a fields row two.
pub proof fn lemma_rows_name_measurement(
    measurement: Seq<char>,
    tags: Tags,
    fields: Seq<Seq<char>>,
)
    ensures
        forall|r: int|
            0 <= r < tag_rows(measurement, tags).len() ==> (#[trigger] tag_rows(
                measurement,
                tags,
            )[r]).len() == 3 && tag_rows(measurement, tags)[r][0] == measurement,
        forall|r: int|
            0 <= r < field_rows(measurement, fields).len() ==> (#[trigger] field_rows(
                measurement,
                fields,
            )[r]).len() == 2 && field_rows(measurement, fields)[r][0] == measurement,
{
    assert forall|r: int| 0 <= r < tag_rows(measurement, tags).len() implies (#[trigger] tag_rows(
        measurement,
        tags,
    )[r]).len() == 3 && tag_rows(measurement, tags)[r][0] == measurement by {
        lemma_tag_rows_sound(measurement, tags, r);
    }
}

/// The cells of one tag row.
fn tag_cells(measurement: &str, key: &String, value: &String) -> (cells: Vec<String>)
    ensures
        texts(cells@) == tag_row(measurement@, key@, value@),
{
    let mut cells: Vec<String> = Vec::new();
    cells.push(String::from_str(measurement));
    cells.push(key.clone());
    cells.push(value.clone());
    assert(texts(cells@) =~= tag_row(measurement@, key@, value@));
    cells
}

/// The cells of one field row.
fn field_cells(measurement: &str, field: &String) -> (cells: Vec<String>)
    ensures
        texts(cells@) == field_row(measurement@, field@),
{
    let mut cells: Vec<String> = Vec::new();
    cells.push(String::from_str(measurement));
    cells.push(field.clone());
    assert(texts(cells@) =~= field_row(measurement@, field@));
    cells
}

/// The rows of the tags file of a measurement, as cells: one row for
/// each value of each key.
pub fn tag_cell_rows(measurement: &str, tags: &TagSet) -> (rows: Vec<Vec<String>>)
    ensures
        rows_view(rows@) == tag_rows(measurement@, tags@),
{
    let entries = tags.entries();
    let mut rows: Vec<Vec<String>> = Vec::new();
    let mut i: usize = 0;
    assert(tags@.take(0) =~= Seq::empty());
    assert(tag_rows(measurement@, Seq::empty()) =~= Seq::empty());
    assert(rows_view(rows@) =~= Seq::empty());
    while i < entries.len()
        invariant
            i <= entries.len(),
            entries@.map_values(|entry: TagEntry| entry@) == tags@,
            rows_view(rows@) == tag_rows(measurement@, tags@.take(i as int)),
        decreases entries.len() - i,
    {
        let entry = &entries[i];
        let values = entry.values();
        let ghost done = tag_rows(measurement@, tags@.take(i as int));
        assert(entry@ == tags@[i as int]);
        let mut j: usize = 0;
        assert(entry_rows(measurement@, (entry@.0, entry@.1.take(0))) =~= Seq::empty());
        while j < values.len()
            invariant
                j <= values.len(),
                texts(values@) == entry@.1,
                rows_view(rows@) == done + entry_rows(
                    measurement@,
                    (entry@.0, entry@.1.take(j as int)),
                ),
            decreases values.len() - j,
        {
            let ghost before = rows@;
            rows.push(tag_cells(measurement, entry.key(), &values[j]));
            proof {
                assert(texts(values@)[j as int] == values@[j as int]@);
                assert(rows_view(rows@) =~= rows_view(before).push(
                    tag_row(measurement@, entry@.0, entry@.1[j as int]),
                ));
                assert(entry_rows(measurement@, (entry@.0, entry@.1.take(j + 1))) =~= entry_rows(
                    measurement@,
                    (entry@.0, entry@.1.take(j as int)),
                ).push(tag_row(measurement@, entry@.0, entry@.1[j as int])));
            }
            j += 1;
        }
        proof {
            assert(entry@.1.take(values.len() as int) =~= entry@.1);
            assert(tags@.take(i + 1).drop_last() =~= tags@.take(i as int));
            lemma_tag_rows_step(measurement@, tags@.take(i + 1));
        }
        i += 1;
    }
    assert(tags@.take(entries.len() as int) =~= tags@);
    rows
}

/// The rows of the fields file of a measurement, as cells: one row for
/// each field key, repeated keys included.
pub fn field_cell_rows(measurement: &str, fields: &Vec<String>) -> (rows: Vec<Vec<String>>)
    ensures
        rows_view(rows@) == field_rows(measurement@, texts(fields@)),
{
    let mut rows: Vec<Vec<String>> = Vec::new();
    let mut i: usize = 0;
    assert(rows_view(rows@) =~= field_rows(measurement@, texts(fields@).take(0)));
    while i < fields.len()
        invariant
            i <= fields.len(),
            rows_view(rows@) == field_rows(measurement@, texts(fields@).take(i as int)),
        decreases fields.len() - i,
    {
        let ghost before = rows@;
        rows.push(field_cells(measurement, &fields[i]));
        proof {
            assert(rows_view(rows@) =~= rows_view(before).push(
                field_row(measurement@, fields@[i as int]@),
            ));
            assert(field_rows(measurement@, texts(fields@).take(i + 1)) =~= field_rows(
                measurement@,
                texts(fields@).take(i as int),
            ).push(field_row(measurement@, fields@[i as int]@)));
        }
        i += 1;
    }
    assert(texts(fields@).take(fields.len() as int) =~= texts(fields@));
    rows
}

/// Encodes the tags file of a measurement: under the tags schema, one
/// row for each value of each key. The result is the whole file. There
/// is a file exactly where the encoder accepts the schema and the rows.
pub fn write_tag_file(measurement: &str, tags: &TagSet) -> (file: Result<Vec<u8>, SyncError>)
    ensures
        file is Ok <==> columnar_accepts(spec_schema(Table::Tags), tag_rows(measurement@, tags@)),
        file is Ok ==> file->Ok_0@ == columnar_bytes(
            spec_schema(Table::Tags),
            tag_rows(measurement@, tags@),
        ),
        file is Err ==> file->Err_0 is FileIo,
{
    let rows = tag_cell_rows(measurement, tags);
    encode_rows(TAGS_SCHEMA, &rows)
}

/// Encodes the fields file of a measurement: under the fields schema,
/// one row for each field key, repeated keys included. The result is the
/// whole file. There is a file exactly where the encoder accepts the
/// schema and the rows.
pub fn write_field_file(measurement: &str, fields: &Vec<String>) -> (file: Result<
    Vec<u8>,
    SyncError,
>)
    ensures
        file is Ok <==> columnar_accepts(
            spec_schema(Table::Fields),
            field_rows(measurement@, texts(fields@)),
        ),
        file is Ok ==> file->Ok_0@ == columnar_bytes(
            spec_schema(Table::Fields),
            field_rows(measurement@, texts(fields@)),
        ),
        file is Err ==> file->Err_0 is FileIo,
{
    let rows = field_cell_rows(measurement, fields);
    encode_rows(FIELDS_SCHEMA, &rows)
}

} // verus!
