//! The refresh of one measurement, as a sequence of steps: the task says
//! what it needs next, a query answered or a file replaced, and goes on
//! from what came back. Nothing is written before all was fetched and
//! both files were encoded.

use crate::columnar::{columnar_accepts, columnar_bytes, texts};
use crate::error::{SyncError, SyncOutcome};
use crate::json::Json;
use crate::layout::{sanitize, strip_quotes, Table};
use crate::response::{listing, spec_listing, MetadataQuery};
use crate::storage::{
    field_rows, lemma_field_rows_len, lemma_rows_name_measurement, lemma_tag_rows_distinct,
    lemma_tag_rows_len, spec_schema, tag_rows, write_field_file, write_tag_file,
};
use crate::tagset::{pair_count, well_formed, with_entry, TagSet, Tags};
use vstd::prelude::*;

verus! {

/// A snapshot file to replace whole: its table, its name in the table's
/// directory, and all its bytes.
#[derive(Debug)]
pub struct FileWrite {
    pub table: Table,
    pub file: String,
    pub bytes: Vec<u8>,
}

/// What a task needs next.
pub enum TaskStep {
    /// The answer of the source to a query.
    Query(MetadataQuery, PendingQuery),
    /// A file replaced.
    Write(FileWrite, PendingWrite),
    /// Nothing more: the task is over.
    Finish(SyncOutcome),
}

/// Which list a task waits for.
#[derive(Clone, Copy, Debug, PartialEq, Eq, Structural)]
pub enum Awaited {
    TagKeys,
    TagValues,
    FieldKeys,
}

impl Awaited {
    /// The column that holds the value in the rows of the awaited list.
    pub open spec fn spec_column(self) -> int {
        match self {
            Awaited::TagValues => 1,
            _ => 0,
        }
    }

    /// The column that holds the value in the rows of the awaited list.
    pub fn column(self) -> (at: usize)
        ensures
            at == self.spec_column(),
    {
        match self {
            Awaited::TagValues => 1,
            _ => 0,
        }
    }
}

/// A task that waits for the answer to a query.
pub struct PendingQuery {
    measurement: String,
    awaited: Awaited,
    keys: Vec<String>,
    at: usize,
    tags: TagSet,
}

/// A task that waits for a file to be replaced. Both files are encoded
/// before the first is handed out; while the tags file is being replaced
/// the task holds the bytes of the fields file.
pub struct PendingWrite {
    measurement: String,
    fields_file: Option<Vec<u8>>,
}

impl PendingQuery {
    #[verifier::type_invariant]
    closed spec fn valid(&self) -> bool {
        &&& self.awaited == Awaited::TagValues ==> self.at < self.keys@.len()
        &&& well_formed(self.tags@)
    }

    /// The cleaned name of the measurement.
    pub closed spec fn measurement(&self) -> Seq<char> {
        self.measurement@
    }

    /// The list that the task waits for.
    pub closed spec fn awaited(&self) -> Awaited {
        self.awaited
    }

    /// The tag keys of the measurement, once they are known.
    pub closed spec fn keys(&self) -> Seq<Seq<char>> {
        texts(self.keys@)
    }

    /// The number of tag keys whose values are known.
    pub closed spec fn at(&self) -> nat {
        self.at as nat
    }

    /// The tags gathered so far.
    pub closed spec fn tags(&self) -> Tags {
        self.tags@
    }

    /// Whether the task waits for the values of a key that it knows.
    pub open spec fn in_step(&self) -> bool {
        self.awaited() == Awaited::TagValues ==> self.at() < self.keys().len()
    }

    /// Whether this is a task for `measurement` that waits for `awaited`
    /// with these keys, `at` of them done, and these tags.
    pub open spec fn stands_at(
        &self,
        measurement: Seq<char>,
        awaited: Awaited,
        keys: Seq<Seq<char>>,
        at: nat,
        tags: Tags,
    ) -> bool {
        &&& self.measurement() == measurement
        &&& self.awaited() == awaited
        &&& self.keys() == keys
        &&& self.at() == at
        &&& self.tags() == tags
    }

    /// Takes the answer to the query. A failure ends the task with its
    /// cause. Tag keys are followed by the values of each key in turn,
    /// and those by the field keys. Then both files are encoded: where
    /// the encoder accepts both, the tags file is handed out to be
    /// replaced; else the task ends and no file was touched.
    pub fn reply(self, reply: Result<Vec<Json>, String>) -> (step: TaskStep)
        ensures
            self.in_step(),
            well_formed(self.tags()),
            match spec_listing(self.awaited().spec_column(), reply) {
                Err(error) => step == TaskStep::Finish(SyncOutcome::Failed(error)),
                Ok(listed) => match self.awaited() {
                    Awaited::TagKeys => asks_next(
                        step,
                        self.measurement(),
                        listed,
                        0,
                        Seq::empty(),
                    ),
                    Awaited::TagValues => asks_next(
                        step,
                        self.measurement(),
                        self.keys(),
                        self.at() + 1,
                        with_entry(self.tags(), self.keys()[self.at() as int], listed),
                    ),
                    Awaited::FieldKeys => writes_or_fails(
                        step,
                        self.measurement(),
                        self.tags(),
                        listed,
                    ),
                },
            },
    {
        proof {
            use_type_invariant(&self);
        }
        let listed = match listing(self.awaited.column(), reply) {
            Ok(listed) => listed,
            Err(error) => { return TaskStep::Finish(SyncOutcome::Failed(error)); },
        };
        match self.awaited {
            Awaited::TagKeys => next_query(self.measurement, listed, 0, TagSet::new()),
            Awaited::TagValues => {
                assert(self.at < self.keys.len() <= usize::MAX);
                let key = self.keys[self.at].clone();
                let tags = self.tags.insert(key, listed);
                next_query(self.measurement, self.keys, self.at + 1, tags)
            },
            Awaited::FieldKeys => {
                let tags_file = write_tag_file(self.measurement.as_str(), &self.tags);
                let fields_file = write_field_file(self.measurement.as_str(), &listed);
                file_step(self.measurement, tags_file, fields_file)
            },
        }
    }
}

impl PendingWrite {
    /// The cleaned name of the measurement.
    pub closed spec fn measurement(&self) -> Seq<char> {
        self.measurement@
    }

    /// The bytes of the fields file, while it is still to be replaced.
    pub closed spec fn fields_file(&self) -> Option<Seq<u8>> {
        match self.fields_file {
            Some(bytes) => Some(bytes@),
            None => None,
        }
    }

    /// The table whose file is being replaced: the tags table while the
    /// fields file is still to come, then the fields table.
    pub open spec fn table(&self) -> Table {
        if self.fields_file() is Some {
            Table::Tags
        } else {
            Table::Fields
        }
    }

    /// Takes the end of the write. A failure ends the task with its
    /// cause. The tags file is followed by the fields file, and that by
    /// the end of the task.
    pub fn written(self, outcome: Result<(), String>) -> (step: TaskStep)
        ensures
            follows_write(step, self, outcome),
    {
        match outcome {
            Err(report) => TaskStep::Finish(SyncOutcome::Failed(SyncError::FileIo(report))),
            Ok(_) => match self.fields_file {
                Some(bytes) => {
                    let file = Table::Fields.file_name(self.measurement.as_str());
                    TaskStep::Write(
                        FileWrite { table: Table::Fields, file, bytes },
                        PendingWrite { measurement: self.measurement, fields_file: None },
                    )
                },
                None => TaskStep::Finish(SyncOutcome::Success),
            },
        }
    }
}

/// Whether `step` asks for what follows when `at` of the `keys` are
/// done: the values of the next key, or, after the last, the field keys.
pub open spec fn asks_next(
    step: TaskStep,
    measurement: Seq<char>,
    keys: Seq<Seq<char>>,
    at: nat,
    tags: Tags,
) -> bool {
    if at < keys.len() {
        &&& step matches TaskStep::Query(MetadataQuery::TagValues(asked, key), pending)
        &&& asked@ == measurement
        &&& key@ == keys[at as int]
        &&& pending.stands_at(measurement, Awaited::TagValues, keys, at, tags)
    } else {
        &&& step matches TaskStep::Query(MetadataQuery::FieldKeys(asked), pending)
        &&& asked@ == measurement
        &&& pending.stands_at(measurement, Awaited::FieldKeys, keys, at, tags)
    }
}

/// Whether `step` is what follows the end `outcome` of the write that
/// `pending` waited for. A failure ends the task with its cause. After
/// the tags file the fields file is handed out, with the bytes that were
/// kept for it; after the fields file the task ends in success.
pub open spec fn follows_write(
    step: TaskStep,
    pending: PendingWrite,
    outcome: Result<(), String>,
) -> bool {
    match outcome {
        Err(report) => step == TaskStep::Finish(SyncOutcome::Failed(SyncError::FileIo(report))),
        Ok(_) => match pending.fields_file() {
            Some(bytes) => {
                &&& step matches TaskStep::Write(write, then)
                &&& write.table == Table::Fields
                &&& write.file@ == Table::Fields.spec_file_name(pending.measurement())
                &&& write.bytes@ == bytes
                &&& then.measurement() == pending.measurement()
                &&& then.fields_file() is None
            },
            None => step == TaskStep::Finish(SyncOutcome::Success),
        },
    }
}

/// What a sync that succeeds has done. When the tags and the field keys
/// of a measurement are gathered and both writes that follow succeed,
/// then two files were handed out and no more: the tags file and the
/// fields file, each under the name of the measurement, each the
/// encoding of its rows; the task then ends in success. The tags file has
/// one row for each pair of a key and one of its values, none twice; the
/// fields file has one row for each field key; and every row names the
/// measurement in its first column.
pub proof fn lemma_successful_sync(
    measurement: Seq<char>,
    tags: Tags,
    fields: Seq<Seq<char>>,
    first: TaskStep,
    second: TaskStep,
    last: TaskStep,
)
    requires
        well_formed(tags),
        writes_or_fails(first, measurement, tags, fields),
        first matches TaskStep::Write(_, pending) && follows_write(
            second,
            pending,
            Ok::<(), String>(()),
        ),
        second matches TaskStep::Write(_, pending) ==> follows_write(
            last,
            pending,
            Ok::<(), String>(()),
        ),
    ensures
        first matches TaskStep::Write(write, _) && write.table == Table::Tags && write.file@
            == Table::Tags.spec_file_name(measurement) && write.bytes@ == columnar_bytes(
            spec_schema(Table::Tags),
            tag_rows(measurement, tags),
        ),
        second matches TaskStep::Write(write, _) && write.table == Table::Fields && write.file@
            == Table::Fields.spec_file_name(measurement) && write.bytes@ == columnar_bytes(
            spec_schema(Table::Fields),
            field_rows(measurement, fields),
        ),
        last == TaskStep::Finish(SyncOutcome::Success),
        tag_rows(measurement, tags).len() == pair_count(tags),
        tag_rows(measurement, tags).no_duplicates(),
        field_rows(measurement, fields).len() == fields.len(),
        forall|r: int|
            0 <= r < tag_rows(measurement, tags).len() ==> (#[trigger] tag_rows(
                measurement,
                tags,
            )[r])[0] == measurement,
        forall|r: int|
            0 <= r < field_rows(measurement, fields).len() ==> (#[trigger] field_rows(
                measurement,
                fields,
            )[r])[0] == measurement,
{
    lemma_tag_rows_len(measurement, tags);
    lemma_tag_rows_distinct(measurement, tags);
    lemma_field_rows_len(measurement, fields);
    lemma_rows_name_measurement(measurement, tags, fields);
}

/// Whether `step` is what follows the gathering of `tags` and `fields`.
/// Where the encoder accepts both files, the tags file is handed out to
/// be replaced and the bytes of the fields file are kept for the step
/// after; else the task ends with a file failure, and nothing is written.
pub open spec fn writes_or_fails(
    step: TaskStep,
    measurement: Seq<char>,
    tags: Tags,
    fields: Seq<Seq<char>>,
) -> bool {
    if columnar_accepts(spec_schema(Table::Tags), tag_rows(measurement, tags)) && columnar_accepts(
        spec_schema(Table::Fields),
        field_rows(measurement, fields),
    ) {
        writes_first(
            step,
            measurement,
            columnar_bytes(spec_schema(Table::Tags), tag_rows(measurement, tags)),
            columnar_bytes(spec_schema(Table::Fields), field_rows(measurement, fields)),
        )
    } else {
        step matches TaskStep::Finish(SyncOutcome::Failed(SyncError::FileIo(_)))
    }
}

/// Whether `step` hands out the tags file of the measurement with the
/// bytes `tags_file` and keeps `fields_file` for the step after.
pub open spec fn writes_first(
    step: TaskStep,
    measurement: Seq<char>,
    tags_file: Seq<u8>,
    fields_file: Seq<u8>,
) -> bool {
    &&& step matches TaskStep::Write(write, pending)
    &&& write.table == Table::Tags
    &&& write.file@ == Table::Tags.spec_file_name(measurement)
    &&& write.bytes@ == tags_file
    &&& pending.measurement() == measurement
    &&& pending.fields_file() == Some(fields_file)
}

/// Begins the refresh of a measurement: cleans its name and asks for its
/// tag keys.
pub fn start(name: &str) -> (step: TaskStep)
    ensures
        step matches TaskStep::Query(MetadataQuery::TagKeys(asked), pending) && asked@
            == strip_quotes(name@) && pending.stands_at(
            strip_quotes(name@),
            Awaited::TagKeys,
            Seq::empty(),
            0,
            Seq::empty(),
        ),
{
    let measurement = sanitize(name);
    let keys: Vec<String> = Vec::new();
    assert(texts(keys@) =~= Seq::empty());
    let pending = PendingQuery {
        measurement: measurement.clone(),
        awaited: Awaited::TagKeys,
        keys,
        at: 0,
        tags: TagSet::new(),
    };
    TaskStep::Query(MetadataQuery::TagKeys(measurement), pending)
}

/// What follows when `at` of the `keys` are done.
fn next_query(measurement: String, keys: Vec<String>, at: usize, tags: TagSet) -> (step: TaskStep)
    requires
        at <= keys@.len(),
        well_formed(tags@),
    ensures
        asks_next(step, measurement@, texts(keys@), at as nat, tags@),
{
    if at < keys.len() {
        let query = MetadataQuery::TagValues(measurement.clone(), keys[at].clone());
        let pending = PendingQuery { measurement, awaited: Awaited::TagValues, keys, at, tags };
        TaskStep::Query(query, pending)
    } else {
        let query = MetadataQuery::FieldKeys(measurement.clone());
        let pending = PendingQuery { measurement, awaited: Awaited::FieldKeys, keys, at, tags };
        TaskStep::Query(query, pending)
    }
}

/// What follows the encoding of both files of a measurement. A refusal
/// of the encoder ends the task, that of the tags file first, and no
/// file was touched. Else the tags file is handed out to be replaced, and
/// the bytes of the fields file are kept for the step after.
pub fn file_step(
    measurement: String,
    tags_file: Result<Vec<u8>, SyncError>,
    fields_file: Result<Vec<u8>, SyncError>,
) -> (step: TaskStep)
    ensures
        match tags_file {
            Err(error) => step == TaskStep::Finish(SyncOutcome::Failed(error)),
            Ok(tags_bytes) => match fields_file {
                Err(error) => step == TaskStep::Finish(SyncOutcome::Failed(error)),
                Ok(fields_bytes) => writes_first(step, measurement@, tags_bytes@, fields_bytes@)
                    && step->Write_0.bytes == tags_bytes,
            },
        },
{
    let tags_bytes = match tags_file {
        Ok(bytes) => bytes,
        Err(error) => { return TaskStep::Finish(SyncOutcome::Failed(error)); },
    };
    let fields_bytes = match fields_file {
        Ok(bytes) => bytes,
        Err(error) => { return TaskStep::Finish(SyncOutcome::Failed(error)); },
    };
    let file = Table::Tags.file_name(measurement.as_str());
    TaskStep::Write(
        FileWrite { table: Table::Tags, file, bytes: tags_bytes },
        PendingWrite { measurement, fields_file: Some(fields_bytes) },
    )
}

} // verus!
