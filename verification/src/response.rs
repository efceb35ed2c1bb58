//! The four metadata queries: the text of each and the reading of its
//! answer.

use crate::columnar::texts;
use crate::error::{Malformation, SyncError};
use crate::json::{find_member, member, Json};
use vstd::prelude::*;

verus! {

/// A metadata query against the source.
#[derive(Debug, PartialEq, Eq)]
pub enum MetadataQuery {
    /// The names of all measurements.
    Measurements,
    /// The tag keys of a measurement.
    TagKeys(String),
    /// The values of one tag key of a measurement: measurement, then key.
    TagValues(String, String),
    /// The field keys of a measurement.
    FieldKeys(String),
}

impl MetadataQuery {
    /// The query in the source's query language.
    pub open spec fn spec_text(self) -> Seq<char> {
        match self {
            MetadataQuery::Measurements => "show measurements"@,
            MetadataQuery::TagKeys(measurement) => "show tag keys from "@ + measurement@,
            MetadataQuery::TagValues(measurement, key) => "show tag values from "@ + measurement@
                + " with key = "@ + key@,
            MetadataQuery::FieldKeys(measurement) => "show field keys from "@ + measurement@,
        }
    }

    /// The column of a row that holds the value: the second for tag
    /// values, whose rows begin with the key, and the first otherwise.
    pub open spec fn spec_value_column(self) -> int {
        match self {
            MetadataQuery::TagValues(_, _) => 1,
            _ => 0,
        }
    }

    /// The query in the source's query language.
    pub fn text(&self) -> (text: String)
        ensures
            text@ == self.spec_text(),
    {
        match self {
            MetadataQuery::Measurements => String::from_str("show measurements"),
            MetadataQuery::TagKeys(measurement) => {
                let mut text = String::from_str("show tag keys from ");
                text.append(measurement.as_str());
                text
            },
            MetadataQuery::TagValues(measurement, key) => {
                let mut text = String::from_str("show tag values from ");
                text.append(measurement.as_str());
                text.append(" with key = ");
                text.append(key.as_str());
                text
            },
            MetadataQuery::FieldKeys(measurement) => {
                let mut text = String::from_str("show field keys from ");
                text.append(measurement.as_str());
                text
            },
        }
    }

    /// The column of a row that holds the value.
    pub fn value_column(&self) -> (column: usize)
        ensures
            column == self.spec_value_column(),
    {
        match self {
            MetadataQuery::TagValues(_, _) => 1,
            _ => 0,
        }
    }

    /// What the answer to this query lists, or why it cannot be read.
    pub open spec fn spec_parse(self, reply: Result<Vec<Json>, String>) -> Result<
        Seq<Seq<char>>,
        SyncError,
    > {
        spec_listing(self.spec_value_column(), reply)
    }

    /// Reads the answer to this query: the listed values in the order of
    /// the rows, or the transport's failure, or what is wrong with the
    /// answer's shape.
    pub fn parse(&self, reply: Result<Vec<Json>, String>) -> (listed: Result<Vec<String>, SyncError>)
        ensures
            listed is Ok <==> self.spec_parse(reply) is Ok,
            listed is Ok ==> texts(listed->Ok_0@) == self.spec_parse(reply)->Ok_0,
            listed is Err ==> listed->Err_0 == self.spec_parse(reply)->Err_0,
    {
        listing(self.value_column(), reply)
    }
}

/// What an answer lists in a column of its rows. A transport that failed
/// gives its report; an answer of the wrong shape says what is wrong.
pub open spec fn spec_listing(at: int, reply: Result<Vec<Json>, String>) -> Result<
    Seq<Seq<char>>,
    SyncError,
> {
    match reply {
        Err(report) => Err(SyncError::Network(report)),
        Ok(results) => match spec_values(results@) {
            Err(malformation) => Err(SyncError::MalformedResponse(malformation)),
            Ok(rows) => match spec_column(rows, at) {
                Err(malformation) => Err(SyncError::MalformedResponse(malformation)),
                Ok(cells) => Ok(cells),
            },
        },
    }
}

/// Reads what an answer lists in a column of its rows.
pub fn listing(at: usize, reply: Result<Vec<Json>, String>) -> (listed: Result<Vec<String>, SyncError>)
    ensures
        listed is Ok <==> spec_listing(at as int, reply) is Ok,
        listed is Ok ==> texts(listed->Ok_0@) == spec_listing(at as int, reply)->Ok_0,
        listed is Err ==> listed->Err_0 == spec_listing(at as int, reply)->Err_0,
{
    let results = match reply {
        Ok(results) => results,
        Err(report) => { return Err(SyncError::Network(report)); },
    };
    let rows = match get_values_from_query(&results) {
        Ok(rows) => rows,
        Err(malformation) => { return Err(SyncError::MalformedResponse(malformation)); },
    };
    match rows {
        None => {
            let listed: Vec<String> = Vec::new();
            assert(texts(listed@) =~= Seq::empty());
            Ok(listed)
        },
        Some(rows) => match read_column(rows, at) {
            Ok(cells) => Ok(cells),
            Err(malformation) => Err(SyncError::MalformedResponse(malformation)),
        },
    }
}

/// The rows of an answer. One result is expected. Without a `series`
/// member it is empty; with one, the rows are the `values` array of the
/// first series.
pub open spec fn spec_values(results: Seq<Json>) -> Result<Seq<Json>, Malformation> {
    if results.len() == 0 {
        Err(Malformation::NoResult)
    } else if results[0].spec_members() is None {
        Err(Malformation::ResultNotObject)
    } else {
        match find_member(results[0].spec_members()->Some_0, "series"@) {
            None => Ok(Seq::empty()),
            Some(series) => spec_series_values(series),
        }
    }
}

/// The rows under a `series` member.
pub open spec fn spec_series_values(series: Json) -> Result<Seq<Json>, Malformation> {
    if series.spec_items() is None {
        Err(Malformation::SeriesNotArray)
    } else if series.spec_items()->Some_0.len() == 0 {
        Err(Malformation::NoSeries)
    } else if series.spec_items()->Some_0[0].spec_members() is None {
        Err(Malformation::SeriesNotObject)
    } else {
        match find_member(series.spec_items()->Some_0[0].spec_members()->Some_0, "values"@) {
            None => Err(Malformation::NoValues),
            Some(values) => match values.spec_items() {
                None => Err(Malformation::ValuesNotArray),
                Some(rows) => Ok(rows),
            },
        }
    }
}

/// The text of the value that a row holds in a column.
pub open spec fn spec_cell(row: Json, column: int) -> Result<Seq<char>, Malformation> {
    match row.spec_items() {
        None => Err(Malformation::RowNotArray),
        Some(cells) => if 0 <= column < cells.len() {
            Ok(cells[column].spec_text())
        } else {
            Err(Malformation::MissingColumn)
        },
    }
}

/// The texts that the rows hold in a column, in the order of the rows;
/// the first row that cannot be read decides the failure.
pub open spec fn spec_column(rows: Seq<Json>, column: int) -> Result<Seq<Seq<char>>, Malformation>
    decreases rows.len(),
{
    if rows.len() == 0 {
        Ok(Seq::empty())
    } else {
        match spec_column(rows.drop_last(), column) {
            Err(malformation) => Err(malformation),
            Ok(cells) => match spec_cell(rows.last(), column) {
                Err(malformation) => Err(malformation),
                Ok(cell) => Ok(cells.push(cell)),
            },
        }
    }
}

/// The rows of an answer: nothing where the result has no `series`
/// member, else the `values` array of the first series.
pub fn get_values_from_query(results: &Vec<Json>) -> (rows: Result<Option<&Vec<Json>>, Malformation>)
    ensures
        rows is Ok <==> spec_values(results@) is Ok,
        rows is Err ==> rows->Err_0 == spec_values(results@)->Err_0,
        rows is Ok ==> match rows->Ok_0 {
            Some(found) => found@ == spec_values(results@)->Ok_0,
            None => spec_values(results@)->Ok_0 == Seq::<Json>::empty(),
        },
{
    if results.len() == 0 {
        return Err(Malformation::NoResult);
    }
    let result = match results[0].members() {
        Some(result) => result,
        None => { return Err(Malformation::ResultNotObject); },
    };
    let series = match member(result, "series") {
        Some(series) => series,
        None => { return Ok(None); },
    };
    let series = match series.items() {
        Some(series) => series,
        None => { return Err(Malformation::SeriesNotArray); },
    };
    if series.len() == 0 {
        return Err(Malformation::NoSeries);
    }
    let first = match series[0].members() {
        Some(first) => first,
        None => { return Err(Malformation::SeriesNotObject); },
    };
    let values = match member(first, "values") {
        Some(values) => values,
        None => { return Err(Malformation::NoValues); },
    };
    match values.items() {
        Some(rows) => Ok(Some(rows)),
        None => Err(Malformation::ValuesNotArray),
    }
}

/// The texts that the rows hold in a column, in the order of the rows.
pub fn read_column(rows: &Vec<Json>, at: usize) -> (cells: Result<Vec<String>, Malformation>)
    ensures
        cells is Ok <==> spec_column(rows@, at as int) is Ok,
        cells is Ok ==> texts(cells->Ok_0@) == spec_column(rows@, at as int)->Ok_0,
        cells is Err ==> cells->Err_0 == spec_column(rows@, at as int)->Err_0,
{
    let mut cells: Vec<String> = Vec::new();
    let mut i: usize = 0;
    assert(rows@.take(0) =~= Seq::empty());
    assert(texts(cells@) =~= Seq::empty());
    while i < rows.len()
        invariant
            i <= rows.len(),
            spec_column(rows@.take(i as int), at as int) == Ok::<Seq<Seq<char>>, Malformation>(
                texts(cells@),
            ),
        decreases rows.len() - i,
    {
        proof {
            assert(rows@.take(i + 1).drop_last() =~= rows@.take(i as int));
            assert(rows@.take(i + 1).last() == rows@[i as int]);
            lemma_column_failure_stays(rows@, at as int, i + 1);
        }
        let row = match rows[i].items() {
            Some(row) => row,
            None => { return Err(Malformation::RowNotArray); },
        };
        if at >= row.len() {
            return Err(Malformation::MissingColumn);
        }
        let ghost before = cells@;
        cells.push(row[at].text());
        assert(texts(cells@) =~= texts(before).push(row@[at as int].spec_text()));
        i += 1;
    }
    assert(rows@.take(rows.len() as int) =~= rows@);
    Ok(cells)
}

/// A failure among the first rows is the failure of the whole list.
pub proof fn lemma_column_failure_stays(rows: Seq<Json>, column: int, n: int)
    requires
        0 <= n <= rows.len(),
    ensures
        spec_column(rows.take(n), column) is Err ==> spec_column(rows, column) == spec_column(
            rows.take(n),
            column,
        ),
    decreases rows.len() - n,
{
    if n < rows.len() {
        assert(rows.take(n + 1).drop_last() =~= rows.take(n));
        lemma_column_failure_stays(rows, column, n + 1);
    } else {
        assert(rows.take(n) =~= rows);
    }
}

} // verus!
