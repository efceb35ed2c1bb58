//! Why a step of a refresh cycle failed.

use vstd::prelude::*;

verus! {

/// What was wrong with the shape of a response.
#[derive(Clone, Copy, Debug, PartialEq, Eq, Structural)]
pub enum Malformation {
    /// The response holds no result at all.
    NoResult,
    /// The first result is not an object.
    ResultNotObject,
    /// The `series` member is not an array.
    SeriesNotArray,
    /// The `series` array is empty.
    NoSeries,
    /// The first series is not an object.
    SeriesNotObject,
    /// The first series has no `values` member.
    NoValues,
    /// The `values` member is not an array.
    ValuesNotArray,
    /// A row is not an array.
    RowNotArray,
    /// A row is too short to hold the column that is read.
    MissingColumn,
}

/// The failure of one step, with its cause.
#[derive(Debug, PartialEq, Eq)]
pub enum SyncError {
    /// The source could not be reached; the text is the transport's report.
    Network(String),
    /// The source answered in a shape that the protocol does not allow.
    MalformedResponse(Malformation),
    /// A snapshot file could not be encoded, created or written; the text
    /// is the report of whoever refused.
    FileIo(String),
    /// No single schema could be found for the files of a table, so the
    /// tables were not bound anew; the text is the engine's report.
    SchemaInference(String),
    /// The task was stopped before it ended; the text says by what.
    Aborted(String),
}

/// How the refresh of one measurement ended.
#[derive(Debug, PartialEq, Eq)]
pub enum SyncOutcome {
    /// Both files of the measurement were replaced.
    Success,
    /// A step failed; the files of the measurement that were not yet
    /// replaced are as they were.
    Failed(SyncError),
}

} // verus!
