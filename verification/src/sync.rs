//! The configuration of a mirror, and what is made from it: the
//! schedule, the catalog, and each cycle.

use crate::catalog::DB;
use crate::cycle::{begin, PendingListing};
use crate::response::MetadataQuery;
use crate::scheduler::{ScheduledCycle, Scheduler};
use std::time::Duration;
use vstd::prelude::*;

verus! {

/// The number of tasks that a cycle keeps at work at once.
pub const TASK_LIMIT: usize = 8;

/// The configuration of a mirror.
#[derive(Debug)]
pub struct Sync {
    influx_database_name: String,
    pub url: String,
    pub path: String,
    pub interval: Duration,
}

impl Sync {
    /// The name of the source database.
    pub closed spec fn spec_database(&self) -> Seq<char> {
        self.influx_database_name@
    }

    /// The address of the source.
    pub closed spec fn spec_url(&self) -> Seq<char> {
        self.url@
    }

    /// The snapshot root.
    pub closed spec fn spec_path(&self) -> Seq<char> {
        self.path@
    }

    /// The pause between two cycles.
    pub closed spec fn spec_interval(&self) -> Duration {
        self.interval
    }

    /// The mirror of the database `database` of the source at `url`,
    /// with its snapshot under `path` and a pause of `interval` between
    /// two cycles.
    pub fn new(database: String, url: String, path: String, interval: Duration) -> (sync: Sync)
        ensures
            sync.spec_database() == database@,
            sync.spec_url() == url@,
            sync.spec_path() == path@,
            sync.spec_interval() == interval,
    {
        Sync { influx_database_name: database, url, path, interval }
    }

    /// The name of the source database.
    pub fn database(&self) -> (name: &String)
        ensures
            name@ == self.spec_database(),
    {
        &self.influx_database_name
    }

    /// The schedule of the cycles, before the first: its pause is the
    /// configured interval.
    pub fn setup_sync(&self) -> (schedule: Scheduler)
        ensures
            schedule.interval() == self.spec_interval(),
            schedule.cycles() == 0,
    {
        Scheduler::new(self.interval)
    }

    /// The catalog of the snapshot, with nothing bound.
    pub fn catalog(&self) -> (db: DB)
        ensures
            db.path() == self.spec_path(),
            db.registrations() == 0,
    {
        DB::new(self.path.clone())
    }

    /// Begins the cycle that the schedule has started, at the time
    /// `started_at` and under the task limit.
    pub fn begin_cycle(&self, scheduled: ScheduledCycle, started_at: u64) -> (asked: (
        MetadataQuery,
        PendingListing,
    ))
        ensures
            asked.0 == MetadataQuery::Measurements,
            asked.1.scheduled() == scheduled,
            asked.1.started_at() == started_at,
            asked.1.limit() == TASK_LIMIT,
    {
        begin(scheduled, started_at, TASK_LIMIT)
    }
}

} // verus!
