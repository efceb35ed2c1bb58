//! The catalog: which tables a query may name, and where their files
//! lie. A registration binds both tables anew; until one has succeeded
//! there is nothing to query.

use crate::error::SyncError;
use crate::layout::{Table, FILE_EXTENSION};
use vstd::prelude::*;

verus! {

/// A table to bind: its name, the directory of its files under the
/// snapshot root, and the extension by which its files are known.
#[derive(Clone, Copy, Debug)]
pub struct TableBinding {
    pub table: Table,
    pub name: &'static str,
    pub directory: &'static str,
    pub extension: &'static str,
}

/// Why the catalog refuses a query.
#[derive(Clone, Copy, Debug, PartialEq, Eq, Structural)]
pub enum CatalogError {
    /// No registration has succeeded yet.
    NotRegistered,
}

/// The catalog of one snapshot root.
#[derive(Debug)]
pub struct DB {
    path: String,
    registrations: u64,
}

/// Whether `binding` is the binding of `table`.
pub open spec fn binds(binding: TableBinding, table: Table) -> bool {
    &&& binding.table == table
    &&& binding.name@ == table.spec_name()
    &&& binding.directory@ == table.spec_name()
    &&& binding.extension@ == FILE_EXTENSION@
}

/// The binding of a table.
pub fn binding(table: Table) -> (binding: TableBinding)
    ensures
        binds(binding, table),
{
    TableBinding { table, name: table.name(), directory: table.name(), extension: FILE_EXTENSION }
}

impl DB {
    /// The snapshot root.
    pub closed spec fn path(&self) -> Seq<char> {
        self.path@
    }

    /// The number of registrations that succeeded; it stops at the
    /// largest number that it can hold.
    pub closed spec fn registrations(&self) -> u64 {
        self.registrations
    }

    /// Whether the two tables are bound.
    pub open spec fn bound(&self) -> bool {
        self.registrations() > 0
    }

    /// The catalog of the snapshot under `path`, with nothing bound.
    pub fn new(path: String) -> (db: DB)
        ensures
            db.path() == path@,
            db.registrations() == 0,
    {
        DB { path, registrations: 0 }
    }

    /// The snapshot root.
    pub fn root(&self) -> (path: &String)
        ensures
            path@ == self.path(),
    {
        &self.path
    }

    /// What a registration binds: the tags table, then the fields table.
    pub fn register(&self) -> (bindings: Vec<TableBinding>)
        ensures
            bindings@.len() == 2,
            binds(bindings@[0], Table::Tags),
            binds(bindings@[1], Table::Fields),
    {
        let mut bindings: Vec<TableBinding> = Vec::new();
        bindings.push(binding(Table::Tags));
        bindings.push(binding(Table::Fields));
        bindings
    }

    /// Takes the end of a registration, with the engine's report where
    /// it failed. One that succeeded has bound both tables to the files
    /// that are there now. One that failed, because no single schema was
    /// found for the files of a table, leaves the tables bound as they
    /// were and is handed on as the failure that it is.
    pub fn registered(&mut self, outcome: Result<(), String>) -> (registration: Result<
        (),
        SyncError,
    >)
        ensures
            registration == match outcome {
                Ok(_) => Ok::<(), SyncError>(()),
                Err(report) => Err::<(), SyncError>(SyncError::SchemaInference(report)),
            },
            final(self).path() == old(self).path(),
            final(self).registrations() == if outcome is Err {
                old(self).registrations()
            } else if old(self).registrations() == u64::MAX {
                u64::MAX
            } else {
                (old(self).registrations() + 1) as u64
            },
            final(self).bound() == (old(self).bound() || outcome is Ok),
    {
        match outcome {
            Err(report) => Err(SyncError::SchemaInference(report)),
            Ok(_) => {
                if self.registrations < u64::MAX {
                    self.registrations = self.registrations + 1;
                }
                Ok(())
            },
        }
    }

    /// Admits a query: it may run once a registration has succeeded, and
    /// is then handed on as it came.
    pub fn sql<'a>(&self, sql: &'a str) -> (admitted: Result<&'a str, CatalogError>)
        ensures
            self.bound() ==> admitted == Ok::<&str, CatalogError>(sql),
            !self.bound() ==> admitted == Err::<&str, CatalogError>(CatalogError::NotRegistered),
    {
        if self.registrations > 0 {
            Ok(sql)
        } else {
            Err(CatalogError::NotRegistered)
        }
    }
}

} // verus!
