//! The catalog row of a mirrored repository.

use vstd::prelude::*;
use crate::catalog::DbWriteView;
use crate::db::{write_outcome, Db};
use crate::models::types::{path_buf_from_bytes, RepoPath};
use crate::repo::SyncState;
use crate::result::{RepoError, RepoResult};

verus! {

/// A point in time: seconds since the Unix epoch and nanoseconds into that
/// second.
#[derive(Debug, Clone, Copy, PartialEq, Eq, Structural)]
pub struct Timespec {
    pub sec: i64,
    pub nsec: i32,
}

/// Reads the system clock through `time::get_time`. Nothing is claimed of
/// the value: it is whatever the clock says when the call is made.
#[verifier::external_body]
fn current_time() -> (r: Timespec) {
    let now = time::get_time();
    Timespec { sec: now.sec, nsec: now.nsec }
}

/// A repository as the catalog records it.
#[derive(Debug, PartialEq, Eq)]
pub struct Repository {
    pub id: String,
    pub uri: String,
    pub path: RepoPath,
    pub sync_state: SyncState,
    pub added_datetime: Option<Timespec>,
    pub fetched_datetime: Option<Timespec>,
    pub indexed_datetime: Option<Timespec>,
}

/// What a `Repository` row says.
pub struct RepositoryView {
    pub id: Seq<char>,
    pub uri: Seq<char>,
    pub path: Seq<u8>,
    pub sync_state: SyncState,
    pub added_datetime: Option<Timespec>,
    pub fetched_datetime: Option<Timespec>,
    pub indexed_datetime: Option<Timespec>,
}

impl View for Repository {
    type V = RepositoryView;

    open spec fn view(&self) -> RepositoryView {
        RepositoryView {
            id: self.id@,
            uri: self.uri@,
            path: self.path@,
            sync_state: self.sync_state,
            added_datetime: self.added_datetime,
            fetched_datetime: self.fetched_datetime,
            indexed_datetime: self.indexed_datetime,
        }
    }
}

impl Clone for Repository {
    fn clone(&self) -> (r: Self)
        ensures
            r@ == self@,
    {
        Repository {
            id: self.id.clone(),
            uri: self.uri.clone(),
            path: self.path.clone(),
            sync_state: self.sync_state,
            added_datetime: self.added_datetime,
            fetched_datetime: self.fetched_datetime,
            indexed_datetime: self.indexed_datetime,
        }
    }
}

/// The columns of a stored repository row, as the storage engine hands them
/// over.
#[derive(Debug, Clone, PartialEq, Eq)]
pub struct RepositoryRow {
    pub id: String,
    pub uri: String,
    pub path: Vec<u8>,
    pub sync_state: String,
    pub added_datetime: Option<Timespec>,
    pub fetched_datetime: Option<Timespec>,
    pub indexed_datetime: Option<Timespec>,
}

impl Repository {
    /// The row of a repository first seen at `added`: not cloned yet, never
    /// fetched, never indexed.
    pub open spec fn fresh(id: Seq<char>, uri: Seq<char>, path: Seq<u8>, added: Timespec)
        -> RepositoryView {
        RepositoryView {
            id,
            uri,
            path,
            sync_state: SyncState::NotCloned,
            added_datetime: Some(added),
            fetched_datetime: None,
            indexed_datetime: None,
        }
    }

    /// The row of a repository first seen at the time `added`.
    pub fn new_at(id: String, uri: String, path: RepoPath, added: Timespec) -> (r: Repository)
        ensures
            r@ == Repository::fresh(id@, uri@, path@, added),
    {
        Repository {
            id,
            uri,
            path,
            sync_state: SyncState::NotCloned,
            added_datetime: Some(added),
            fetched_datetime: None,
            indexed_datetime: None,
        }
    }

    /// The row of a repository first seen now. The time of addition is read
    /// from the system clock, so only its presence is promised.
    pub fn new_from_remote(id: String, uri: String, path: RepoPath) -> (r: Repository)
        ensures
            r.added_datetime is Some,
            r@ == Repository::fresh(id@, uri@, path@, r.added_datetime->0),
    {
        Repository::new_at(id, uri, path, current_time())
    }

    /// Reads a stored row. The row is accepted exactly when its state column
    /// names a sync state; otherwise the error carries the column's text.
    pub fn new_from_sql_row(row0: &RepositoryRow) -> (r: RepoResult<Repository>)
        ensures
            match SyncState::parse(row0.sync_state@) {
                Some(state) => r matches Ok(repo) && repo@ == (RepositoryView {
                    id: row0.id@,
                    uri: row0.uri@,
                    path: row0.path@,
                    sync_state: state,
                    added_datetime: row0.added_datetime,
                    fetched_datetime: row0.fetched_datetime,
                    indexed_datetime: row0.indexed_datetime,
                }),
                None => r matches Err(RepoError::EnumParseError(text)) && text@
                    == row0.sync_state@,
            },
    {
        match SyncState::from_str(row0.sync_state.as_str()) {
            Ok(state) => Ok(
                Repository {
                    id: row0.id.clone(),
                    uri: row0.uri.clone(),
                    path: path_buf_from_bytes(row0.path.as_slice()),
                    sync_state: state,
                    added_datetime: row0.added_datetime,
                    fetched_datetime: row0.fetched_datetime,
                    indexed_datetime: row0.indexed_datetime,
                },
            ),
            Err(e) => Err(e),
        }
    }
}

/// The migration that creates the table of repositories.
#[derive(Debug, Clone, Copy, PartialEq, Eq)]
pub struct CreateRepositoriesTable;

impl CreateRepositoriesTable {
    /// The schema version that the migration leads to.
    pub fn version(&self) -> (r: u32)
        ensures
            r == 1,
    {
        1
    }

    pub fn description(&self) -> (r: String)
        ensures
            r@ == "create repositories table"@,
    {
        "create repositories table".to_owned()
    }

    /// Creates the table. The catalog takes the migration only when its
    /// schema stands one version below.
    pub fn up(&self, db: &mut Db) -> (r: RepoResult<()>)
        requires
            old(db).wf(),
        ensures
            write_outcome(*old(db), *final(db), r, DbWriteView::Up(1)),
    {
        db.up(self.version())
    }

    /// Drops the table, with every row in it. The catalog undoes the
    /// migration only when its schema stands at this version.
    pub fn down(&self, db: &mut Db) -> (r: RepoResult<()>)
        requires
            old(db).wf(),
        ensures
            write_outcome(*old(db), *final(db), r, DbWriteView::Down(1)),
    {
        db.down(self.version())
    }
}

} // verus!
