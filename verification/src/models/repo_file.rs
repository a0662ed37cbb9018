//! The catalog row of a file and its indexing watermark.

use vstd::prelude::*;
use crate::catalog::DbWriteView;
use crate::db::{write_outcome, Db};
use crate::models::types::{clone_opt_text, opt_text, path_buf_from_bytes, RepoPath};
use crate::result::RepoResult;

verus! {

/// A file of a branch: the commit that gave it its current content and the
/// commit whose content the search index holds.
#[derive(Debug, PartialEq, Eq)]
pub struct RepoFile {
    pub repo_id: String,
    pub branch: String,
    pub path: RepoPath,
    pub changed_commit_id: String,
    pub indexed_commit_id: Option<String>,
}

/// What a `RepoFile` row says.
pub struct RepoFileView {
    pub repo_id: Seq<char>,
    pub branch: Seq<char>,
    pub path: Seq<u8>,
    pub changed_commit_id: Seq<char>,
    pub indexed_commit_id: Option<Seq<char>>,
}

impl RepoFileView {
    /// A file has to be indexed when the index holds nothing of it, or holds
    /// the content of another commit than the one that last changed it.
    pub open spec fn needs_index(self) -> bool {
        self.indexed_commit_id != Some(self.changed_commit_id)
    }
}

impl View for RepoFile {
    type V = RepoFileView;

    open spec fn view(&self) -> RepoFileView {
        RepoFileView {
            repo_id: self.repo_id@,
            branch: self.branch@,
            path: self.path@,
            changed_commit_id: self.changed_commit_id@,
            indexed_commit_id: opt_text(self.indexed_commit_id),
        }
    }
}

impl Clone for RepoFile {
    fn clone(&self) -> (r: Self)
        ensures
            r@ == self@,
    {
        RepoFile {
            repo_id: self.repo_id.clone(),
            branch: self.branch.clone(),
            path: self.path.clone(),
            changed_commit_id: self.changed_commit_id.clone(),
            indexed_commit_id: clone_opt_text(&self.indexed_commit_id),
        }
    }
}

/// The columns of a stored file row.
#[derive(Debug, Clone, PartialEq, Eq)]
pub struct FileRow {
    pub repo_id: String,
    pub branch: String,
    pub path: Vec<u8>,
    pub changed_commit_id: String,
    pub indexed_commit_id: Option<String>,
}

impl RepoFile {
    pub fn new(
        repo_id: String,
        branch: String,
        path: RepoPath,
        changed_commit_id: String,
        indexed_commit_id: Option<String>,
    ) -> (r: RepoFile)
        ensures
            r@ == (RepoFileView {
                repo_id: repo_id@,
                branch: branch@,
                path: path@,
                changed_commit_id: changed_commit_id@,
                indexed_commit_id: opt_text(indexed_commit_id),
            }),
    {
        RepoFile { repo_id, branch, path, changed_commit_id, indexed_commit_id }
    }

    /// Whether the file still has to be shipped to the search index.
    pub fn needs_index(&self) -> (r: bool)
        ensures
            r == self@.needs_index(),
    {
        match &self.indexed_commit_id {
            Some(indexed) => !(*indexed == self.changed_commit_id),
            None => true,
        }
    }

    /// Reads a stored row; the path column is taken as it is, byte for byte.
    pub fn new_from_sql_row(row0: &FileRow) -> (r: RepoResult<RepoFile>)
        ensures
            r matches Ok(file) && file@ == (RepoFileView {
                repo_id: row0.repo_id@,
                branch: row0.branch@,
                path: row0.path@,
                changed_commit_id: row0.changed_commit_id@,
                indexed_commit_id: opt_text(row0.indexed_commit_id),
            }),
    {
        Ok(
            RepoFile {
                repo_id: row0.repo_id.clone(),
                branch: row0.branch.clone(),
                path: path_buf_from_bytes(row0.path.as_slice()),
                changed_commit_id: row0.changed_commit_id.clone(),
                indexed_commit_id: clone_opt_text(&row0.indexed_commit_id),
            },
        )
    }
}

/// The migration that creates the table of files.
#[derive(Debug, Clone, Copy, PartialEq, Eq)]
pub struct CreateFilesTable;

impl CreateFilesTable {
    /// The schema version that the migration leads to.
    pub fn version(&self) -> (r: u32)
        ensures
            r == 4,
    {
        4
    }

    pub fn description(&self) -> (r: String)
        ensures
            r@ == "create files table"@,
    {
        "create files table".to_owned()
    }

    /// Creates the table. The catalog takes the migration only when its
    /// schema stands one version below.
    pub fn up(&self, db: &mut Db) -> (r: RepoResult<()>)
        requires
            old(db).wf(),
        ensures
            write_outcome(*old(db), *final(db), r, DbWriteView::Up(4)),
    {
        db.up(self.version())
    }

    /// Drops the table, with every row in it. The catalog undoes the
    /// migration only when its schema stands at this version.
    pub fn down(&self, db: &mut Db) -> (r: RepoResult<()>)
        requires
            old(db).wf(),
        ensures
            write_outcome(*old(db), *final(db), r, DbWriteView::Down(4)),
    {
        db.down(self.version())
    }
}

} // verus!
