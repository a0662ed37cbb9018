//! The catalog row of a branch and its indexing watermark.

use vstd::prelude::*;
use crate::catalog::DbWriteView;
use crate::db::{write_outcome, Db};
use crate::models::types::{clone_opt_text, opt_text};
use crate::result::RepoResult;

verus! {

/// A branch of a repository, with the commit it was last indexed at.
#[derive(Debug, PartialEq, Eq)]
pub struct RepoBranch {
    pub repo_id: String,
    pub name: String,
    pub indexed_commit_id: Option<String>,
}

/// What a `RepoBranch` row says.
pub struct RepoBranchView {
    pub repo_id: Seq<char>,
    pub name: Seq<char>,
    pub indexed_commit_id: Option<Seq<char>>,
}

impl View for RepoBranch {
    type V = RepoBranchView;

    open spec fn view(&self) -> RepoBranchView {
        RepoBranchView {
            repo_id: self.repo_id@,
            name: self.name@,
            indexed_commit_id: opt_text(self.indexed_commit_id),
        }
    }
}

impl Clone for RepoBranch {
    fn clone(&self) -> (r: Self)
        ensures
            r@ == self@,
    {
        RepoBranch {
            repo_id: self.repo_id.clone(),
            name: self.name.clone(),
            indexed_commit_id: clone_opt_text(&self.indexed_commit_id),
        }
    }
}

/// The columns of a stored branch row.
#[derive(Debug, Clone, PartialEq, Eq)]
pub struct BranchRow {
    pub repo_id: String,
    pub name: String,
    pub indexed_commit_id: Option<String>,
}

impl RepoBranch {
    pub fn new(repo_id: String, name: String, indexed_commit_id: Option<String>) -> (r: RepoBranch)
        ensures
            r@ == (RepoBranchView {
                repo_id: repo_id@,
                name: name@,
                indexed_commit_id: opt_text(indexed_commit_id),
            }),
    {
        RepoBranch { repo_id, name, indexed_commit_id }
    }

    /// Reads a stored row; every well-typed branch row is a branch.
    pub fn new_from_sql_row(row0: &BranchRow) -> (r: RepoResult<RepoBranch>)
        ensures
            r matches Ok(branch) && branch@ == (RepoBranchView {
                repo_id: row0.repo_id@,
                name: row0.name@,
                indexed_commit_id: opt_text(row0.indexed_commit_id),
            }),
    {
        Ok(
            RepoBranch {
                repo_id: row0.repo_id.clone(),
                name: row0.name.clone(),
                indexed_commit_id: clone_opt_text(&row0.indexed_commit_id),
            },
        )
    }
}

/// The migration that creates the table of branches.
#[derive(Debug, Clone, Copy, PartialEq, Eq)]
pub struct CreateBranchesTable;

impl CreateBranchesTable {
    /// The schema version that the migration leads to.
    pub fn version(&self) -> (r: u32)
        ensures
            r == 2,
    {
        2
    }

    pub fn description(&self) -> (r: String)
        ensures
            r@ == "create branches table"@,
    {
        "create branches table".to_owned()
    }

    /// Creates the table. The catalog takes the migration only when its
    /// schema stands one version below.
    pub fn up(&self, db: &mut Db) -> (r: RepoResult<()>)
        requires
            old(db).wf(),
        ensures
            write_outcome(*old(db), *final(db), r, DbWriteView::Up(2)),
    {
        db.up(self.version())
    }

    /// Drops the table, with every row in it. The catalog undoes the
    /// migration only when its schema stands at this version.
    pub fn down(&self, db: &mut Db) -> (r: RepoResult<()>)
        requires
            old(db).wf(),
        ensures
            write_outcome(*old(db), *final(db), r, DbWriteView::Down(2)),
    {
        db.down(self.version())
    }
}

} // verus!
