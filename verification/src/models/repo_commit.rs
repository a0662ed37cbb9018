//! The catalog row of a commit waiting to be, or already, indexed.

use vstd::prelude::*;
use crate::catalog::DbWriteView;
use crate::db::{write_outcome, Db};
use vstd::string::*;
use crate::models::types::str_eq;
use crate::result::{RepoError, RepoResult};

verus! {

/// Whether a discovered commit has been shipped to the search index.
#[derive(Debug, Clone, Copy, PartialEq, Eq, Structural)]
pub enum CommitState {
    Indexed,
    NotIndexed,
}

impl CommitState {
    /// The name under which the state is stored.
    pub open spec fn name(self) -> Seq<char> {
        match self {
            CommitState::Indexed => "Indexed"@,
            CommitState::NotIndexed => "NotIndexed"@,
        }
    }

    /// The state stored under `text`, if `text` names one.
    pub open spec fn parse(text: Seq<char>) -> Option<CommitState> {
        if text == "Indexed"@ {
            Some(CommitState::Indexed)
        } else if text == "NotIndexed"@ {
            Some(CommitState::NotIndexed)
        } else {
            None
        }
    }

    /// Reads a stored state name; any other text is an `EnumParseError` that
    /// carries the text.
    pub fn from_str(s: &str) -> (r: RepoResult<CommitState>)
        ensures
            match CommitState::parse(s@) {
                Some(state) => r == Ok::<CommitState, RepoError>(state),
                None => r matches Err(RepoError::EnumParseError(text)) && text@ == s@,
            },
    {
        if str_eq(s, "Indexed") {
            Ok(CommitState::Indexed)
        } else if str_eq(s, "NotIndexed") {
            Ok(CommitState::NotIndexed)
        } else {
            Err(RepoError::EnumParseError(s.to_owned()))
        }
    }

    /// The name under which the state is stored.
    pub fn to_string(&self) -> (r: String)
        ensures
            r@ == self.name(),
    {
        match self {
            CommitState::Indexed => "Indexed".to_owned(),
            CommitState::NotIndexed => "NotIndexed".to_owned(),
        }
    }
}

/// Every state is read back from the name it is stored under.
pub proof fn lemma_commit_state_round_trip(state: CommitState)
    ensures
        CommitState::parse(state.name()) == Some(state),
{
    reveal_strlit("Indexed");
    reveal_strlit("NotIndexed");
    assert("Indexed"@.len() == 7);
    assert("NotIndexed"@.len() == 10);
}

/// A commit discovered by a revision walk.
#[derive(Debug, PartialEq, Eq)]
pub struct RepoCommit {
    pub id: String,
    pub repo_id: String,
    pub state: CommitState,
}

/// What a `RepoCommit` row says.
pub struct RepoCommitView {
    pub id: Seq<char>,
    pub repo_id: Seq<char>,
    pub state: CommitState,
}

impl View for RepoCommit {
    type V = RepoCommitView;

    open spec fn view(&self) -> RepoCommitView {
        RepoCommitView { id: self.id@, repo_id: self.repo_id@, state: self.state }
    }
}

impl Clone for RepoCommit {
    fn clone(&self) -> (r: Self)
        ensures
            r@ == self@,
    {
        RepoCommit { id: self.id.clone(), repo_id: self.repo_id.clone(), state: self.state }
    }
}

/// The columns of a stored commit row.
#[derive(Debug, Clone, PartialEq, Eq)]
pub struct CommitRow {
    pub id: String,
    pub repo_id: String,
    pub state: String,
}

impl RepoCommit {
    pub fn new(id: String, repo_id: String, state: CommitState) -> (r: RepoCommit)
        ensures
            r@ == (RepoCommitView { id: id@, repo_id: repo_id@, state }),
    {
        RepoCommit { id, repo_id, state }
    }

    /// Reads a stored row. The row is accepted exactly when its state column
    /// names a commit state; otherwise the error carries the column's text.
    pub fn new_from_sql_row(row0: &CommitRow) -> (r: RepoResult<RepoCommit>)
        ensures
            match CommitState::parse(row0.state@) {
                Some(state) => r matches Ok(commit) && commit@ == (RepoCommitView {
                    id: row0.id@,
                    repo_id: row0.repo_id@,
                    state,
                }),
                None => r matches Err(RepoError::EnumParseError(text)) && text@ == row0.state@,
            },
    {
        match CommitState::from_str(row0.state.as_str()) {
            Ok(state) => Ok(
                RepoCommit { id: row0.id.clone(), repo_id: row0.repo_id.clone(), state },
            ),
            Err(e) => Err(e),
        }
    }
}

/// The migration that creates the table of commits.
#[derive(Debug, Clone, Copy, PartialEq, Eq)]
pub struct CreateCommitsTable;

impl CreateCommitsTable {
    /// The schema version that the migration leads to.
    pub fn version(&self) -> (r: u32)
        ensures
            r == 3,
    {
        3
    }

    pub fn description(&self) -> (r: String)
        ensures
            r@ == "create commits table"@,
    {
        "create commits table".to_owned()
    }

    /// Creates the table. The catalog takes the migration only when its
    /// schema stands one version below.
    pub fn up(&self, db: &mut Db) -> (r: RepoResult<()>)
        requires
            old(db).wf(),
        ensures
            write_outcome(*old(db), *final(db), r, DbWriteView::Up(3)),
    {
        db.up(self.version())
    }

    /// Drops the table, with every row in it. The catalog undoes the
    /// migration only when its schema stands at this version.
    pub fn down(&self, db: &mut Db) -> (r: RepoResult<()>)
        requires
            old(db).wf(),
        ensures
            write_outcome(*old(db), *final(db), r, DbWriteView::Down(3)),
    {
        db.down(self.version())
    }
}

} // verus!
