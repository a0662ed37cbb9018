//! The catalog: the record of what has been discovered and what has been
//! indexed.
//!
//! `Db` holds the tables in memory and keeps a journal of every write it
//! accepts, so that a host can repeat the writes on durable storage. What
//! each operation does is stated over the model in `catalog`.

use vstd::prelude::*;
use crate::catalog::{
    branch_is, branch_marked, commit_id, commit_is, commit_is_pending, commit_marked,
    commit_of_other_repo, file_changed, file_is, file_is_pending, file_marked, find_first,
    lemma_accepted_stops, lemma_apply_keeps_wf, lemma_filter_take_none, lemma_filter_take_step, lemma_find_first_step,
    lemma_replay_push, opt_view,
    newest_version, repo_has_id, repo_has_uri, repo_updated, views, Catalog, DbWriteView,
};
use crate::models::repo_branch::{CreateBranchesTable, RepoBranch};
use crate::models::repo_commit::{CommitState, CreateCommitsTable, RepoCommit, RepoCommitView};
use crate::models::repo_file::{CreateFilesTable, RepoFile, RepoFileView};
use crate::models::repository::{CreateRepositoriesTable, Repository};
use crate::models::types::{str_eq, texts, RepoPath};
use crate::result::{RepoError, RepoResult};

verus! {

/// One change to the catalog, as the journal records it.
#[derive(Debug, PartialEq, Eq)]
pub enum DbWrite {
    /// Apply the migration that leads to this schema version.
    Up(u32),
    /// Undo the migration that led to this schema version.
    Down(u32),
    InsertRepo(Repository),
    UpdateRepo(Repository),
    InsertBranch(RepoBranch),
    MarkBranchIndexed { repo_id: String, name: String, commit_id: String },
    CreateCommit { id: String, repo_id: String },
    MarkCommitIndexed { repo_id: String, commit_id: String },
    UpsertFile { repo_id: String, branch: String, path: RepoPath, changed_commit_id: String },
    MarkFileIndexed { repo_id: String, path: RepoPath, indexed_commit_id: String },
    ClearCommits { repo_id: String },
}

impl View for DbWrite {
    type V = DbWriteView;

    open spec fn view(&self) -> DbWriteView {
        match self {
            DbWrite::Up(version) => DbWriteView::Up(*version as nat),
            DbWrite::Down(version) => DbWriteView::Down(*version as nat),
            DbWrite::InsertRepo(repo) => DbWriteView::InsertRepo(repo@),
            DbWrite::UpdateRepo(repo) => DbWriteView::UpdateRepo(repo@),
            DbWrite::InsertBranch(branch) => DbWriteView::InsertBranch(branch@),
            DbWrite::MarkBranchIndexed { repo_id, name, commit_id } => {
                DbWriteView::MarkBranchIndexed {
                    repo_id: repo_id@,
                    name: name@,
                    commit_id: commit_id@,
                }
            },
            DbWrite::CreateCommit { id, repo_id } => DbWriteView::CreateCommit {
                id: id@,
                repo_id: repo_id@,
            },
            DbWrite::MarkCommitIndexed { repo_id, commit_id } => DbWriteView::MarkCommitIndexed {
                repo_id: repo_id@,
                commit_id: commit_id@,
            },
            DbWrite::UpsertFile { repo_id, branch, path, changed_commit_id } => {
                DbWriteView::UpsertFile {
                    repo_id: repo_id@,
                    branch: branch@,
                    path: path@,
                    changed_commit_id: changed_commit_id@,
                }
            },
            DbWrite::MarkFileIndexed { repo_id, path, indexed_commit_id } => {
                DbWriteView::MarkFileIndexed {
                    repo_id: repo_id@,
                    path: path@,
                    indexed_commit_id: indexed_commit_id@,
                }
            },
            DbWrite::ClearCommits { repo_id } => DbWriteView::ClearCommits { repo_id: repo_id@ },
        }
    }
}

/// The error of a statement that the catalog refuses.
pub open spec fn is_sql_error<T>(result: RepoResult<T>) -> bool {
    result matches Err(RepoError::SqlError(_))
}

fn sql_error<T>(message: &str) -> (r: RepoResult<T>)
    ensures
        is_sql_error(r),
{
    Err(RepoError::SqlError(message.to_owned()))
}

/// What a write does: a write that the model accepts succeeds, changes the
/// content as the model says and is added to the journal; one that the model
/// refuses fails with an SQL error and changes nothing. Either way the
/// invariant holds afterwards and the durable content is untouched.
pub open spec fn write_outcome(
    before: Db,
    after: Db,
    result: RepoResult<()>,
    write: DbWriteView,
) -> bool {
    &&& after.wf()
    &&& after.durable() == before.durable()
    &&& match before@.apply(write) {
        Some(next) => result is Ok && after@ == next && after.pending_writes()
            == before.pending_writes().push(write),
        None => is_sql_error(result) && after@ == before@ && after.pending_writes()
            == before.pending_writes(),
    }
}

/// What a sequence of writes does: they are taken in order until one is
/// refused. The call succeeds exactly when none is; a refusal is an SQL
/// error and leaves the writes before it in place.
pub open spec fn writes_outcome(
    before: Db,
    after: Db,
    result: RepoResult<()>,
    writes: Seq<DbWriteView>,
) -> bool {
    &&& after.wf()
    &&& after.durable() == before.durable()
    &&& after@ == before@.accepted(writes).0
    &&& if before@.accepted(writes).1 == writes.len() {
        result is Ok
    } else {
        is_sql_error(result)
    }
}

/// The catalog.
pub struct Db {
    version: u32,
    repositories: Vec<Repository>,
    branches: Vec<RepoBranch>,
    commits: Vec<RepoCommit>,
    files: Vec<RepoFile>,
    journal: Vec<DbWrite>,
    durable: Ghost<Catalog>,
}

impl View for Db {
    type V = Catalog;

    closed spec fn view(&self) -> Catalog {
        Catalog {
            version: self.version as nat,
            repositories: views(self.repositories@),
            branches: views(self.branches@),
            commits: views(self.commits@),
            files: views(self.files@),
        }
    }
}

impl Db {
    /// The content of the catalog when the journal was last taken: what a
    /// host that repeats every journal on durable storage holds there.
    pub closed spec fn durable(&self) -> Catalog {
        self.durable@
    }

    /// The writes accepted since the journal was last taken.
    pub closed spec fn pending_writes(&self) -> Seq<DbWriteView> {
        views(self.journal@)
    }

    /// The invariant of the catalog: its content is well formed, and it is
    /// what the pending writes make of the durable content.
    pub closed spec fn wf(&self) -> bool {
        &&& self@.wf()
        &&& self.durable@.wf()
        &&& self.durable@.replay(views(self.journal@)) == Some(self@)
    }

    /// The invariant, spelled out for the users of the catalog.
    pub proof fn lemma_wf(&self)
        requires
            self.wf(),
        ensures
            self@.wf(),
            self.durable().wf(),
            self.durable().replay(self.pending_writes()) == Some(self@),
    {
    }

    /// Adds `write` to the journal after the tables have taken it.
    fn record(&mut self, write: DbWrite, Ghost(before): Ghost<Catalog>)
        requires
            before.wf(),
            old(self).durable@.wf(),
            old(self).durable@.replay(views(old(self).journal@)) == Some(before),
            before.apply(write@) == Some(old(self)@),
        ensures
            final(self).wf(),
            final(self)@ == old(self)@,
            final(self).durable() == old(self).durable(),
            final(self).pending_writes() == old(self).pending_writes().push(write@),
    {
        proof {
            lemma_replay_push(self.durable@, views(self.journal@), write@);
            lemma_apply_keeps_wf(before, write@);
        }
        let ghost entry = write@;
        self.journal.push(write);
        assert(views(self.journal@) =~= views(old(self).journal@).push(entry));
    }

    /// A catalog that lives in memory only, with no tables yet.
    pub fn open_in_memory() -> (r: RepoResult<Db>)
        ensures
            r matches Ok(db) && db.wf() && db@ == Catalog::empty() && db.durable()
                == Catalog::empty() && db.pending_writes() == Seq::<DbWriteView>::empty(),
    {
        let db = Db {
            version: 0,
            repositories: Vec::new(),
            branches: Vec::new(),
            commits: Vec::new(),
            files: Vec::new(),
            journal: Vec::new(),
            durable: Ghost(Catalog::empty()),
        };
        assert(db@ =~= Catalog::empty()) by {
            assert(views(db.repositories@) =~= Seq::empty());
            assert(views(db.branches@) =~= Seq::empty());
            assert(views(db.commits@) =~= Seq::empty());
            assert(views(db.files@) =~= Seq::empty());
        }
        assert(views(db.journal@) =~= Seq::empty());
        Ok(db)
    }

    /// Hands over the journal and starts a new one. Repeating the writes, in
    /// order, on the durable content gives the present content.
    pub fn take_writes(&mut self) -> (r: Vec<DbWrite>)
        requires
            old(self).wf(),
        ensures
            final(self).wf(),
            final(self)@ == old(self)@,
            final(self).durable() == old(self)@,
            final(self).pending_writes() == Seq::<DbWriteView>::empty(),
            views(r@) == old(self).pending_writes(),
            old(self).durable().replay(views(r@)) == Some(old(self)@),
    {
        let mut taken: Vec<DbWrite> = Vec::new();
        core::mem::swap(&mut taken, &mut self.journal);
        self.durable = Ghost(self@);
        assert(views(self.journal@) =~= Seq::empty());
        taken
    }

    /// How many writes the journal holds.
    pub fn pending_count(&self) -> (r: usize)
        ensures
            r == self.pending_writes().len(),
    {
        self.journal.len()
    }

    /// The schema version: how many migrations have been applied.
    pub fn schema_version(&self) -> (r: u32)
        requires
            self.wf(),
        ensures
            r == self@.version,
    {
        self.version
    }

    /// Applies the migration that leads to schema version `version`. It is
    /// refused unless the schema stands just below that version.
    pub fn up(&mut self, version: u32) -> (r: RepoResult<()>)
        requires
            old(self).wf(),
        ensures
            write_outcome(*old(self), *final(self), r, DbWriteView::Up(version as nat)),
    {
        if 1 <= version && version <= 4 && self.version == version - 1 {
            let ghost before = self@;
            self.version = version;
            self.record(DbWrite::Up(version), Ghost(before));
            Ok(())
        } else {
            sql_error("the schema is not one version below the migration")
        }
    }

    /// Undoes the migration that led to schema version `version`, dropping
    /// the table it created. It is refused unless the schema stands at that
    /// version.
    pub fn down(&mut self, version: u32) -> (r: RepoResult<()>)
        requires
            old(self).wf(),
        ensures
            write_outcome(*old(self), *final(self), r, DbWriteView::Down(version as nat)),
    {
        if 1 <= version && self.version == version {
            let ghost before = self@;
            self.version = version - 1;
            if version == 1 {
                self.repositories = Vec::new();
                assert(views(self.repositories@) =~= Seq::empty());
            } else if version == 2 {
                self.branches = Vec::new();
                assert(views(self.branches@) =~= Seq::empty());
            } else if version == 3 {
                self.commits = Vec::new();
                assert(views(self.commits@) =~= Seq::empty());
            } else if version == 4 {
                self.files = Vec::new();
                assert(views(self.files@) =~= Seq::empty());
            }
            assert(self@ == before.down(version as nat)->0);
            self.record(DbWrite::Down(version), Ghost(before));
            Ok(())
        } else {
            sql_error("the schema is not at the version of the migration")
        }
    }

    /// Brings the schema to the newest version, applying the migrations that
    /// are still pending in the order of their versions. Rows are kept.
    pub fn migrate(&mut self)
        requires
            old(self).wf(),
        ensures
            final(self).wf(),
            final(self).durable() == old(self).durable(),
            final(self)@ == (Catalog { version: newest_version(), ..old(self)@ }),
    {
        if self.version < 1 {
            let _ = CreateRepositoriesTable.up(self);
        }
        if self.version < 2 {
            let _ = CreateBranchesTable.up(self);
        }
        if self.version < 3 {
            let _ = CreateCommitsTable.up(self);
        }
        if self.version < 4 {
            let _ = CreateFilesTable.up(self);
        }
    }
}


impl Db {
    // -- repositories -----------------------------------------------------
    fn repo_position_by_uri(&self, uri: &str) -> (r: Option<usize>)
        ensures
            match r {
                Some(i) => i < self.repositories.len() && self@.find_repo_by_remote(uri@) == Some(
                    self.repositories[i as int]@,
                ),
                None => self@.find_repo_by_remote(uri@) is None,
            },
    {
        let ghost rows = views(self.repositories@);
        let mut i: usize = 0;
        assert(rows.skip(0) == rows);
        while i < self.repositories.len()
            invariant
                i <= self.repositories.len(),
                rows == views(self.repositories@),
                find_first(rows, repo_has_uri(uri@)) == find_first(
                    rows.skip(i as int),
                    repo_has_uri(uri@),
                ),
            decreases self.repositories.len() - i,
        {
            proof {
                lemma_find_first_step(rows, repo_has_uri(uri@), i as int);
            }
            if str_eq(self.repositories[i].uri.as_str(), uri) {
                return Some(i);
            }
            i += 1;
        }
        None
    }

    fn repo_position_by_id(&self, id: &str) -> (r: Option<usize>)
        ensures
            match r {
                Some(i) => i < self.repositories.len() && self@.find_repo(id@) == Some(
                    self.repositories[i as int]@,
                ),
                None => self@.find_repo(id@) is None,
            },
    {
        let ghost rows = views(self.repositories@);
        let mut i: usize = 0;
        assert(rows.skip(0) == rows);
        while i < self.repositories.len()
            invariant
                i <= self.repositories.len(),
                rows == views(self.repositories@),
                find_first(rows, repo_has_id(id@)) == find_first(
                    rows.skip(i as int),
                    repo_has_id(id@),
                ),
            decreases self.repositories.len() - i,
        {
            proof {
                lemma_find_first_step(rows, repo_has_id(id@), i as int);
            }
            if str_eq(self.repositories[i].id.as_str(), id) {
                return Some(i);
            }
            i += 1;
        }
        None
    }

    /// The repository mirrored from `remote`, if the catalog knows it. Fails
    /// while the schema has no repositories table.
    pub fn find_repo_by_remote(&self, remote: &String) -> (r: RepoResult<Option<Repository>>)
        requires
            self.wf(),
        ensures
            if self@.version >= 1 {
                r matches Ok(found) && opt_view(found) == self@.find_repo_by_remote(remote@)
            } else {
                is_sql_error(r)
            },
    {
        if self.version < 1 {
            return sql_error("no such table: repositories");
        }
        match self.repo_position_by_uri(remote.as_str()) {
            Some(i) => Ok(Some(self.repositories[i].clone())),
            None => Ok(None),
        }
    }

    /// The repository with identifier `id`, if the catalog knows it. Fails
    /// while the schema has no repositories table.
    pub fn find_repo(&self, id: &str) -> (r: RepoResult<Option<Repository>>)
        requires
            self.wf(),
        ensures
            if self@.version >= 1 {
                r matches Ok(found) && opt_view(found) == self@.find_repo(id@)
            } else {
                is_sql_error(r)
            },
    {
        if self.version < 1 {
            return sql_error("no such table: repositories");
        }
        match self.repo_position_by_id(id) {
            Some(i) => Ok(Some(self.repositories[i].clone())),
            None => Ok(None),
        }
    }

    /// Writes path, sync state and the fetch and index times of `repo` to
    /// the row with its id.
    pub fn update_repo(&mut self, repo: &Repository) -> (r: RepoResult<()>)
        requires
            old(self).wf(),
        ensures
            write_outcome(*old(self), *final(self), r, DbWriteView::UpdateRepo(repo@)),
    {
        if self.version < 1 {
            return sql_error("no such table: repositories");
        }
        let ghost before = self@;
        let mut rows: Vec<Repository> = Vec::new();
        let mut i: usize = 0;
        while i < self.repositories.len()
            invariant
                i <= self.repositories.len(),
                rows.len() == i,
                forall|k: int|
                    0 <= k < i ==> rows[k]@ == repo_updated(repo@)(self.repositories[k]@),
            decreases self.repositories.len() - i,
        {
            let row = &self.repositories[i];
            if str_eq(row.id.as_str(), repo.id.as_str()) {
                rows.push(
                    Repository {
                        id: row.id.clone(),
                        uri: row.uri.clone(),
                        path: repo.path.clone(),
                        sync_state: repo.sync_state,
                        added_datetime: row.added_datetime,
                        fetched_datetime: repo.fetched_datetime,
                        indexed_datetime: repo.indexed_datetime,
                    },
                );
            } else {
                rows.push(row.clone());
            }
            i += 1;
        }
        assert(views(rows@) =~= views(self.repositories@).map_values(repo_updated(repo@)));
        self.repositories = rows;
        self.record(DbWrite::UpdateRepo(repo.clone()), Ghost(before));
        Ok(())
    }

    /// Adds a repository. Refused where a repository with the same id or the
    /// same URI is already there.
    pub fn insert_repo(&mut self, repo: &Repository) -> (r: RepoResult<()>)
        requires
            old(self).wf(),
        ensures
            write_outcome(*old(self), *final(self), r, DbWriteView::InsertRepo(repo@)),
    {
        if self.version < 1 {
            return sql_error("no such table: repositories");
        }
        if self.repo_position_by_id(repo.id.as_str()).is_some() {
            return sql_error("UNIQUE constraint failed: repositories.id");
        }
        if self.repo_position_by_uri(repo.uri.as_str()).is_some() {
            return sql_error("UNIQUE constraint failed: repositories.uri");
        }
        let ghost before = self@;
        self.repositories.push(repo.clone());
        assert(views(self.repositories@) =~= before.repositories.push(repo@));
        self.record(DbWrite::InsertRepo(repo.clone()), Ghost(before));
        Ok(())
    }

    // -- branches ---------------------------------------------------------
    fn branch_position(&self, repo_id: &str, name: &str) -> (r: Option<usize>)
        ensures
            match r {
                Some(i) => i < self.branches.len() && self@.find_branch(repo_id@, name@) == Some(
                    self.branches[i as int]@,
                ),
                None => self@.find_branch(repo_id@, name@) is None,
            },
    {
        let ghost rows = views(self.branches@);
        let mut i: usize = 0;
        assert(rows.skip(0) == rows);
        while i < self.branches.len()
            invariant
                i <= self.branches.len(),
                rows == views(self.branches@),
                find_first(rows, branch_is(repo_id@, name@)) == find_first(
                    rows.skip(i as int),
                    branch_is(repo_id@, name@),
                ),
            decreases self.branches.len() - i,
        {
            proof {
                lemma_find_first_step(rows, branch_is(repo_id@, name@), i as int);
            }
            if str_eq(self.branches[i].repo_id.as_str(), repo_id) && str_eq(
                self.branches[i].name.as_str(),
                name,
            ) {
                return Some(i);
            }
            i += 1;
        }
        None
    }

    /// The branch `name` of the repository, if the catalog knows it. Fails
    /// while the schema has no branches table.
    pub fn find_branch(&self, repo_id: &str, name: &str) -> (r: RepoResult<Option<RepoBranch>>)
        requires
            self.wf(),
        ensures
            if self@.version >= 2 {
                r matches Ok(found) && opt_view(found) == self@.find_branch(repo_id@, name@)
            } else {
                is_sql_error(r)
            },
    {
        if self.version < 2 {
            return sql_error("no such table: branches");
        }
        match self.branch_position(repo_id, name) {
            Some(i) => Ok(Some(self.branches[i].clone())),
            None => Ok(None),
        }
    }

    /// Sets the watermark of the branch: the commit up to which it has been
    /// indexed.
    pub fn mark_branch_as_indexed(&mut self, repo_id: &str, branch: &str, commit_id: &str) -> (r:
        RepoResult<()>)
        requires
            old(self).wf(),
        ensures
            write_outcome(
                *old(self),
                *final(self),
                r,
                DbWriteView::MarkBranchIndexed {
                    repo_id: repo_id@,
                    name: branch@,
                    commit_id: commit_id@,
                },
            ),
    {
        if self.version < 2 {
            return sql_error("no such table: branches");
        }
        let ghost before = self@;
        let mut rows: Vec<RepoBranch> = Vec::new();
        let mut i: usize = 0;
        while i < self.branches.len()
            invariant
                i <= self.branches.len(),
                rows.len() == i,
                forall|k: int|
                    0 <= k < i ==> rows[k]@ == branch_marked(repo_id@, branch@, commit_id@)(
                        self.branches[k]@,
                    ),
            decreases self.branches.len() - i,
        {
            let row = &self.branches[i];
            if str_eq(row.repo_id.as_str(), repo_id) && str_eq(row.name.as_str(), branch) {
                rows.push(
                    RepoBranch {
                        repo_id: row.repo_id.clone(),
                        name: row.name.clone(),
                        indexed_commit_id: Some(commit_id.to_owned()),
                    },
                );
            } else {
                rows.push(row.clone());
            }
            i += 1;
        }
        assert(views(rows@) =~= views(self.branches@).map_values(
            branch_marked(repo_id@, branch@, commit_id@),
        ));
        self.branches = rows;
        self.record(
            DbWrite::MarkBranchIndexed {
                repo_id: repo_id.to_owned(),
                name: branch.to_owned(),
                commit_id: commit_id.to_owned(),
            },
            Ghost(before),
        );
        Ok(())
    }

    /// Adds a branch. Refused where the repository already has a branch of
    /// that name.
    pub fn insert_branch(&mut self, branch: &RepoBranch) -> (r: RepoResult<()>)
        requires
            old(self).wf(),
        ensures
            write_outcome(*old(self), *final(self), r, DbWriteView::InsertBranch(branch@)),
    {
        if self.version < 2 {
            return sql_error("no such table: branches");
        }
        if self.branch_position(branch.repo_id.as_str(), branch.name.as_str()).is_some() {
            return sql_error("UNIQUE constraint failed: branches.repo_id, branches.name");
        }
        let ghost before = self@;
        self.branches.push(branch.clone());
        assert(views(self.branches@) =~= before.branches.push(branch@));
        self.record(DbWrite::InsertBranch(branch.clone()), Ghost(before));
        Ok(())
    }

    // -- commits ----------------------------------------------------------
    fn commit_position(&self, repo_id: &str, id: &str) -> (r: Option<usize>)
        ensures
            match r {
                Some(i) => i < self.commits.len() && self@.find_commit(repo_id@, id@) == Some(
                    self.commits[i as int]@,
                ),
                None => self@.find_commit(repo_id@, id@) is None,
            },
    {
        let ghost rows = views(self.commits@);
        let mut i: usize = 0;
        assert(rows.skip(0) == rows);
        while i < self.commits.len()
            invariant
                i <= self.commits.len(),
                rows == views(self.commits@),
                find_first(rows, commit_is(repo_id@, id@)) == find_first(
                    rows.skip(i as int),
                    commit_is(repo_id@, id@),
                ),
            decreases self.commits.len() - i,
        {
            proof {
                lemma_find_first_step(rows, commit_is(repo_id@, id@), i as int);
            }
            if str_eq(self.commits[i].repo_id.as_str(), repo_id) && str_eq(
                self.commits[i].id.as_str(),
                id,
            ) {
                return Some(i);
            }
            i += 1;
        }
        None
    }

    /// Records a discovered commit as waiting to be indexed, unless the
    /// catalog already has it: then nothing changes, whatever its state.
    pub fn create_commit_unless_exists(&mut self, id: &str, repo_id: &str) -> (r: RepoResult<()>)
        requires
            old(self).wf(),
        ensures
            write_outcome(
                *old(self),
                *final(self),
                r,
                DbWriteView::CreateCommit { id: id@, repo_id: repo_id@ },
            ),
    {
        if self.version < 3 {
            return sql_error("no such table: commits");
        }
        let ghost before = self@;
        if self.commit_position(repo_id, id).is_none() {
            self.commits.push(
                RepoCommit {
                    id: id.to_owned(),
                    repo_id: repo_id.to_owned(),
                    state: CommitState::NotIndexed,
                },
            );
            assert(views(self.commits@) =~= before.commits.push(
                RepoCommitView { id: id@, repo_id: repo_id@, state: CommitState::NotIndexed },
            ));
        }
        self.record(
            DbWrite::CreateCommit { id: id.to_owned(), repo_id: repo_id.to_owned() },
            Ghost(before),
        );
        Ok(())
    }

    /// The identifiers of the commits of the repository that wait to be
    /// indexed, in the order they were discovered.
    pub fn find_commits_not_indexed(&self, repo_id: &str) -> (r: RepoResult<Vec<String>>)
        requires
            self.wf(),
        ensures
            if self@.version >= 3 {
                r matches Ok(ids) && texts(ids@) == self@.commits_not_indexed(repo_id@)
            } else {
                is_sql_error(r)
            },
    {
        if self.version < 3 {
            return sql_error("no such table: commits");
        }
        let ghost rows = views(self.commits@);
        let ghost pending = commit_is_pending(repo_id@);
        let mut result: Vec<String> = Vec::new();
        let mut i: usize = 0;
        proof {
            lemma_filter_take_none(rows, pending);
            assert(texts(result@) =~= rows.take(0).filter(pending).map_values(commit_id()));
        }
        while i < self.commits.len()
            invariant
                i <= self.commits.len(),
                rows == views(self.commits@),
                pending == commit_is_pending(repo_id@),
                texts(result@) == rows.take(i as int).filter(pending).map_values(commit_id()),
            decreases self.commits.len() - i,
        {
            proof {
                lemma_filter_take_step(rows, pending, i as int);
            }
            let row = &self.commits[i];
            if str_eq(row.repo_id.as_str(), repo_id) && row.state == CommitState::NotIndexed {
                let ghost found = result@;
                let ghost front = rows.take(i as int).filter(pending);
                result.push(row.id.clone());
                assert(texts(result@) =~= texts(found).push(row.id@));
                assert(front.push(rows[i as int]).map_values(commit_id()) =~= front.map_values(
                    commit_id(),
                ).push(rows[i as int].id));
                assert(texts(result@) =~= rows.take(i + 1).filter(pending).map_values(
                    commit_id(),
                ));
            }
            i += 1;
        }
        assert(rows.take(i as int) == rows);
        Ok(result)
    }

    /// Marks a commit of the repository as indexed.
    pub fn mark_commit_as_indexed(&mut self, repo_id: &str, commit_id: &str) -> (r: RepoResult<()>)
        requires
            old(self).wf(),
        ensures
            write_outcome(
                *old(self),
                *final(self),
                r,
                DbWriteView::MarkCommitIndexed { repo_id: repo_id@, commit_id: commit_id@ },
            ),
    {
        if self.version < 3 {
            return sql_error("no such table: commits");
        }
        let ghost before = self@;
        let mut rows: Vec<RepoCommit> = Vec::new();
        let mut i: usize = 0;
        while i < self.commits.len()
            invariant
                i <= self.commits.len(),
                rows.len() == i,
                forall|k: int|
                    0 <= k < i ==> rows[k]@ == commit_marked(repo_id@, commit_id@)(
                        self.commits[k]@,
                    ),
            decreases self.commits.len() - i,
        {
            let row = &self.commits[i];
            if str_eq(row.repo_id.as_str(), repo_id) && str_eq(row.id.as_str(), commit_id) {
                rows.push(
                    RepoCommit {
                        id: row.id.clone(),
                        repo_id: row.repo_id.clone(),
                        state: CommitState::Indexed,
                    },
                );
            } else {
                rows.push(row.clone());
            }
            i += 1;
        }
        assert(views(rows@) =~= views(self.commits@).map_values(
            commit_marked(repo_id@, commit_id@),
        ));
        self.commits = rows;
        self.record(
            DbWrite::MarkCommitIndexed {
                repo_id: repo_id.to_owned(),
                commit_id: commit_id.to_owned(),
            },
            Ghost(before),
        );
        Ok(())
    }

    /// Forgets every commit recorded for the repository.
    pub fn clear_commits(&mut self, repo_id: &str) -> (r: RepoResult<()>)
        requires
            old(self).wf(),
        ensures
            write_outcome(
                *old(self),
                *final(self),
                r,
                DbWriteView::ClearCommits { repo_id: repo_id@ },
            ),
    {
        if self.version < 3 {
            return sql_error("no such table: commits");
        }
        let ghost before = self@;
        let ghost old_rows = views(self.commits@);
        let ghost kept = commit_of_other_repo(repo_id@);
        let mut rows: Vec<RepoCommit> = Vec::new();
        let mut i: usize = 0;
        proof {
            lemma_filter_take_none(old_rows, kept);
            assert(views(rows@) =~= old_rows.take(0).filter(kept));
        }
        while i < self.commits.len()
            invariant
                i <= self.commits.len(),
                old_rows == views(self.commits@),
                kept == commit_of_other_repo(repo_id@),
                views(rows@) == old_rows.take(i as int).filter(kept),
            decreases self.commits.len() - i,
        {
            proof {
                lemma_filter_take_step(old_rows, kept, i as int);
            }
            let row = &self.commits[i];
            if !str_eq(row.repo_id.as_str(), repo_id) {
                rows.push(row.clone());
                assert(views(rows@) =~= old_rows.take(i + 1).filter(kept));
            }
            i += 1;
        }
        assert(old_rows.take(i as int) == old_rows);
        self.commits = rows;
        self.record(DbWrite::ClearCommits { repo_id: repo_id.to_owned() }, Ghost(before));
        Ok(())
    }

    // -- files ------------------------------------------------------------
    fn file_position(&self, repo_id: &str, branch: &str, path: &RepoPath) -> (r: Option<usize>)
        ensures
            match r {
                Some(i) => i < self.files.len() && self@.find_file(repo_id@, branch@, path@)
                    == Some(self.files[i as int]@),
                None => self@.find_file(repo_id@, branch@, path@) is None,
            },
    {
        let ghost rows = views(self.files@);
        let mut i: usize = 0;
        assert(rows.skip(0) == rows);
        while i < self.files.len()
            invariant
                i <= self.files.len(),
                rows == views(self.files@),
                find_first(rows, file_is(repo_id@, branch@, path@)) == find_first(
                    rows.skip(i as int),
                    file_is(repo_id@, branch@, path@),
                ),
            decreases self.files.len() - i,
        {
            proof {
                lemma_find_first_step(rows, file_is(repo_id@, branch@, path@), i as int);
            }
            if str_eq(self.files[i].repo_id.as_str(), repo_id) && str_eq(
                self.files[i].branch.as_str(),
                branch,
            ) && self.files[i].path.same_as(path) {
                return Some(i);
            }
            i += 1;
        }
        None
    }

    /// Records that the file at `path` on `branch` got its current content
    /// in `changed_commit_id`. A file that the catalog already has takes the
    /// new commit and counts as not indexed; a new one is added, not indexed.
    pub fn upsert_file(
        &mut self,
        repo_id: &str,
        branch: &str,
        path: &RepoPath,
        changed_commit_id: &str,
    ) -> (r: RepoResult<()>)
        requires
            old(self).wf(),
        ensures
            write_outcome(
                *old(self),
                *final(self),
                r,
                DbWriteView::UpsertFile {
                    repo_id: repo_id@,
                    branch: branch@,
                    path: path@,
                    changed_commit_id: changed_commit_id@,
                },
            ),
    {
        if self.version < 4 {
            return sql_error("no such table: files");
        }
        let ghost before = self@;
        if self.file_position(repo_id, branch, path).is_none() {
            self.files.push(
                RepoFile {
                    repo_id: repo_id.to_owned(),
                    branch: branch.to_owned(),
                    path: path.clone(),
                    changed_commit_id: changed_commit_id.to_owned(),
                    indexed_commit_id: None,
                },
            );
            assert(views(self.files@) =~= before.files.push(
                RepoFileView {
                    repo_id: repo_id@,
                    branch: branch@,
                    path: path@,
                    changed_commit_id: changed_commit_id@,
                    indexed_commit_id: None,
                },
            ));
        } else {
            let mut rows: Vec<RepoFile> = Vec::new();
            let mut i: usize = 0;
            while i < self.files.len()
                invariant
                    i <= self.files.len(),
                    rows.len() == i,
                    forall|k: int|
                        0 <= k < i ==> rows[k]@ == file_changed(
                            repo_id@,
                            branch@,
                            path@,
                            changed_commit_id@,
                        )(self.files[k]@),
                decreases self.files.len() - i,
            {
                let row = &self.files[i];
                if str_eq(row.repo_id.as_str(), repo_id) && str_eq(row.branch.as_str(), branch)
                    && row.path.same_as(path) {
                    rows.push(
                        RepoFile {
                            repo_id: row.repo_id.clone(),
                            branch: row.branch.clone(),
                            path: row.path.clone(),
                            changed_commit_id: changed_commit_id.to_owned(),
                            indexed_commit_id: None,
                        },
                    );
                } else {
                    rows.push(row.clone());
                }
                i += 1;
            }
            assert(views(rows@) =~= views(self.files@).map_values(
                file_changed(repo_id@, branch@, path@, changed_commit_id@),
            ));
            self.files = rows;
        }
        self.record(
            DbWrite::UpsertFile {
                repo_id: repo_id.to_owned(),
                branch: branch.to_owned(),
                path: path.clone(),
                changed_commit_id: changed_commit_id.to_owned(),
            },
            Ghost(before),
        );
        Ok(())
    }

    /// The files of the repository that have to be indexed: those of which
    /// nothing is indexed, or another commit than the one that last changed
    /// them. They come in the order they were first seen.
    pub fn find_files_not_indexed(&self, repo_id: &str) -> (r: RepoResult<Vec<RepoFile>>)
        requires
            self.wf(),
        ensures
            if self@.version >= 4 {
                r matches Ok(files) && views(files@) == self@.files_not_indexed(repo_id@)
            } else {
                is_sql_error(r)
            },
    {
        if self.version < 4 {
            return sql_error("no such table: files");
        }
        let ghost rows = views(self.files@);
        let ghost pending = file_is_pending(repo_id@);
        let mut result: Vec<RepoFile> = Vec::new();
        let mut i: usize = 0;
        proof {
            lemma_filter_take_none(rows, pending);
            assert(views(result@) =~= rows.take(0).filter(pending));
        }
        while i < self.files.len()
            invariant
                i <= self.files.len(),
                rows == views(self.files@),
                pending == file_is_pending(repo_id@),
                views(result@) == rows.take(i as int).filter(pending),
            decreases self.files.len() - i,
        {
            proof {
                lemma_filter_take_step(rows, pending, i as int);
            }
            let row = &self.files[i];
            if str_eq(row.repo_id.as_str(), repo_id) && row.needs_index() {
                result.push(row.clone());
                assert(views(result@) =~= rows.take(i + 1).filter(pending));
            }
            i += 1;
        }
        assert(rows.take(i as int) == rows);
        Ok(result)
    }

    /// Records that the content of the file at `path` as of
    /// `indexed_commit_id` is in the search index. Every row of the
    /// repository with that path is marked, on whatever branch.
    pub fn mark_file_as_indexed(&mut self, repo_id: &str, path: &RepoPath, indexed_commit_id: &str)
        -> (r: RepoResult<()>)
        requires
            old(self).wf(),
        ensures
            write_outcome(
                *old(self),
                *final(self),
                r,
                DbWriteView::MarkFileIndexed {
                    repo_id: repo_id@,
                    path: path@,
                    indexed_commit_id: indexed_commit_id@,
                },
            ),
    {
        if self.version < 4 {
            return sql_error("no such table: files");
        }
        let ghost before = self@;
        let mut rows: Vec<RepoFile> = Vec::new();
        let mut i: usize = 0;
        while i < self.files.len()
            invariant
                i <= self.files.len(),
                rows.len() == i,
                forall|k: int|
                    0 <= k < i ==> rows[k]@ == file_marked(repo_id@, path@, indexed_commit_id@)(
                        self.files[k]@,
                    ),
            decreases self.files.len() - i,
        {
            let row = &self.files[i];
            if str_eq(row.repo_id.as_str(), repo_id) && row.path.same_as(path) {
                rows.push(
                    RepoFile {
                        repo_id: row.repo_id.clone(),
                        branch: row.branch.clone(),
                        path: row.path.clone(),
                        changed_commit_id: row.changed_commit_id.clone(),
                        indexed_commit_id: Some(indexed_commit_id.to_owned()),
                    },
                );
            } else {
                rows.push(row.clone());
            }
            i += 1;
        }
        assert(views(rows@) =~= views(self.files@).map_values(
            file_marked(repo_id@, path@, indexed_commit_id@),
        ));
        self.files = rows;
        self.record(
            DbWrite::MarkFileIndexed {
                repo_id: repo_id.to_owned(),
                path: path.clone(),
                indexed_commit_id: indexed_commit_id.to_owned(),
            },
            Ghost(before),
        );
        Ok(())
    }
}


impl Db {
    /// Carries out one write.
    pub fn apply(&mut self, write: &DbWrite) -> (r: RepoResult<()>)
        requires
            old(self).wf(),
        ensures
            write_outcome(*old(self), *final(self), r, write@),
    {
        match write {
            DbWrite::Up(version) => self.up(*version),
            DbWrite::Down(version) => self.down(*version),
            DbWrite::InsertRepo(repo) => self.insert_repo(repo),
            DbWrite::UpdateRepo(repo) => self.update_repo(repo),
            DbWrite::InsertBranch(branch) => self.insert_branch(branch),
            DbWrite::MarkBranchIndexed { repo_id, name, commit_id } => self.mark_branch_as_indexed(
                repo_id.as_str(),
                name.as_str(),
                commit_id.as_str(),
            ),
            DbWrite::CreateCommit { id, repo_id } => self.create_commit_unless_exists(
                id.as_str(),
                repo_id.as_str(),
            ),
            DbWrite::MarkCommitIndexed { repo_id, commit_id } => self.mark_commit_as_indexed(
                repo_id.as_str(),
                commit_id.as_str(),
            ),
            DbWrite::UpsertFile { repo_id, branch, path, changed_commit_id } => self.upsert_file(
                repo_id.as_str(),
                branch.as_str(),
                path,
                changed_commit_id.as_str(),
            ),
            DbWrite::MarkFileIndexed { repo_id, path, indexed_commit_id } => {
                self.mark_file_as_indexed(repo_id.as_str(), path, indexed_commit_id.as_str())
            },
            DbWrite::ClearCommits { repo_id } => self.clear_commits(repo_id.as_str()),
        }
    }

    /// Carries out the writes in order and stops at the first that is
    /// refused.
    pub fn apply_all(&mut self, writes: &Vec<DbWrite>) -> (r: RepoResult<()>)
        requires
            old(self).wf(),
        ensures
            writes_outcome(*old(self), *final(self), r, views(writes@)),
    {
        let ghost all = views(writes@);
        let ghost start = self@;
        let mut i: usize = 0;
        assert(all.take(0) =~= Seq::empty());
        while i < writes.len()
            invariant
                i <= writes.len(),
                all == views(writes@),
                start == old(self)@,
                self.wf(),
                self.durable() == old(self).durable(),
                start.accepted(all.take(i as int)) == (self@, i as nat),
            decreases writes.len() - i,
        {
            assert(all.take(i + 1).drop_last() == all.take(i as int));
            assert(all.take(i + 1).last() == writes[i as int]@);
            match self.apply(&writes[i]) {
                Ok(()) => {},
                Err(e) => {
                    proof {
                        lemma_accepted_stops(start, all, i as int);
                    }
                    return Err(e);
                },
            }
            i += 1;
        }
        assert(all.take(i as int) == all);
        Ok(())
    }
}


impl Db {
    /// A copy of every commit row, in the order of the table.
    pub fn commits(&self) -> (r: Vec<RepoCommit>)
        requires
            self.wf(),
        ensures
            views(r@) == self@.commits,
    {
        let mut rows: Vec<RepoCommit> = Vec::new();
        let mut i: usize = 0;
        while i < self.commits.len()
            invariant
                i <= self.commits.len(),
                rows.len() == i,
                forall|k: int| 0 <= k < i ==> rows[k]@ == self.commits[k]@,
            decreases self.commits.len() - i,
        {
            rows.push(self.commits[i].clone());
            i += 1;
        }
        assert(views(rows@) =~= views(self.commits@));
        rows
    }

    /// A copy of every file row, in the order of the table.
    pub fn files(&self) -> (r: Vec<RepoFile>)
        requires
            self.wf(),
        ensures
            views(r@) == self@.files,
    {
        let mut rows: Vec<RepoFile> = Vec::new();
        let mut i: usize = 0;
        while i < self.files.len()
            invariant
                i <= self.files.len(),
                rows.len() == i,
                forall|k: int| 0 <= k < i ==> rows[k]@ == self.files[k]@,
            decreases self.files.len() - i,
        {
            rows.push(self.files[i].clone());
            i += 1;
        }
        assert(views(rows@) =~= views(self.files@));
        rows
    }

    /// A copy of every branch row, in the order of the table.
    pub fn branches(&self) -> (r: Vec<RepoBranch>)
        requires
            self.wf(),
        ensures
            views(r@) == self@.branches,
    {
        let mut rows: Vec<RepoBranch> = Vec::new();
        let mut i: usize = 0;
        while i < self.branches.len()
            invariant
                i <= self.branches.len(),
                rows.len() == i,
                forall|k: int| 0 <= k < i ==> rows[k]@ == self.branches[k]@,
            decreases self.branches.len() - i,
        {
            rows.push(self.branches[i].clone());
            i += 1;
        }
        assert(views(rows@) =~= views(self.branches@));
        rows
    }

    /// A copy of every repository row, in the order of the table.
    pub fn repositories(&self) -> (r: Vec<Repository>)
        requires
            self.wf(),
        ensures
            views(r@) == self@.repositories,
    {
        let mut rows: Vec<Repository> = Vec::new();
        let mut i: usize = 0;
        while i < self.repositories.len()
            invariant
                i <= self.repositories.len(),
                rows.len() == i,
                forall|k: int| 0 <= k < i ==> rows[k]@ == self.repositories[k]@,
            decreases self.repositories.len() - i,
        {
            rows.push(self.repositories[i].clone());
            i += 1;
        }
        assert(views(rows@) =~= views(self.repositories@));
        rows
    }
}


fn repositories_are_unique(rows: &Vec<Repository>) -> (r: bool)
    ensures
        r == forall|i: int, j: int|
            0 <= i < j < rows.len() ==> rows[i]@.id != rows[j]@.id && rows[i]@.uri != rows[j]@.uri,
{
    let mut j: usize = 0;
    while j < rows.len()
        invariant
            j <= rows.len(),
            forall|a: int, b: int|
                0 <= a < b < j ==> rows[a]@.id != rows[b]@.id && rows[a]@.uri != rows[b]@.uri,
        decreases rows.len() - j,
    {
        let mut i: usize = 0;
        while i < j
            invariant
                i <= j < rows.len(),
                forall|a: int|
                    0 <= a < i ==> rows[a]@.id != rows[j as int]@.id && rows[a]@.uri
                        != rows[j as int]@.uri,
            decreases j - i,
        {
            if str_eq(rows[i].id.as_str(), rows[j].id.as_str()) || str_eq(
                rows[i].uri.as_str(),
                rows[j].uri.as_str(),
            ) {
                return false;
            }
            i += 1;
        }
        j += 1;
    }
    true
}

fn branches_are_unique(rows: &Vec<RepoBranch>) -> (r: bool)
    ensures
        r == forall|i: int, j: int|
            0 <= i < j < rows.len() ==> !(rows[i]@.repo_id == rows[j]@.repo_id && rows[i]@.name
                == rows[j]@.name),
{
    let mut j: usize = 0;
    while j < rows.len()
        invariant
            j <= rows.len(),
            forall|a: int, b: int|
                0 <= a < b < j ==> !(rows[a]@.repo_id == rows[b]@.repo_id && rows[a]@.name
                    == rows[b]@.name),
        decreases rows.len() - j,
    {
        let mut i: usize = 0;
        while i < j
            invariant
                i <= j < rows.len(),
                forall|a: int|
                    0 <= a < i ==> !(rows[a]@.repo_id == rows[j as int]@.repo_id && rows[a]@.name
                        == rows[j as int]@.name),
            decreases j - i,
        {
            if str_eq(rows[i].repo_id.as_str(), rows[j].repo_id.as_str()) && str_eq(
                rows[i].name.as_str(),
                rows[j].name.as_str(),
            ) {
                return false;
            }
            i += 1;
        }
        j += 1;
    }
    true
}

fn commits_are_unique(rows: &Vec<RepoCommit>) -> (r: bool)
    ensures
        r == forall|i: int, j: int|
            0 <= i < j < rows.len() ==> !(rows[i]@.repo_id == rows[j]@.repo_id && rows[i]@.id
                == rows[j]@.id),
{
    let mut j: usize = 0;
    while j < rows.len()
        invariant
            j <= rows.len(),
            forall|a: int, b: int|
                0 <= a < b < j ==> !(rows[a]@.repo_id == rows[b]@.repo_id && rows[a]@.id
                    == rows[b]@.id),
        decreases rows.len() - j,
    {
        let mut i: usize = 0;
        while i < j
            invariant
                i <= j < rows.len(),
                forall|a: int|
                    0 <= a < i ==> !(rows[a]@.repo_id == rows[j as int]@.repo_id && rows[a]@.id
                        == rows[j as int]@.id),
            decreases j - i,
        {
            if str_eq(rows[i].repo_id.as_str(), rows[j].repo_id.as_str()) && str_eq(
                rows[i].id.as_str(),
                rows[j].id.as_str(),
            ) {
                return false;
            }
            i += 1;
        }
        j += 1;
    }
    true
}

fn files_are_unique(rows: &Vec<RepoFile>) -> (r: bool)
    ensures
        r == forall|i: int, j: int|
            0 <= i < j < rows.len() ==> !(rows[i]@.repo_id == rows[j]@.repo_id && rows[i]@.branch
                == rows[j]@.branch && rows[i]@.path == rows[j]@.path),
{
    let mut j: usize = 0;
    while j < rows.len()
        invariant
            j <= rows.len(),
            forall|a: int, b: int|
                0 <= a < b < j ==> !(rows[a]@.repo_id == rows[b]@.repo_id && rows[a]@.branch
                    == rows[b]@.branch && rows[a]@.path == rows[b]@.path),
        decreases rows.len() - j,
    {
        let mut i: usize = 0;
        while i < j
            invariant
                i <= j < rows.len(),
                forall|a: int|
                    0 <= a < i ==> !(rows[a]@.repo_id == rows[j as int]@.repo_id && rows[a]@.branch
                        == rows[j as int]@.branch && rows[a]@.path == rows[j as int]@.path),
            decreases j - i,
        {
            if str_eq(rows[i].repo_id.as_str(), rows[j].repo_id.as_str()) && str_eq(
                rows[i].branch.as_str(),
                rows[j].branch.as_str(),
            ) && rows[i].path.same_as(&rows[j].path) {
                return false;
            }
            i += 1;
        }
        j += 1;
    }
    true
}

/// The content that the given rows make up.
pub open spec fn content_of(
    version: u32,
    repositories: Seq<Repository>,
    branches: Seq<RepoBranch>,
    commits: Seq<RepoCommit>,
    files: Seq<RepoFile>,
) -> Catalog {
    Catalog {
        version: version as nat,
        repositories: views(repositories),
        branches: views(branches),
        commits: views(commits),
        files: views(files),
    }
}

impl Db {
    /// The catalog that durable storage holds: the schema version and the
    /// rows of the four tables. Rows that break the invariant of the catalog
    /// are refused: two rows with one key, rows in a table that the schema
    /// version does not have, a schema version that does not exist.
    pub fn from_rows(
        version: u32,
        repositories: Vec<Repository>,
        branches: Vec<RepoBranch>,
        commits: Vec<RepoCommit>,
        files: Vec<RepoFile>,
    ) -> (r: RepoResult<Db>)
        ensures
            ({
                let content = content_of(version, repositories@, branches@, commits@, files@);
                if content.wf() {
                    r matches Ok(db) && db.wf() && db@ == content && db.durable() == content
                        && db.pending_writes() == Seq::<DbWriteView>::empty()
                } else {
                    is_sql_error(r)
                }
            }),
    {
        let ghost content = content_of(version, repositories@, branches@, commits@, files@);
        if version > 4 || (version < 1 && repositories.len() > 0) || (version < 2 && branches.len()
            > 0) || (version < 3 && commits.len() > 0) || (version < 4 && files.len() > 0) {
            return sql_error("the rows do not fit the schema version");
        }
        if !repositories_are_unique(&repositories) {
            proof {
                if content.wf() {
                    assert forall|i: int, j: int| 0 <= i < j < repositories.len() implies repositories[i]@.id
                        != repositories[j]@.id && repositories[i]@.uri != repositories[j]@.uri by {
                        assert(content.repositories[i] == repositories[i]@);
                        assert(content.repositories[j] == repositories[j]@);
                    }
                }
            }
            return sql_error("two repositories share an id or a URI");
        }
        if !branches_are_unique(&branches) {
            proof {
                if content.wf() {
                    assert forall|i: int, j: int| 0 <= i < j < branches.len() implies !(
                    branches[i]@.repo_id == branches[j]@.repo_id && branches[i]@.name
                        == branches[j]@.name) by {
                        assert(content.branches[i] == branches[i]@);
                        assert(content.branches[j] == branches[j]@);
                    }
                }
            }
            return sql_error("two branches share a repository and a name");
        }
        if !commits_are_unique(&commits) {
            proof {
                if content.wf() {
                    assert forall|i: int, j: int| 0 <= i < j < commits.len() implies !(
                    commits[i]@.repo_id == commits[j]@.repo_id && commits[i]@.id == commits[j]@.id) by {
                        assert(content.commits[i] == commits[i]@);
                        assert(content.commits[j] == commits[j]@);
                    }
                }
            }
            return sql_error("two commits share a repository and an id");
        }
        if !files_are_unique(&files) {
            proof {
                if content.wf() {
                    assert forall|i: int, j: int| 0 <= i < j < files.len() implies !(files[i]@.repo_id
                        == files[j]@.repo_id && files[i]@.branch == files[j]@.branch
                        && files[i]@.path == files[j]@.path) by {
                        assert(content.files[i] == files[i]@);
                        assert(content.files[j] == files[j]@);
                    }
                }
            }
            return sql_error("two files share a repository, a branch and a path");
        }
        let db = Db {
            version,
            repositories,
            branches,
            commits,
            files,
            journal: Vec::new(),
            durable: Ghost(content),
        };
        assert(views(db.journal@) =~= Seq::empty());
        assert(db@ == content);
        Ok(db)
    }
}

} // verus!
