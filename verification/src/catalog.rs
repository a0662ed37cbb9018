//! The catalog as a mathematical object: four tables of rows, the writes
//! that change them, and what each write does.
//!
//! The executable catalog in `db` is specified against this model.

use vstd::prelude::*;
use crate::models::repo_branch::RepoBranchView;
use crate::models::repo_commit::{CommitState, RepoCommitView};
use crate::models::repo_file::RepoFileView;
use crate::models::repository::RepositoryView;

verus! {

/// What each row of a sequence says.
pub open spec fn views<T: View>(rows: Seq<T>) -> Seq<T::V> {
    rows.map_values(|row: T| row@)
}

/// The first row that satisfies `pred`.
pub open spec fn find_first<T>(rows: Seq<T>, pred: spec_fn(T) -> bool) -> Option<T>
    decreases rows.len(),
{
    if rows.len() == 0 {
        None
    } else if pred(rows[0]) {
        Some(rows[0])
    } else {
        find_first(rows.drop_first(), pred)
    }
}

/// Searching from position `i` looks at row `i` first and then goes on
/// from `i + 1`.
pub proof fn lemma_find_first_step<T>(rows: Seq<T>, pred: spec_fn(T) -> bool, i: int)
    requires
        0 <= i < rows.len(),
    ensures
        find_first(rows.skip(i), pred) == if pred(rows[i]) {
            Some(rows[i])
        } else {
            find_first(rows.skip(i + 1), pred)
        },
{
    assert(rows.skip(i)[0] == rows[i]);
    assert(rows.skip(i).drop_first() == rows.skip(i + 1));
}

/// A search finds nothing exactly when no row satisfies the predicate, and
/// what it finds is a row that does.
pub proof fn lemma_find_first<T>(rows: Seq<T>, pred: spec_fn(T) -> bool)
    ensures
        find_first(rows, pred) is None <==> forall|i: int| 0 <= i < rows.len() ==> !pred(rows[i]),
        find_first(rows, pred) matches Some(row) ==> pred(row) && rows.contains(row),
    decreases rows.len(),
{
    if rows.len() > 0 {
        let rest = rows.drop_first();
        lemma_find_first(rest, pred);
        if !pred(rows[0]) {
            assert forall|i: int| 0 <= i < rows.len() && find_first(rest, pred) is None implies !pred(
                rows[i],
            ) by {
                if i > 0 {
                    assert(rows[i] == rest[i - 1]);
                }
            }
            if find_first(rest, pred) is Some {
                let row = find_first(rest, pred)->0;
                let k = choose|k: int| 0 <= k < rest.len() && rest[k] == row;
                assert(rows[k + 1] == row);
                assert(pred(rows[k + 1]));
            }
        }
    }
}

/// The version of the schema from which a table exists.
pub open spec fn repositories_since() -> nat {
    1
}

pub open spec fn branches_since() -> nat {
    2
}

pub open spec fn commits_since() -> nat {
    3
}

pub open spec fn files_since() -> nat {
    4
}

/// The newest schema version.
pub open spec fn newest_version() -> nat {
    4
}

/// The repository row stored under the remote URI `uri`.
pub open spec fn repo_has_uri(uri: Seq<char>) -> spec_fn(RepositoryView) -> bool {
    |row: RepositoryView| row.uri == uri
}

pub open spec fn repo_has_id(id: Seq<char>) -> spec_fn(RepositoryView) -> bool {
    |row: RepositoryView| row.id == id
}

pub open spec fn branch_is(repo_id: Seq<char>, name: Seq<char>) -> spec_fn(RepoBranchView) -> bool {
    |row: RepoBranchView| row.repo_id == repo_id && row.name == name
}

pub open spec fn commit_is(repo_id: Seq<char>, id: Seq<char>) -> spec_fn(RepoCommitView) -> bool {
    |row: RepoCommitView| row.repo_id == repo_id && row.id == id
}

/// A commit of the repository that has not been shipped yet.
pub open spec fn commit_is_pending(repo_id: Seq<char>) -> spec_fn(RepoCommitView) -> bool {
    |row: RepoCommitView| row.repo_id == repo_id && row.state == CommitState::NotIndexed
}

pub open spec fn commit_of_other_repo(repo_id: Seq<char>) -> spec_fn(RepoCommitView) -> bool {
    |row: RepoCommitView| row.repo_id != repo_id
}

pub open spec fn file_is(repo_id: Seq<char>, branch: Seq<char>, path: Seq<u8>) -> spec_fn(
    RepoFileView,
) -> bool {
    |row: RepoFileView| row.repo_id == repo_id && row.branch == branch && row.path == path
}

/// A file of the repository that has to be shipped.
pub open spec fn file_is_pending(repo_id: Seq<char>) -> spec_fn(RepoFileView) -> bool {
    |row: RepoFileView| row.repo_id == repo_id && row.needs_index()
}

/// The identifier of a commit row.
pub open spec fn commit_id() -> spec_fn(RepoCommitView) -> Seq<char> {
    |row: RepoCommitView| row.id
}

/// What `update_repo` does to one row: the row with the repository's id takes
/// over path, state and the fetch and index times; identity and the time of
/// addition stay.
pub open spec fn repo_updated(repo: RepositoryView) -> spec_fn(RepositoryView) -> RepositoryView {
    |row: RepositoryView|
        if row.id == repo.id {
            RepositoryView {
                path: repo.path,
                sync_state: repo.sync_state,
                fetched_datetime: repo.fetched_datetime,
                indexed_datetime: repo.indexed_datetime,
                ..row
            }
        } else {
            row
        }
}

/// What `mark_branch_as_indexed` does to one row.
pub open spec fn branch_marked(repo_id: Seq<char>, name: Seq<char>, commit: Seq<char>) -> spec_fn(
    RepoBranchView,
) -> RepoBranchView {
    |row: RepoBranchView|
        if row.repo_id == repo_id && row.name == name {
            RepoBranchView { indexed_commit_id: Some(commit), ..row }
        } else {
            row
        }
}

/// What `mark_commit_as_indexed` does to one row.
pub open spec fn commit_marked(repo_id: Seq<char>, id: Seq<char>) -> spec_fn(
    RepoCommitView,
) -> RepoCommitView {
    |row: RepoCommitView|
        if row.repo_id == repo_id && row.id == id {
            RepoCommitView { state: CommitState::Indexed, ..row }
        } else {
            row
        }
}

/// What `upsert_file` does to a row that is already there: the file has
/// changed, so nothing of it counts as indexed any more.
pub open spec fn file_changed(
    repo_id: Seq<char>,
    branch: Seq<char>,
    path: Seq<u8>,
    commit: Seq<char>,
) -> spec_fn(RepoFileView) -> RepoFileView {
    |row: RepoFileView|
        if row.repo_id == repo_id && row.branch == branch && row.path == path {
            RepoFileView { changed_commit_id: commit, indexed_commit_id: None, ..row }
        } else {
            row
        }
}

/// What `mark_file_as_indexed` does to one row: every row of the repository
/// with that path, on whatever branch, is marked.
pub open spec fn file_marked(repo_id: Seq<char>, path: Seq<u8>, commit: Seq<char>) -> spec_fn(
    RepoFileView,
) -> RepoFileView {
    |row: RepoFileView|
        if row.repo_id == repo_id && row.path == path {
            RepoFileView { indexed_commit_id: Some(commit), ..row }
        } else {
            row
        }
}

/// One change to the catalog.
pub enum DbWriteView {
    /// Apply the migration that leads to this schema version.
    Up(nat),
    /// Undo the migration that led to this schema version.
    Down(nat),
    InsertRepo(RepositoryView),
    UpdateRepo(RepositoryView),
    InsertBranch(RepoBranchView),
    MarkBranchIndexed { repo_id: Seq<char>, name: Seq<char>, commit_id: Seq<char> },
    CreateCommit { id: Seq<char>, repo_id: Seq<char> },
    MarkCommitIndexed { repo_id: Seq<char>, commit_id: Seq<char> },
    UpsertFile { repo_id: Seq<char>, branch: Seq<char>, path: Seq<u8>, changed_commit_id: Seq<char> },
    MarkFileIndexed { repo_id: Seq<char>, path: Seq<u8>, indexed_commit_id: Seq<char> },
    ClearCommits { repo_id: Seq<char> },
}

/// The content of the catalog.
pub struct Catalog {
    /// How many migrations have been applied.
    pub version: nat,
    pub repositories: Seq<RepositoryView>,
    pub branches: Seq<RepoBranchView>,
    pub commits: Seq<RepoCommitView>,
    pub files: Seq<RepoFileView>,
}

impl Catalog {
    /// The catalog before any migration: no tables.
    pub open spec fn empty() -> Catalog {
        Catalog {
            version: 0,
            repositories: Seq::empty(),
            branches: Seq::empty(),
            commits: Seq::empty(),
            files: Seq::empty(),
        }
    }

    /// The invariant of the catalog: the schema version is one that exists, a
    /// table that the schema does not have yet holds nothing, and no two rows
    /// of a table share a key. Repositories are keyed by id and, separately,
    /// by URI; branches by repository and name; commits by repository and
    /// id; files by repository, branch and path.
    pub open spec fn wf(self) -> bool {
        &&& self.version <= newest_version()
        &&& (self.version < repositories_since() ==> self.repositories.len() == 0)
        &&& (self.version < branches_since() ==> self.branches.len() == 0)
        &&& (self.version < commits_since() ==> self.commits.len() == 0)
        &&& (self.version < files_since() ==> self.files.len() == 0)
        &&& forall|i: int, j: int|
            0 <= i < j < self.repositories.len() ==> self.repositories[i].id
                != self.repositories[j].id && self.repositories[i].uri != self.repositories[j].uri
        &&& forall|i: int, j: int|
            0 <= i < j < self.branches.len() ==> !(self.branches[i].repo_id
                == self.branches[j].repo_id && self.branches[i].name == self.branches[j].name)
        &&& forall|i: int, j: int|
            0 <= i < j < self.commits.len() ==> !(self.commits[i].repo_id
                == self.commits[j].repo_id && self.commits[i].id == self.commits[j].id)
        &&& forall|i: int, j: int|
            0 <= i < j < self.files.len() ==> !(self.files[i].repo_id == self.files[j].repo_id
                && self.files[i].branch == self.files[j].branch && self.files[i].path
                == self.files[j].path)
    }

    // -- reads ------------------------------------------------------------
    pub open spec fn find_repo_by_remote(self, uri: Seq<char>) -> Option<RepositoryView> {
        find_first(self.repositories, repo_has_uri(uri))
    }

    pub open spec fn find_repo(self, id: Seq<char>) -> Option<RepositoryView> {
        find_first(self.repositories, repo_has_id(id))
    }

    pub open spec fn find_branch(self, repo_id: Seq<char>, name: Seq<char>) -> Option<
        RepoBranchView,
    > {
        find_first(self.branches, branch_is(repo_id, name))
    }

    pub open spec fn find_commit(self, repo_id: Seq<char>, id: Seq<char>) -> Option<
        RepoCommitView,
    > {
        find_first(self.commits, commit_is(repo_id, id))
    }

    pub open spec fn find_file(self, repo_id: Seq<char>, branch: Seq<char>, path: Seq<u8>)
        -> Option<RepoFileView> {
        find_first(self.files, file_is(repo_id, branch, path))
    }

    /// The commits of the repository that have not been shipped, in the
    /// order they were discovered.
    pub open spec fn commits_not_indexed(self, repo_id: Seq<char>) -> Seq<Seq<char>> {
        self.commits.filter(commit_is_pending(repo_id)).map_values(commit_id())
    }

    /// The files of the repository that have to be shipped, in the order
    /// they were first seen.
    pub open spec fn files_not_indexed(self, repo_id: Seq<char>) -> Seq<RepoFileView> {
        self.files.filter(file_is_pending(repo_id))
    }

    // -- writes -----------------------------------------------------------
    /// Schema version `version` is reached from the one just below it.
    pub open spec fn up(self, version: nat) -> Option<Catalog> {
        if 1 <= version <= newest_version() && self.version + 1 == version {
            Some(Catalog { version, ..self })
        } else {
            None
        }
    }

    /// Schema version `version` is left for the one just below it; the table
    /// it brought goes, with all its rows.
    pub open spec fn down(self, version: nat) -> Option<Catalog> {
        if 1 <= version && self.version == version {
            Some(
                Catalog {
                    version: (version - 1) as nat,
                    repositories: if version == repositories_since() {
                        Seq::empty()
                    } else {
                        self.repositories
                    },
                    branches: if version == branches_since() {
                        Seq::empty()
                    } else {
                        self.branches
                    },
                    commits: if version == commits_since() {
                        Seq::empty()
                    } else {
                        self.commits
                    },
                    files: if version == files_since() {
                        Seq::empty()
                    } else {
                        self.files
                    },
                },
            )
        } else {
            None
        }
    }

    /// A repository is added unless its id or its URI is taken.
    pub open spec fn insert_repo(self, repo: RepositoryView) -> Option<Catalog> {
        if self.version >= repositories_since() && self.find_repo(repo.id) is None
            && self.find_repo_by_remote(repo.uri) is None {
            Some(Catalog { repositories: self.repositories.push(repo), ..self })
        } else {
            None
        }
    }

    pub open spec fn update_repo(self, repo: RepositoryView) -> Option<Catalog> {
        if self.version >= repositories_since() {
            Some(Catalog { repositories: self.repositories.map_values(repo_updated(repo)), ..self })
        } else {
            None
        }
    }

    /// A branch is added unless the repository already has one of that name.
    pub open spec fn insert_branch(self, branch: RepoBranchView) -> Option<Catalog> {
        if self.version >= branches_since() && self.find_branch(branch.repo_id, branch.name)
            is None {
            Some(Catalog { branches: self.branches.push(branch), ..self })
        } else {
            None
        }
    }

    pub open spec fn mark_branch_as_indexed(
        self,
        repo_id: Seq<char>,
        name: Seq<char>,
        commit: Seq<char>,
    ) -> Option<Catalog> {
        if self.version >= branches_since() {
            Some(
                Catalog {
                    branches: self.branches.map_values(branch_marked(repo_id, name, commit)),
                    ..self
                },
            )
        } else {
            None
        }
    }

    /// A commit that is not there yet enters as not indexed; one that is
    /// there stays as it is, indexed or not.
    pub open spec fn create_commit_unless_exists(self, id: Seq<char>, repo_id: Seq<char>)
        -> Option<Catalog> {
        if self.version >= commits_since() {
            if self.find_commit(repo_id, id) is None {
                Some(
                    Catalog {
                        commits: self.commits.push(
                            RepoCommitView { id, repo_id, state: CommitState::NotIndexed },
                        ),
                        ..self
                    },
                )
            } else {
                Some(self)
            }
        } else {
            None
        }
    }

    pub open spec fn mark_commit_as_indexed(self, repo_id: Seq<char>, id: Seq<char>) -> Option<
        Catalog,
    > {
        if self.version >= commits_since() {
            Some(Catalog { commits: self.commits.map_values(commit_marked(repo_id, id)), ..self })
        } else {
            None
        }
    }

    pub open spec fn clear_commits(self, repo_id: Seq<char>) -> Option<Catalog> {
        if self.version >= commits_since() {
            Some(Catalog { commits: self.commits.filter(commit_of_other_repo(repo_id)), ..self })
        } else {
            None
        }
    }

    /// A file that is not there yet enters with nothing indexed; one that is
    /// there takes the new commit and loses its indexed commit.
    pub open spec fn upsert_file(
        self,
        repo_id: Seq<char>,
        branch: Seq<char>,
        path: Seq<u8>,
        commit: Seq<char>,
    ) -> Option<Catalog> {
        if self.version >= files_since() {
            if self.find_file(repo_id, branch, path) is None {
                Some(
                    Catalog {
                        files: self.files.push(
                            RepoFileView {
                                repo_id,
                                branch,
                                path,
                                changed_commit_id: commit,
                                indexed_commit_id: None,
                            },
                        ),
                        ..self
                    },
                )
            } else {
                Some(
                    Catalog {
                        files: self.files.map_values(file_changed(repo_id, branch, path, commit)),
                        ..self
                    },
                )
            }
        } else {
            None
        }
    }

    pub open spec fn mark_file_as_indexed(self, repo_id: Seq<char>, path: Seq<u8>, commit: Seq<char>)
        -> Option<Catalog> {
        if self.version >= files_since() {
            Some(Catalog { files: self.files.map_values(file_marked(repo_id, path, commit)), ..self })
        } else {
            None
        }
    }

    /// What one write makes of the catalog, or `None` where the catalog
    /// refuses it.
    pub open spec fn apply(self, write: DbWriteView) -> Option<Catalog> {
        match write {
            DbWriteView::Up(version) => self.up(version),
            DbWriteView::Down(version) => self.down(version),
            DbWriteView::InsertRepo(repo) => self.insert_repo(repo),
            DbWriteView::UpdateRepo(repo) => self.update_repo(repo),
            DbWriteView::InsertBranch(branch) => self.insert_branch(branch),
            DbWriteView::MarkBranchIndexed { repo_id, name, commit_id } => {
                self.mark_branch_as_indexed(repo_id, name, commit_id)
            },
            DbWriteView::CreateCommit { id, repo_id } => self.create_commit_unless_exists(
                id,
                repo_id,
            ),
            DbWriteView::MarkCommitIndexed { repo_id, commit_id } => self.mark_commit_as_indexed(
                repo_id,
                commit_id,
            ),
            DbWriteView::UpsertFile { repo_id, branch, path, changed_commit_id } => {
                self.upsert_file(repo_id, branch, path, changed_commit_id)
            },
            DbWriteView::MarkFileIndexed { repo_id, path, indexed_commit_id } => {
                self.mark_file_as_indexed(repo_id, path, indexed_commit_id)
            },
            DbWriteView::ClearCommits { repo_id } => self.clear_commits(repo_id),
        }
    }

    /// What a sequence of writes, applied in order, makes of the catalog.
    pub open spec fn replay(self, writes: Seq<DbWriteView>) -> Option<Catalog>
        decreases writes.len(),
    {
        if writes.len() == 0 {
            Some(self)
        } else {
            match self.replay(writes.drop_last()) {
                Some(catalog) => catalog.apply(writes.last()),
                None => None,
            }
        }
    }
}

/// Every write that the catalog accepts keeps its invariant.
pub proof fn lemma_apply_keeps_wf(catalog: Catalog, write: DbWriteView)
    requires
        catalog.wf(),
        catalog.apply(write) is Some,
    ensures
        catalog.apply(write)->0.wf(),
{
    let next = catalog.apply(write)->0;
    match write {
        DbWriteView::InsertRepo(repo) => {
            lemma_find_first(catalog.repositories, repo_has_id(repo.id));
            lemma_find_first(catalog.repositories, repo_has_uri(repo.uri));
        },
        DbWriteView::InsertBranch(branch) => {
            lemma_find_first(catalog.branches, branch_is(branch.repo_id, branch.name));
        },
        DbWriteView::CreateCommit { id, repo_id } => {
            lemma_find_first(catalog.commits, commit_is(repo_id, id));
        },
        DbWriteView::UpsertFile { repo_id, branch, path, changed_commit_id } => {
            lemma_find_first(catalog.files, file_is(repo_id, branch, path));
        },
        DbWriteView::ClearCommits { repo_id } => {
            lemma_filter_keeps_order(catalog.commits, commit_of_other_repo(repo_id));
            let kept = catalog.commits.filter(commit_of_other_repo(repo_id));
            assert forall|i: int, j: int| 0 <= i < j < kept.len() implies !(kept[i].repo_id
                == kept[j].repo_id && kept[i].id == kept[j].id) by {
                let (a, b) = choose|a: int, b: int|
                    0 <= a < b < catalog.commits.len() && catalog.commits[a] == kept[i]
                        && catalog.commits[b] == kept[j];
            }
        },
        _ => {},
    }
}

/// Filtering keeps the rows in their order: two rows of the result stood in
/// the same order in the source.
pub proof fn lemma_filter_keeps_order<T>(rows: Seq<T>, pred: spec_fn(T) -> bool)
    ensures
        forall|i: int, j: int|
            0 <= i < j < rows.filter(pred).len() ==> exists|a: int, b: int|
                0 <= a < b < rows.len() && rows[a] == #[trigger] rows.filter(pred)[i] && rows[b]
                    == #[trigger] rows.filter(pred)[j],
        forall|i: int|
            0 <= i < rows.filter(pred).len() ==> pred(#[trigger] rows.filter(pred)[i])
                && exists|a: int| 0 <= a < rows.len() && rows[a] == rows.filter(pred)[i],
    decreases rows.len(),
{
    reveal(Seq::filter);
    if rows.len() > 0 {
        let front = rows.drop_last();
        lemma_filter_keeps_order(front, pred);
        let kept = rows.filter(pred);
        let kept_front = front.filter(pred);
        assert forall|i: int| 0 <= i < kept.len() implies pred(#[trigger] kept[i]) && exists|a: int|
            0 <= a < rows.len() && rows[a] == kept[i] by {
            if i < kept_front.len() {
                let a = choose|a: int| 0 <= a < front.len() && front[a] == kept_front[i];
                assert(rows[a] == kept[i]);
            } else {
                assert(rows[rows.len() - 1] == kept[i]);
            }
        }
        assert forall|i: int, j: int| 0 <= i < j < kept.len() implies exists|a: int, b: int|
            0 <= a < b < rows.len() && rows[a] == #[trigger] kept[i] && rows[b]
                == #[trigger] kept[j] by {
            if j < kept_front.len() {
                let (a, b) = choose|a: int, b: int|
                    0 <= a < b < front.len() && front[a] == kept_front[i] && front[b]
                        == kept_front[j];
                assert(rows[a] == kept[i] && rows[b] == kept[j]);
            } else {
                let a = choose|a: int| 0 <= a < front.len() && front[a] == kept_front[i];
                assert(rows[a] == kept[i] && rows[rows.len() - 1] == kept[j]);
            }
        }
    }
}

/// Replaying accepted writes keeps the invariant.
pub proof fn lemma_replay_keeps_wf(catalog: Catalog, writes: Seq<DbWriteView>)
    requires
        catalog.wf(),
        catalog.replay(writes) is Some,
    ensures
        catalog.replay(writes)->0.wf(),
    decreases writes.len(),
{
    if writes.len() > 0 {
        lemma_replay_keeps_wf(catalog, writes.drop_last());
        lemma_apply_keeps_wf(catalog.replay(writes.drop_last())->0, writes.last());
    }
}

/// Replaying one more write is replaying the others and then applying it.
pub proof fn lemma_replay_push(catalog: Catalog, writes: Seq<DbWriteView>, write: DbWriteView)
    ensures
        catalog.replay(writes.push(write)) == match catalog.replay(writes) {
            Some(next) => next.apply(write),
            None => None,
        },
{
    assert(writes.push(write).drop_last() == writes);
}


/// What an optional row says.
pub open spec fn opt_view<T: View>(row: Option<T>) -> Option<T::V> {
    match row {
        Some(row) => Some(row@),
        None => None,
    }
}

/// Filtering one more row keeps it, at the end, exactly when it satisfies
/// the predicate.
pub proof fn lemma_filter_take_step<T>(rows: Seq<T>, pred: spec_fn(T) -> bool, i: int)
    requires
        0 <= i < rows.len(),
    ensures
        rows.take(i + 1).filter(pred) == if pred(rows[i]) {
            rows.take(i).filter(pred).push(rows[i])
        } else {
            rows.take(i).filter(pred)
        },
{
    reveal(Seq::filter);
    assert(rows.take(i + 1).drop_last() == rows.take(i));
}

/// Filtering no rows gives no rows.
pub proof fn lemma_filter_take_none<T>(rows: Seq<T>, pred: spec_fn(T) -> bool)
    ensures
        rows.take(0).filter(pred) == Seq::<T>::empty(),
{
    reveal(Seq::filter);
    assert(rows.take(0).len() == 0);
}


impl Catalog {
    /// What a sequence of writes makes of the catalog when the first write
    /// that is refused ends it: the content after the writes that were
    /// accepted, and how many those were.
    pub open spec fn accepted(self, writes: Seq<DbWriteView>) -> (Catalog, nat)
        decreases writes.len(),
    {
        if writes.len() == 0 {
            (self, 0)
        } else {
            let (catalog, count) = self.accepted(writes.drop_last());
            if count == writes.len() - 1 {
                match catalog.apply(writes.last()) {
                    Some(next) => (next, writes.len()),
                    None => (catalog, count),
                }
            } else {
                (catalog, count)
            }
        }
    }
}

/// The writes that are accepted are a prefix of the writes.
pub proof fn lemma_accepted_count(catalog: Catalog, writes: Seq<DbWriteView>)
    ensures
        catalog.accepted(writes).1 <= writes.len(),
    decreases writes.len(),
{
    if writes.len() > 0 {
        lemma_accepted_count(catalog, writes.drop_last());
    }
}

/// Once a write has been refused, the rest of the sequence does not matter.
pub proof fn lemma_accepted_stops(catalog: Catalog, writes: Seq<DbWriteView>, i: int)
    requires
        0 <= i < writes.len(),
        catalog.accepted(writes.take(i)).1 == i,
        catalog.accepted(writes.take(i)).0.apply(writes[i]) is None,
    ensures
        catalog.accepted(writes) == catalog.accepted(writes.take(i)),
    decreases writes.len() - i,
{
    assert(writes.take(i + 1).drop_last() == writes.take(i));
    assert(catalog.accepted(writes.take(i + 1)) == catalog.accepted(writes.take(i)));
    lemma_accepted_stays(catalog, writes, i + 1, i as nat);
}

/// A sequence of which fewer writes were accepted than it holds takes no
/// further write.
pub proof fn lemma_accepted_stays(catalog: Catalog, writes: Seq<DbWriteView>, k: int, count: nat)
    requires
        0 <= k <= writes.len(),
        count < k,
        catalog.accepted(writes.take(k)).1 == count,
    ensures
        catalog.accepted(writes) == catalog.accepted(writes.take(k)),
    decreases writes.len() - k,
{
    if k == writes.len() {
        assert(writes.take(k) == writes);
    } else {
        assert(writes.take(k + 1).drop_last() == writes.take(k));
        lemma_accepted_stays(catalog, writes, k + 1, count);
    }
}

/// Where every write is accepted, what is accepted is the replay.
pub proof fn lemma_accepted_all(catalog: Catalog, writes: Seq<DbWriteView>)
    ensures
        catalog.accepted(writes).1 == writes.len() <==> catalog.replay(writes) is Some,
        catalog.replay(writes) matches Some(next) ==> catalog.accepted(writes).0 == next,
    decreases writes.len(),
{
    if writes.len() > 0 {
        lemma_accepted_all(catalog, writes.drop_last());
        lemma_accepted_count(catalog, writes.drop_last());
    }
}

/// The writes that are accepted keep the invariant.
pub proof fn lemma_accepted_keeps_wf(catalog: Catalog, writes: Seq<DbWriteView>)
    requires
        catalog.wf(),
    ensures
        catalog.accepted(writes).0.wf(),
    decreases writes.len(),
{
    if writes.len() > 0 {
        lemma_accepted_keeps_wf(catalog, writes.drop_last());
        let (before, count) = catalog.accepted(writes.drop_last());
        if count == writes.len() - 1 && before.apply(writes.last()) is Some {
            lemma_apply_keeps_wf(before, writes.last());
        }
    }
}


/// Filtering and mapping one more row adds its image, at the end, exactly
/// when the row satisfies the predicate.
pub proof fn lemma_filter_map_step<T, U>(
    rows: Seq<T>,
    pred: spec_fn(T) -> bool,
    image: spec_fn(T) -> U,
    i: int,
)
    requires
        0 <= i < rows.len(),
    ensures
        rows.take(i + 1).filter(pred).map_values(image) == if pred(rows[i]) {
            rows.take(i).filter(pred).map_values(image).push(image(rows[i]))
        } else {
            rows.take(i).filter(pred).map_values(image)
        },
{
    lemma_filter_take_step(rows, pred, i);
    if pred(rows[i]) {
        assert(rows.take(i).filter(pred).push(rows[i]).map_values(image) =~= rows.take(i).filter(
            pred,
        ).map_values(image).push(image(rows[i])));
    }
}

/// Filtering and mapping no rows gives nothing.
pub proof fn lemma_filter_map_none<T, U>(
    rows: Seq<T>,
    pred: spec_fn(T) -> bool,
    image: spec_fn(T) -> U,
)
    ensures
        rows.take(0).filter(pred).map_values(image) == Seq::<U>::empty(),
{
    lemma_filter_take_none(rows, pred);
    assert(rows.take(0).filter(pred).map_values(image) =~= Seq::<U>::empty());
}

} // verus!
