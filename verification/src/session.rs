//! A run, one step at a time.
//!
//! The crate decides and the host acts: each step of a run hands the host
//! the catalog writes to make durable and one request to carry out, and the
//! host answers with the event that came of it.

use vstd::prelude::*;
use vstd::utf8::encode_utf8;
use crate::catalog::{views, Catalog};
use crate::db::{is_sql_error, Db, DbWrite};
use crate::digest::{file_id, file_id_of};
use crate::git::{Blob, BlobView, Delta, DeltaView, GitCommit, GitTime, Revwalk, RevwalkView};
use crate::index::{
    blob_text, branch_files_not_indexed, branch_is_clean, commit_date, commit_doc, diff_writes,
    file_doc, removed_paths, Commit, CommitView, Index, IndexedFile, IndexedFileView,
};
use crate::models::repo_file::{RepoFile, RepoFileView};
use crate::models::repository::Timespec;
use crate::models::types::{opt_text, path_join, texts, RepoPath};
use crate::repo::{
    commit_writes, local_ref_of, names_of, sync_writes, synced_at, synced_state, tree_writes,
    walk_scope, Repo, RepoTreeEntry, RepoTreeEntryView, RepoView, SyncState,
};
use crate::result::{ErrorKind, RepoError, RepoResult};

verus! {

/// What the host is asked to do next.
#[derive(Debug, PartialEq, Eq)]
pub enum Request {
    /// Say whether a `.git` directory stands at `path`.
    ExistsAt { path: RepoPath },
    /// Clone the repository at `uri` into `path`.
    Clone { uri: String, path: RepoPath },
    /// Open the working copy at `path`.
    Open { path: RepoPath },
    /// Fetch the named branches from `origin`, pruning refs deleted there.
    Fetch { branches: Vec<String> },
    /// Point the local branch at what the branch of `origin` points at.
    SetLocalBranchToRemote { branch: String },
    /// Resolve the reference to the id of the commit it points at.
    ResolveRef { name: String },
    /// List all merge bases of the two commits.
    MergeBases { one: String, two: String },
    /// List the commits reachable from a pushed commit but from no hidden
    /// one.
    Revwalk(Revwalk),
    /// List every entry of the tree of the commit, recursively.
    WalkTree { commit_id: String },
    /// Diff the trees of the two commits.
    TreeDiff {
        old_commit_id: String,
        new_commit_id: String,
        ignore_whitespace: bool,
        ignore_filemode: bool,
    },
    /// Load the commit.
    FindCommit { commit_id: String },
    /// Load the blob at `path` in the tree of the commit, and the time of
    /// the commit.
    FindBlob { commit_id: String, path: RepoPath },
    /// Store the commit document under `id`, replacing what is there.
    PutCommit { id: String, commit: Commit },
    /// Store the file document under `id`, replacing what is there.
    PutFile { id: String, file: IndexedFile },
    /// Remove the file document stored under `id`, if there is one.
    DeleteFile { id: String },
    /// Nothing: the run is complete.
    Done,
    /// Nothing: the run has ended with this error.
    Failed(RepoError),
}

/// What came of a request.
#[derive(Debug, PartialEq, Eq)]
pub enum Event {
    /// The answer to `ExistsAt`.
    Exists(bool),
    /// The request was carried out and has nothing to report.
    Done,
    /// The answer to `ResolveRef`.
    Oid(String),
    /// The answer to `MergeBases` and to `Revwalk`.
    Oids(Vec<String>),
    /// The answer to `WalkTree`.
    Tree(Vec<RepoTreeEntry>),
    /// The answer to `TreeDiff`.
    Deltas(Vec<Delta>),
    /// The answer to `FindCommit`.
    Commit(GitCommit),
    /// The answer to `FindBlob`.
    Blob { blob: Blob, changed: GitTime },
    /// The request could not be carried out.
    Failed(RepoError),
}

/// One step of a run: writes for the host to repeat on durable storage, in
/// order, and then the request to carry out.
#[derive(Debug, PartialEq, Eq)]
pub struct Step {
    pub writes: Vec<DbWrite>,
    pub request: Request,
}

/// What a request says.
pub enum RequestView {
    ExistsAt { path: Seq<u8> },
    Clone { uri: Seq<char>, path: Seq<u8> },
    Open { path: Seq<u8> },
    Fetch { branches: Seq<Seq<char>> },
    SetLocalBranchToRemote { branch: Seq<char> },
    ResolveRef { name: Seq<char> },
    MergeBases { one: Seq<char>, two: Seq<char> },
    Revwalk(RevwalkView),
    WalkTree { commit_id: Seq<char> },
    TreeDiff {
        old_commit_id: Seq<char>,
        new_commit_id: Seq<char>,
        ignore_whitespace: bool,
        ignore_filemode: bool,
    },
    FindCommit { commit_id: Seq<char> },
    FindBlob { commit_id: Seq<char>, path: Seq<u8> },
    PutCommit { id: Seq<char>, commit: CommitView },
    PutFile { id: Seq<char>, file: IndexedFileView },
    DeleteFile { id: Seq<char> },
    Done,
    Failed(ErrorKind),
}

impl View for Request {
    type V = RequestView;

    open spec fn view(&self) -> RequestView {
        match self {
            Request::ExistsAt { path } => RequestView::ExistsAt { path: path@ },
            Request::Clone { uri, path } => RequestView::Clone { uri: uri@, path: path@ },
            Request::Open { path } => RequestView::Open { path: path@ },
            Request::Fetch { branches } => RequestView::Fetch { branches: texts(branches@) },
            Request::SetLocalBranchToRemote { branch } => RequestView::SetLocalBranchToRemote {
                branch: branch@,
            },
            Request::ResolveRef { name } => RequestView::ResolveRef { name: name@ },
            Request::MergeBases { one, two } => RequestView::MergeBases { one: one@, two: two@ },
            Request::Revwalk(walk) => RequestView::Revwalk(walk@),
            Request::WalkTree { commit_id } => RequestView::WalkTree { commit_id: commit_id@ },
            Request::TreeDiff { old_commit_id, new_commit_id, ignore_whitespace, ignore_filemode } => {
                RequestView::TreeDiff {
                    old_commit_id: old_commit_id@,
                    new_commit_id: new_commit_id@,
                    ignore_whitespace: *ignore_whitespace,
                    ignore_filemode: *ignore_filemode,
                }
            },
            Request::FindCommit { commit_id } => RequestView::FindCommit { commit_id: commit_id@ },
            Request::FindBlob { commit_id, path } => RequestView::FindBlob {
                commit_id: commit_id@,
                path: path@,
            },
            Request::PutCommit { id, commit } => RequestView::PutCommit {
                id: id@,
                commit: commit@,
            },
            Request::PutFile { id, file } => RequestView::PutFile { id: id@, file: file@ },
            Request::DeleteFile { id } => RequestView::DeleteFile { id: id@ },
            Request::Done => RequestView::Done,
            Request::Failed(error) => RequestView::Failed(error.kind()),
        }
    }
}


/// What a run is for.
#[derive(Debug, Clone, Copy, PartialEq, Eq, Structural)]
pub enum Command {
    /// Bring the clone up to date and record the new commits.
    Fetch,
    /// Do what `Fetch` does, then record the changed files and ship
    /// everything that is not indexed.
    Index,
}

/// Where a run stands: which answer it waits for.
#[derive(Debug, Clone, Copy, PartialEq, Eq, Structural)]
pub enum Phase {
    /// Waiting to hear whether a clone exists.
    Probing,
    /// Waiting for the clone to be made.
    Cloning,
    /// Waiting for the clone to be opened.
    Opening,
    /// Waiting for the branches to be fetched.
    Fetching,
    /// Waiting for a local branch to be pointed at the fetched one.
    Repointing { branch: usize },
    /// Waiting for the tip of a branch.
    ResolvingTip { branch: usize },
    /// Waiting for the merge bases of the tip and the indexed commit.
    MergingBases { branch: usize },
    /// Waiting for the commits of a revision walk.
    Walking { branch: usize },
    /// Waiting for the tree of the tip, or its diff against the indexed
    /// commit.
    PlanningTree { branch: usize },
    /// Waiting for a commit that has to be shipped.
    LoadingCommit { commit: usize },
    /// Waiting for the search service to take a commit document.
    PuttingCommit { commit: usize },
    /// Waiting for the search service to remove a file document.
    Deleting { removal: usize },
    /// Waiting for the content of a file that has to be shipped.
    LoadingBlob { branch: usize, file: usize },
    /// Waiting for the search service to take a file document.
    PuttingFile { branch: usize, file: usize },
    /// The run is over.
    Finished,
}

/// Where a run stands, with its positions as numbers.
pub enum PhaseView {
    Probing,
    Cloning,
    Opening,
    Fetching,
    Repointing { branch: nat },
    ResolvingTip { branch: nat },
    MergingBases { branch: nat },
    Walking { branch: nat },
    PlanningTree { branch: nat },
    LoadingCommit { commit: nat },
    PuttingCommit { commit: nat },
    Deleting { removal: nat },
    LoadingBlob { branch: nat, file: nat },
    PuttingFile { branch: nat, file: nat },
    Finished,
}

impl View for Phase {
    type V = PhaseView;

    open spec fn view(&self) -> PhaseView {
        match self {
            Phase::Probing => PhaseView::Probing,
            Phase::Cloning => PhaseView::Cloning,
            Phase::Opening => PhaseView::Opening,
            Phase::Fetching => PhaseView::Fetching,
            Phase::Repointing { branch } => PhaseView::Repointing { branch: *branch as nat },
            Phase::ResolvingTip { branch } => PhaseView::ResolvingTip { branch: *branch as nat },
            Phase::MergingBases { branch } => PhaseView::MergingBases { branch: *branch as nat },
            Phase::Walking { branch } => PhaseView::Walking { branch: *branch as nat },
            Phase::PlanningTree { branch } => PhaseView::PlanningTree { branch: *branch as nat },
            Phase::LoadingCommit { commit } => PhaseView::LoadingCommit { commit: *commit as nat },
            Phase::PuttingCommit { commit } => PhaseView::PuttingCommit { commit: *commit as nat },
            Phase::Deleting { removal } => PhaseView::Deleting { removal: *removal as nat },
            Phase::LoadingBlob { branch, file } => PhaseView::LoadingBlob {
                branch: *branch as nat,
                file: *file as nat,
            },
            Phase::PuttingFile { branch, file } => PhaseView::PuttingFile {
                branch: *branch as nat,
                file: *file as nat,
            },
            Phase::Finished => PhaseView::Finished,
        }
    }
}

/// The state of a run.
pub struct SessionView {
    pub command: Command,
    pub phase: PhaseView,
    pub repo: RepoView,
    pub catalog: Catalog,
    /// The tips of the branches planned so far, in the order of the
    /// branches.
    pub tips: Seq<Seq<char>>,
    /// The indexed commit of the branch being planned.
    pub watermark: Option<Seq<char>>,
    /// The commits being shipped.
    pub commits: Seq<Seq<char>>,
    /// The files being shipped, all of one branch.
    pub files: Seq<RepoFileView>,
    /// The paths whose documents have to go.
    pub removals: Seq<Seq<u8>>,
}

impl SessionView {
    /// The position that the phase names exists.
    pub open spec fn valid(self) -> bool {
        let branches = self.repo.branches.len();
        &&& self.tips.len() <= branches
        &&& match self.phase {
            PhaseView::Probing | PhaseView::Cloning | PhaseView::Opening | PhaseView::Fetching => self.tips.len()
                == 0,
            PhaseView::Repointing { branch } => branch < branches && self.tips.len() == 0,
            PhaseView::ResolvingTip { branch } => branch < branches && self.tips.len() == branch,
            PhaseView::MergingBases { branch } => branch < branches && self.tips.len() == branch + 1
                && self.watermark is Some,
            PhaseView::Walking { branch } => branch < branches && self.tips.len() == branch + 1,
            PhaseView::PlanningTree { branch } => branch < branches && self.tips.len() == branch + 1
                && self.command == Command::Index,
            PhaseView::LoadingCommit { commit } => commit < self.commits.len() && self.tips.len()
                == branches && self.command == Command::Index,
            PhaseView::PuttingCommit { commit } => commit < self.commits.len() && self.tips.len()
                == branches && self.command == Command::Index,
            PhaseView::Deleting { removal } => removal < self.removals.len() && self.tips.len()
                == branches && self.command == Command::Index,
            PhaseView::LoadingBlob { branch, file } => branch < branches && file < self.files.len()
                && self.tips.len() == branches && self.command == Command::Index,
            PhaseView::PuttingFile { branch, file } => branch < branches && file < self.files.len()
                && self.tips.len() == branches && self.command == Command::Index,
            PhaseView::Finished => true,
        }
    }

    /// The name of branch `i`.
    pub open spec fn branch(self, i: int) -> Seq<char> {
        self.repo.branches[i].name
    }
}

/// What is found on disk, seen against what was believed: without a `.git`
/// directory there is no clone; with one, a repository thought not to be
/// cloned is cloned after all, and any other belief stays.
pub open spec fn probed_state(believed: SyncState, found: bool) -> SyncState {
    if !found {
        SyncState::NotCloned
    } else if believed == SyncState::NotCloned {
        SyncState::Cloned
    } else {
        believed
    }
}

/// The run ends with an error.
pub open spec fn fail(s: SessionView, kind: ErrorKind) -> (SessionView, RequestView) {
    (SessionView { phase: PhaseView::Finished, ..s }, RequestView::Failed(kind))
}

/// The catalog's record of the repository is brought in line with the
/// clone. `Err` holds the state in which the catalog refused a write.
pub open spec fn sync_repo(s: SessionView, added: Timespec) -> Result<SessionView, SessionView> {
    let writes = sync_writes(s.repo, s.catalog, added);
    let (catalog, count) = s.catalog.accepted(writes);
    if count == writes.len() {
        Ok(
            SessionView {
                catalog,
                repo: RepoView { sync_state: synced_state(s.repo, s.catalog), ..s.repo },
                ..s
            },
        )
    } else {
        Err(SessionView { catalog, ..s })
    }
}

/// After the probe: the state found on disk is reconciled with the catalog
/// and recorded; then a repository without a clone is cloned, one with a
/// clone is opened, and a corrupted one ends the run.
pub open spec fn on_probed(s: SessionView, found: bool, added: Timespec) -> (
    SessionView,
    RequestView,
) {
    let probed = SessionView {
        repo: RepoView { sync_state: probed_state(s.repo.sync_state, found), ..s.repo },
        ..s
    };
    match sync_repo(probed, added) {
        Err(failed) => fail(failed, ErrorKind::SqlError),
        Ok(mid) => match mid.repo.sync_state {
            SyncState::Corrupted => fail(mid, ErrorKind::InvalidState),
            SyncState::NotCloned => (
                SessionView { phase: PhaseView::Cloning, ..mid },
                RequestView::Clone { uri: mid.repo.uri, path: mid.repo.path },
            ),
            SyncState::Cloned => (
                SessionView { phase: PhaseView::Opening, ..mid },
                RequestView::Open { path: mid.repo.path },
            ),
        },
    }
}

/// After the clone is made: it is cloned and open, and planning begins.
pub open spec fn on_cloned(s: SessionView, added: Timespec) -> (SessionView, RequestView) {
    plan_branch(
        SessionView {
            repo: RepoView { sync_state: SyncState::Cloned, opened: true, ..s.repo },
            ..s
        },
        0,
        added,
    )
}

/// After the clone is opened: the branches are fetched.
pub open spec fn on_opened(s: SessionView) -> (SessionView, RequestView) {
    (
        SessionView { phase: PhaseView::Fetching, repo: RepoView { opened: true, ..s.repo }, ..s },
        RequestView::Fetch { branches: names_of(s.repo.branches) },
    )
}

/// Branch `i` is pointed at what was fetched; after the last branch,
/// planning begins.
pub open spec fn repoint(s: SessionView, i: int, added: Timespec) -> (SessionView, RequestView) {
    if i < s.repo.branches.len() {
        (
            SessionView { phase: PhaseView::Repointing { branch: i as nat }, ..s },
            RequestView::SetLocalBranchToRemote { branch: s.branch(i) },
        )
    } else {
        plan_branch(s, 0, added)
    }
}

/// Planning of branch `i` begins with resolving its tip; after the last
/// branch, planning is over.
pub open spec fn plan_branch(s: SessionView, i: int, added: Timespec) -> (
    SessionView,
    RequestView,
) {
    if i < s.repo.branches.len() {
        if s.repo.opened {
            (
                SessionView { phase: PhaseView::ResolvingTip { branch: i as nat }, ..s },
                RequestView::ResolveRef { name: local_ref_of(s.branch(i)) },
            )
        } else {
            fail(s, ErrorKind::InvalidState)
        }
    } else {
        finish_planning(s, added)
    }
}

/// After the tip of branch `i` is known: the catalog says where the branch
/// was last indexed. A branch that was indexed is walked from the tip down
/// to the merge bases of the tip and the indexed commit, which are asked
/// for first; one that was never indexed is walked whole.
pub open spec fn on_tip(s: SessionView, i: int, tip: Seq<char>) -> (SessionView, RequestView) {
    let mid = SessionView { tips: s.tips.push(tip), ..s };
    if mid.catalog.version < 2 {
        fail(mid, ErrorKind::SqlError)
    } else {
        match mid.catalog.find_branch(s.repo.id, s.branch(i)) {
            None => fail(mid, ErrorKind::BranchNotFound),
            Some(row) => match row.indexed_commit_id {
                Some(indexed) => (
                    SessionView {
                        phase: PhaseView::MergingBases { branch: i as nat },
                        watermark: row.indexed_commit_id,
                        ..mid
                    },
                    RequestView::MergeBases { one: tip, two: indexed },
                ),
                None => if s.repo.opened {
                    (
                        SessionView {
                            phase: PhaseView::Walking { branch: i as nat },
                            watermark: row.indexed_commit_id,
                            ..mid
                        },
                        RequestView::Revwalk(walk_scope(tip, None, Seq::empty())),
                    )
                } else {
                    fail(
                        SessionView { watermark: row.indexed_commit_id, ..mid },
                        ErrorKind::InvalidState,
                    )
                },
            },
        }
    }
}

/// After the merge bases are known: the walk is asked for.
pub open spec fn on_bases(s: SessionView, i: int, bases: Seq<Seq<char>>) -> (
    SessionView,
    RequestView,
) {
    if s.repo.opened {
        (
            SessionView { phase: PhaseView::Walking { branch: i as nat }, ..s },
            RequestView::Revwalk(walk_scope(s.tips[i], s.watermark, bases)),
        )
    } else {
        fail(s, ErrorKind::InvalidState)
    }
}

/// The request that tells which files of branch `i` have changed.
pub open spec fn plan_tree(s: SessionView, i: int) -> (SessionView, RequestView) {
    if !s.repo.opened {
        fail(s, ErrorKind::InvalidState)
    } else if s.catalog.version < 2 {
        fail(s, ErrorKind::SqlError)
    } else {
        match s.catalog.find_branch(s.repo.id, s.branch(i)) {
            None => fail(s, ErrorKind::BranchNotFound),
            Some(row) => match row.indexed_commit_id {
                Some(indexed) => (
                    SessionView { phase: PhaseView::PlanningTree { branch: i as nat }, ..s },
                    RequestView::TreeDiff {
                        old_commit_id: indexed,
                        new_commit_id: s.tips[i],
                        ignore_whitespace: true,
                        ignore_filemode: true,
                    },
                ),
                None => (
                    SessionView { phase: PhaseView::PlanningTree { branch: i as nat }, ..s },
                    RequestView::WalkTree { commit_id: s.tips[i] },
                ),
            },
        }
    }
}

/// After the walk: its commits are recorded. A fetch goes on to the next
/// branch; an indexing run asks for the changed files of this one.
pub open spec fn on_walked(s: SessionView, i: int, commits: Seq<Seq<char>>, added: Timespec) -> (
    SessionView,
    RequestView,
) {
    if !s.repo.opened {
        fail(s, ErrorKind::InvalidState)
    } else {
        let writes = commit_writes(s.repo.id, commits);
        let (catalog, count) = s.catalog.accepted(writes);
        let mid = SessionView { catalog, ..s };
        if count != writes.len() {
            fail(mid, ErrorKind::SqlError)
        } else if s.command == Command::Fetch {
            plan_branch(mid, i + 1, added)
        } else {
            plan_tree(mid, i)
        }
    }
}

/// After the tree of the tip of a branch that was never indexed is known:
/// each of its files is recorded as changed at the tip.
pub open spec fn on_tree(s: SessionView, i: int, entries: Seq<RepoTreeEntryView>, added: Timespec)
    -> (SessionView, RequestView) {
    if s.watermark is Some || !s.repo.opened {
        fail(s, ErrorKind::InvalidState)
    } else {
        let writes = tree_writes(s.repo.id, s.branch(i), s.tips[i], entries);
        let (catalog, count) = s.catalog.accepted(writes);
        let mid = SessionView { catalog, ..s };
        if count != writes.len() {
            fail(mid, ErrorKind::SqlError)
        } else {
            plan_branch(mid, i + 1, added)
        }
    }
}

/// After the diff of a branch against its indexed commit is known: what it
/// brings is recorded as changed at the tip, and what it takes away is
/// noted for removal.
pub open spec fn on_deltas(s: SessionView, i: int, deltas: Seq<DeltaView>, added: Timespec) -> (
    SessionView,
    RequestView,
) {
    if s.watermark is None || !s.repo.opened {
        fail(s, ErrorKind::InvalidState)
    } else {
        let writes = diff_writes(s.repo.id, s.branch(i), s.tips[i], deltas);
        let (catalog, count) = s.catalog.accepted(writes);
        let mid = SessionView { catalog, ..s };
        if count != writes.len() {
            fail(mid, ErrorKind::SqlError)
        } else {
            plan_branch(
                SessionView { removals: s.removals + removed_paths(deltas), ..mid },
                i + 1,
                added,
            )
        }
    }
}

/// Planning is over: the state of the clone is recorded. That is all a
/// fetch does; an indexing run goes on to ship what is not indexed.
pub open spec fn finish_planning(s: SessionView, added: Timespec) -> (SessionView, RequestView) {
    match sync_repo(s, added) {
        Err(failed) => fail(failed, ErrorKind::SqlError),
        Ok(mid) => if s.command == Command::Fetch {
            (SessionView { phase: PhaseView::Finished, ..mid }, RequestView::Done)
        } else {
            start_indexing(mid)
        },
    }
}

/// Indexing begins with the commits that are not indexed.
pub open spec fn start_indexing(s: SessionView) -> (SessionView, RequestView) {
    if s.catalog.version < 3 {
        fail(s, ErrorKind::SqlError)
    } else {
        next_commit(SessionView { commits: s.catalog.commits_not_indexed(s.repo.id), ..s }, 0)
    }
}

/// Commit `j` is loaded; after the last commit, the removals are made.
pub open spec fn next_commit(s: SessionView, j: int) -> (SessionView, RequestView) {
    if j < s.commits.len() {
        if s.repo.opened {
            (
                SessionView { phase: PhaseView::LoadingCommit { commit: j as nat }, ..s },
                RequestView::FindCommit { commit_id: s.commits[j] },
            )
        } else {
            fail(s, ErrorKind::InvalidState)
        }
    } else {
        next_removal(s, 0)
    }
}

/// After commit `j` is loaded: its document is shipped.
pub open spec fn on_commit_loaded(s: SessionView, j: int, commit: GitCommit) -> (
    SessionView,
    RequestView,
) {
    match commit_date(commit.time) {
        Some(date) => (
            SessionView { phase: PhaseView::PuttingCommit { commit: j as nat }, ..s },
            RequestView::PutCommit {
                id: s.commits[j],
                commit: commit_doc(s.repo.id, commit@, date),
            },
        ),
        None => fail(s, ErrorKind::GitError),
    }
}

/// After the search service has the document of commit `j`: the commit is
/// marked as indexed.
pub open spec fn on_commit_put(s: SessionView, j: int) -> (SessionView, RequestView) {
    match s.catalog.mark_commit_as_indexed(s.repo.id, s.commits[j]) {
        Some(catalog) => next_commit(SessionView { catalog, ..s }, j + 1),
        None => fail(s, ErrorKind::SqlError),
    }
}

/// The document of removed path `d` is removed; after the last removal,
/// the branches are indexed.
pub open spec fn next_removal(s: SessionView, d: int) -> (SessionView, RequestView) {
    if d < s.removals.len() {
        (
            SessionView { phase: PhaseView::Deleting { removal: d as nat }, ..s },
            RequestView::DeleteFile { id: file_id_of(s.repo.id, s.removals[d]) },
        )
    } else {
        index_branch(s, 0)
    }
}

/// The catalog after branch `i` has been closed: where no commit of the
/// repository and no file of the branch is left to ship, the branch is
/// marked as indexed at its tip; otherwise nothing changes.
pub open spec fn closed_branch(s: SessionView, i: int) -> Catalog {
    if branch_is_clean(s.catalog, s.repo.id, s.branch(i)) {
        s.catalog.mark_branch_as_indexed(s.repo.id, s.branch(i), s.tips[i])->0
    } else {
        s.catalog
    }
}

/// Branch `i` is indexed: its first file that is not indexed is loaded. A
/// branch without such files is closed at once, and the next branch is
/// indexed. After the last branch the run is over. No branch is closed
/// while the clone is not open.
pub open spec fn index_branch(s: SessionView, i: int) -> (SessionView, RequestView)
    decreases s.repo.branches.len() - i,
{
    if i < 0 || i >= s.repo.branches.len() {
        (SessionView { phase: PhaseView::Finished, ..s }, RequestView::Done)
    } else if s.catalog.version < 4 {
        fail(s, ErrorKind::SqlError)
    } else {
        let files = branch_files_not_indexed(s.catalog, s.repo.id, s.branch(i));
        let mid = SessionView { files, ..s };
        if files.len() > 0 {
            load_file(mid, i, 0)
        } else if !s.repo.opened {
            fail(mid, ErrorKind::InvalidState)
        } else {
            index_branch(SessionView { catalog: closed_branch(mid, i), ..mid }, i + 1)
        }
    }
}

/// The content of file `k` of branch `i` is asked for.
pub open spec fn load_file(s: SessionView, i: int, k: int) -> (SessionView, RequestView) {
    if s.repo.opened {
        (
            SessionView { phase: PhaseView::LoadingBlob { branch: i as nat, file: k as nat }, ..s },
            RequestView::FindBlob {
                commit_id: s.files[k].changed_commit_id,
                path: s.files[k].path,
            },
        )
    } else {
        fail(s, ErrorKind::InvalidState)
    }
}

/// File `k` of branch `i` is loaded; after the last file the branch is
/// closed and the next branch is indexed.
pub open spec fn next_file(s: SessionView, i: int, k: int) -> (SessionView, RequestView) {
    if k < s.files.len() {
        load_file(s, i, k)
    } else if !s.repo.opened {
        fail(s, ErrorKind::InvalidState)
    } else if s.catalog.version < 4 {
        fail(s, ErrorKind::SqlError)
    } else {
        index_branch(SessionView { catalog: closed_branch(s, i), ..s }, i + 1)
    }
}

/// The catalog after file `k` has been marked as indexed at the commit
/// that last changed it.
pub open spec fn file_marked_in(s: SessionView, k: int) -> Option<Catalog> {
    s.catalog.mark_file_as_indexed(s.repo.id, s.files[k].path, s.files[k].changed_commit_id)
}

/// After the content of file `k` is loaded: a binary file is marked as
/// indexed without being shipped; of any other file the text is shipped.
pub open spec fn on_blob(s: SessionView, i: int, k: int, blob: BlobView, changed: GitTime) -> (
    SessionView,
    RequestView,
) {
    if blob.binary {
        match file_marked_in(s, k) {
            Some(catalog) => next_file(SessionView { catalog, ..s }, i, k + 1),
            None => fail(s, ErrorKind::SqlError),
        }
    } else {
        (
            SessionView { phase: PhaseView::PuttingFile { branch: i as nat, file: k as nat }, ..s },
            RequestView::PutFile {
                id: file_id_of(s.repo.id, s.files[k].path),
                file: file_doc(
                    s.repo.id,
                    s.files[k].path,
                    blob_text(blob.content),
                    s.files[k].changed_commit_id,
                    commit_date(changed),
                ),
            },
        )
    }
}

/// After the search service has the document of file `k`: the file is
/// marked as indexed.
pub open spec fn on_file_put(s: SessionView, i: int, k: int) -> (SessionView, RequestView) {
    match file_marked_in(s, k) {
        Some(catalog) => next_file(SessionView { catalog, ..s }, i, k + 1),
        None => fail(s, ErrorKind::SqlError),
    }
}

/// What an event makes of a run: the state after it and the next request.
/// An event that reports a failure ends the run with that failure, and so
/// does an event that does not answer the request the run is waiting on.
/// `added` is the time at which a repository new to the catalog is entered.
pub open spec fn transition(s: SessionView, event: Event, added: Timespec) -> (
    SessionView,
    RequestView,
) {
    match event {
        Event::Failed(error) => fail(s, error.kind()),
        Event::Exists(found) => match s.phase {
            PhaseView::Probing => on_probed(s, found, added),
            _ => fail(s, ErrorKind::InvalidState),
        },
        Event::Done => match s.phase {
            PhaseView::Cloning => on_cloned(s, added),
            PhaseView::Opening => on_opened(s),
            PhaseView::Fetching => repoint(s, 0, added),
            PhaseView::Repointing { branch } => repoint(s, branch as int + 1, added),
            PhaseView::PuttingCommit { commit } => on_commit_put(s, commit as int),
            PhaseView::Deleting { removal } => next_removal(s, removal as int + 1),
            PhaseView::PuttingFile { branch, file } => on_file_put(s, branch as int, file as int),
            _ => fail(s, ErrorKind::InvalidState),
        },
        Event::Oid(tip) => match s.phase {
            PhaseView::ResolvingTip { branch } => on_tip(s, branch as int, tip@),
            _ => fail(s, ErrorKind::InvalidState),
        },
        Event::Oids(ids) => match s.phase {
            PhaseView::MergingBases { branch } => on_bases(s, branch as int, texts(ids@)),
            PhaseView::Walking { branch } => on_walked(s, branch as int, texts(ids@), added),
            _ => fail(s, ErrorKind::InvalidState),
        },
        Event::Tree(entries) => match s.phase {
            PhaseView::PlanningTree { branch } => on_tree(s, branch as int, views(entries@), added),
            _ => fail(s, ErrorKind::InvalidState),
        },
        Event::Deltas(deltas) => match s.phase {
            PhaseView::PlanningTree { branch } => on_deltas(s, branch as int, views(deltas@), added),
            _ => fail(s, ErrorKind::InvalidState),
        },
        Event::Commit(commit) => match s.phase {
            PhaseView::LoadingCommit { commit: j } => on_commit_loaded(s, j as int, commit),
            _ => fail(s, ErrorKind::InvalidState),
        },
        Event::Blob { blob, changed } => match s.phase {
            PhaseView::LoadingBlob { branch, file } => on_blob(
                s,
                branch as int,
                file as int,
                blob@,
                changed,
            ),
            _ => fail(s, ErrorKind::InvalidState),
        },
    }
}


/// A run in progress.
pub struct Session {
    command: Command,
    repo: Repo,
    index: Option<Index>,
    db: Db,
    phase: Phase,
    tips: Vec<String>,
    watermark: Option<String>,
    commits: Vec<String>,
    files: Vec<RepoFile>,
    removals: Vec<RepoPath>,
}

impl View for Session {
    type V = SessionView;

    closed spec fn view(&self) -> SessionView {
        SessionView {
            command: self.command,
            phase: self.phase@,
            repo: self.repo@,
            catalog: self.db@,
            tips: texts(self.tips@),
            watermark: opt_text(self.watermark),
            commits: texts(self.commits@),
            files: views(self.files@),
            removals: views(self.removals@),
        }
    }
}

/// A time that stands in where no repository is entered.
spec fn no_time() -> Timespec {
    Timespec { sec: 0, nsec: 0 }
}

impl Session {
    /// What holds of a run at every moment: the catalog is well formed, no
    /// more tips are known than there are branches, and an indexing run
    /// knows its search service.
    closed spec fn steady(&self) -> bool {
        &&& self.db.wf()
        &&& self.tips.len() <= self.repo.branches.len()
        &&& (self.command == Command::Index ==> self.index is Some)
    }

    /// The invariant of a run, but for the journal.
    closed spec fn inv(&self) -> bool {
        &&& self.steady()
        &&& self@.valid()
    }

    /// The run `self` has come out of the run `before` in the middle of a
    /// step.
    closed spec fn keeps(&self, before: Session) -> bool {
        &&& self.steady()
        &&& self.db.durable() == before.db.durable()
        &&& self.command == before.command
    }

    /// The run `self` has come out of the run `before` within one step:
    /// it keeps the invariant and the host has been told of no write yet.
    closed spec fn follows(&self, before: Session) -> bool {
        &&& self.inv()
        &&& self.db.durable() == before.db.durable()
        &&& self.command == before.command
    }

    /// The invariant of a run: the catalog is well formed and the host has
    /// been told of every write; an indexing run knows its search service;
    /// and the position that the phase names exists.
    pub closed spec fn wf(&self) -> bool {
        &&& self.inv()
        &&& self.db.pending_writes().len() == 0
    }

    /// What the invariant says of the state.
    pub proof fn lemma_wf(&self)
        requires
            self.wf(),
        ensures
            self@.valid(),
            self@.catalog.wf(),
    {
        self.db.lemma_wf();
    }

    /// A run of `command` on `repo`, about to begin. An indexing run needs
    /// the search service.
    pub fn new(command: Command, repo: Repo, index: Option<Index>, db: Db) -> (r: RepoResult<
        Session,
    >)
        requires
            db.wf(),
            db.pending_writes().len() == 0,
        ensures
            command == Command::Index && index is None ==> r matches Err(
                RepoError::NoElasticSearch,
            ),
            !(command == Command::Index && index is None) ==> (r matches Ok(session)
                && session.wf() && session@ == (SessionView {
                command,
                phase: PhaseView::Probing,
                repo: repo@,
                catalog: db@,
                tips: Seq::empty(),
                watermark: None,
                commits: Seq::empty(),
                files: Seq::empty(),
                removals: Seq::empty(),
            })),
    {
        if command == Command::Index && index.is_none() {
            return Err(RepoError::NoElasticSearch);
        }
        let session = Session {
            command,
            repo,
            index,
            db,
            phase: Phase::Probing,
            tips: Vec::new(),
            watermark: None,
            commits: Vec::new(),
            files: Vec::new(),
            removals: Vec::new(),
        };
        assert(texts(session.tips@) =~= Seq::empty());
        assert(texts(session.commits@) =~= Seq::empty());
        assert(views(session.files@) =~= Seq::empty());
        assert(views(session.removals@) =~= Seq::empty());
        Ok(session)
    }

    /// The request a run begins with: whether a clone exists.
    pub fn begin(&self) -> (r: Request)
        ensures
            r@ == (RequestView::ExistsAt { path: path_join(self@.repo.path, encode_utf8(".git"@)) }),
    {
        Request::ExistsAt { path: self.repo.dot_git_path() }
    }

    /// Whether the run is over.
    pub fn is_finished(&self) -> (r: bool)
        ensures
            r == (self@.phase == PhaseView::Finished),
    {
        self.phase == Phase::Finished
    }

    /// The catalog of the run.
    pub fn db(&self) -> (r: &Db)
        requires
            self.wf(),
        ensures
            r@ == self@.catalog,
            r.wf(),
    {
        &self.db
    }

    /// The repository of the run.
    pub fn repository(&self) -> (r: &Repo)
        ensures
            r@ == self@.repo,
    {
        &self.repo
    }

    /// Ends the run and hands the catalog back.
    pub fn into_db(self) -> (r: Db)
        requires
            self.wf(),
        ensures
            r@ == self@.catalog,
            r.wf(),
            r.pending_writes().len() == 0,
    {
        self.db
    }

    fn fail(&mut self, error: RepoError) -> (r: (Request, Ghost<Timespec>))
        requires
            old(self).steady(),
        ensures
            final(self).follows(*old(self)),
            (final(self)@, r.0@) == fail(old(self)@, error.kind()),
            r.0 == Request::Failed(error),
    {
        self.phase = Phase::Finished;
        (Request::Failed(error), Ghost(no_time()))
    }

    /// Brings the catalog's record of the repository in line with the
    /// clone.
    fn sync(&mut self) -> (r: (RepoResult<()>, Ghost<Timespec>))
        requires
            old(self).steady(),
        ensures
            final(self).keeps(*old(self)),
            match sync_repo(old(self)@, r.1@) {
                Ok(mid) => r.0 is Ok && final(self)@ == mid,
                Err(failed) => is_sql_error(r.0) && final(self)@ == failed,
            },
    {
        let ghost repo_before = self.repo@;
        let ghost db_before = self.db;
        let result = self.repo.update_repo_in_db(&mut self.db);
        let ghost added = choose|added: Timespec| #[trigger]
            synced_at(repo_before, db_before, self.db, result, added);
        assert(synced_at(repo_before, db_before, self.db, result, added));
        assert(views(self.repo.branches@).len() == views(old(self).repo.branches@).len());
        (result, Ghost(added))
    }

    fn handle_probed(&mut self, found: bool) -> (r: (Request, Ghost<Timespec>))
        requires
            old(self).inv(),
            old(self).phase == Phase::Probing,
        ensures
            final(self).follows(*old(self)),
            (final(self)@, r.0@) == on_probed(old(self)@, found, r.1@),
    {
        let _ = self.repo.probe_fs(found);
        let (result, added) = self.sync();
        match result {
            Ok(()) => {},
            Err(e) => {
                let (request, _) = self.fail(e);
                return (request, added);
            },
        }
        match self.repo.sync_state {
            SyncState::Corrupted => {
                let (request, _) = self.fail(
                    RepoError::InvalidState("the clone is recorded as corrupted".to_owned()),
                );
                (request, added)
            },
            SyncState::NotCloned => {
                self.phase = Phase::Cloning;
                (Request::Clone { uri: self.repo.uri.clone(), path: self.repo.path.clone() }, added)
            },
            SyncState::Cloned => {
                self.phase = Phase::Opening;
                (Request::Open { path: self.repo.path.clone() }, added)
            },
        }
    }

    fn handle_cloned(&mut self) -> (r: (Request, Ghost<Timespec>))
        requires
            old(self).inv(),
            old(self).phase == Phase::Cloning,
        ensures
            final(self).follows(*old(self)),
            (final(self)@, r.0@) == on_cloned(old(self)@, r.1@),
    {
        let _ = self.repo.clone_repo();
        self.plan_branch(0)
    }

    fn handle_opened(&mut self) -> (r: (Request, Ghost<Timespec>))
        requires
            old(self).inv(),
            old(self).phase == Phase::Opening,
        ensures
            final(self).follows(*old(self)),
            (final(self)@, r.0@) == on_opened(old(self)@),
    {
        let _ = self.repo.open_repo();
        self.phase = Phase::Fetching;
        (Request::Fetch { branches: self.repo.branch_names() }, Ghost(no_time()))
    }

    fn repoint(&mut self, i: usize) -> (r: (Request, Ghost<Timespec>))
        requires
            old(self).steady(),
            old(self).tips.len() == 0,
        ensures
            final(self).follows(*old(self)),
            (final(self)@, r.0@) == repoint(old(self)@, i as int, r.1@),
    {
        if i < self.repo.branches.len() {
            self.phase = Phase::Repointing { branch: i };
            (
                Request::SetLocalBranchToRemote { branch: self.repo.branches[i].name.clone() },
                Ghost(no_time()),
            )
        } else {
            self.plan_branch(0)
        }
    }

    fn plan_branch(&mut self, i: usize) -> (r: (Request, Ghost<Timespec>))
        requires
            old(self).steady(),
            old(self).tips.len() == i,
        ensures
            final(self).follows(*old(self)),
            (final(self)@, r.0@) == plan_branch(old(self)@, i as int, r.1@),
    {
        if i < self.repo.branches.len() {
            match self.repo.branch_commit_id(self.repo.branches[i].name.as_str()) {
                Ok(request) => {
                    self.phase = Phase::ResolvingTip { branch: i };
                    (request, Ghost(no_time()))
                },
                Err(e) => self.fail(e),
            }
        } else {
            self.finish_planning()
        }
    }

    fn handle_tip(&mut self, i: usize, tip: String) -> (r: (Request, Ghost<Timespec>))
        requires
            old(self).inv(),
            old(self).phase == (Phase::ResolvingTip { branch: i }),
        ensures
            final(self).follows(*old(self)),
            (final(self)@, r.0@) == on_tip(old(self)@, i as int, tip@),
    {
        let ghost tip_text = tip@;
        self.tips.push(tip);
        assert(texts(self.tips@) =~= texts(old(self).tips@).push(tip_text));
        self.phase = Phase::Walking { branch: i };
        let found = match self.db.find_branch(
            self.repo.id.as_str(),
            self.repo.branches[i].name.as_str(),
        ) {
            Ok(found) => found,
            Err(e) => {
                return self.fail(e);
            },
        };
        let row = match found {
            Some(row) => row,
            None => {
                return self.fail(RepoError::BranchNotFound);
            },
        };
        self.watermark = row.indexed_commit_id;
        match &self.watermark {
            Some(indexed) => {
                self.phase = Phase::MergingBases { branch: i };
                (
                    Request::MergeBases { one: self.tips[i].clone(), two: indexed.clone() },
                    Ghost(no_time()),
                )
            },
            None => {
                let mut walk = Revwalk::new();
                let bases: Vec<String> = Vec::new();
                assert(texts(bases@) =~= Seq::empty());
                match self.repo.revwalk_add_branch(
                    &mut walk,
                    self.tips[i].as_str(),
                    &self.watermark,
                    &bases,
                ) {
                    Ok(()) => {},
                    Err(e) => {
                        return self.fail(e);
                    },
                }
                assert(walk@ =~= walk_scope(tip_text, None, Seq::empty()));
                (Request::Revwalk(walk), Ghost(no_time()))
            },
        }
    }

    fn handle_bases(&mut self, i: usize, bases: Vec<String>) -> (r: (Request, Ghost<Timespec>))
        requires
            old(self).inv(),
            old(self).phase == (Phase::MergingBases { branch: i }),
        ensures
            final(self).follows(*old(self)),
            (final(self)@, r.0@) == on_bases(old(self)@, i as int, texts(bases@)),
    {
        let mut walk = Revwalk::new();
        match self.repo.revwalk_add_branch(
            &mut walk,
            self.tips[i].as_str(),
            &self.watermark,
            &bases,
        ) {
            Ok(()) => {},
            Err(e) => {
                return self.fail(e);
            },
        }
        assert(walk@ =~= walk_scope(self@.tips[i as int], self@.watermark, texts(bases@)));
        self.phase = Phase::Walking { branch: i };
        (Request::Revwalk(walk), Ghost(no_time()))
    }

    fn plan_tree(&mut self, i: usize) -> (r: (Request, Ghost<Timespec>))
        requires
            old(self).inv(),
            old(self).phase == (Phase::Walking { branch: i }),
            old(self).command == Command::Index,
        ensures
            final(self).follows(*old(self)),
            (final(self)@, r.0@) == plan_tree(old(self)@, i as int),
    {
        match self.repo.treewalks(
            &self.db,
            self.repo.branches[i].name.as_str(),
            self.tips[i].as_str(),
        ) {
            Ok(request) => {
                self.phase = Phase::PlanningTree { branch: i };
                (request, Ghost(no_time()))
            },
            Err(e) => self.fail(e),
        }
    }

    fn handle_walked(&mut self, i: usize, commits: Vec<String>) -> (r: (Request, Ghost<Timespec>))
        requires
            old(self).inv(),
            old(self).phase == (Phase::Walking { branch: i }),
        ensures
            final(self).follows(*old(self)),
            (final(self)@, r.0@) == on_walked(old(self)@, i as int, texts(commits@), r.1@),
    {
        assert(i < old(self).repo.branches.len());
        match self.repo.revwalk(&mut self.db, &commits) {
            Ok(()) => {},
            Err(e) => {
                return self.fail(e);
            },
        }
        match self.command {
            Command::Fetch => self.plan_branch(i + 1),
            Command::Index => self.plan_tree(i),
        }
    }

    fn handle_tree(&mut self, i: usize, entries: Vec<RepoTreeEntry>) -> (r: (
        Request,
        Ghost<Timespec>,
    ))
        requires
            old(self).inv(),
            old(self).phase == (Phase::PlanningTree { branch: i }),
        ensures
            final(self).follows(*old(self)),
            (final(self)@, r.0@) == on_tree(old(self)@, i as int, views(entries@), r.1@),
    {
        assert(i < old(self).repo.branches.len());
        if self.watermark.is_some() {
            return self.fail(
                RepoError::InvalidState("a diff was asked for, not a tree".to_owned()),
            );
        }
        match self.repo.treewalk(
            &mut self.db,
            self.repo.branches[i].name.as_str(),
            self.tips[i].as_str(),
            &entries,
        ) {
            Ok(()) => self.plan_branch(i + 1),
            Err(e) => self.fail(e),
        }
    }

    fn handle_deltas(&mut self, i: usize, deltas: Vec<Delta>) -> (r: (Request, Ghost<Timespec>))
        requires
            old(self).inv(),
            old(self).phase == (Phase::PlanningTree { branch: i }),
        ensures
            final(self).follows(*old(self)),
            (final(self)@, r.0@) == on_deltas(old(self)@, i as int, views(deltas@), r.1@),
    {
        assert(i < old(self).repo.branches.len());
        if self.watermark.is_none() {
            return self.fail(
                RepoError::InvalidState("a tree was asked for, not a diff".to_owned()),
            );
        }
        let index = match &self.index {
            Some(index) => index,
            None => {
                return self.fail(RepoError::NoElasticSearch);
            },
        };
        match index.index_diff(
            &mut self.db,
            &self.repo,
            self.repo.branches[i].name.as_str(),
            self.tips[i].as_str(),
            &deltas,
        ) {
            Ok(removed) => {
                let mut removed = removed;
                let ghost earlier = views(self.removals@);
                let ghost added_paths = views(removed@);
                self.removals.append(&mut removed);
                assert(views(self.removals@) =~= earlier + added_paths);
                self.plan_branch(i + 1)
            },
            Err(e) => self.fail(e),
        }
    }

    fn finish_planning(&mut self) -> (r: (Request, Ghost<Timespec>))
        requires
            old(self).steady(),
            old(self).tips.len() == old(self).repo.branches.len(),
        ensures
            final(self).follows(*old(self)),
            (final(self)@, r.0@) == finish_planning(old(self)@, r.1@),
    {
        let (result, added) = self.sync();
        match result {
            Ok(()) => {},
            Err(e) => {
                let (request, _) = self.fail(e);
                return (request, added);
            },
        }
        assert(texts(self.tips@).len() == texts(old(self).tips@).len());
        assert(views(self.repo.branches@).len() == views(old(self).repo.branches@).len());
        match self.command {
            Command::Fetch => {
                self.phase = Phase::Finished;
                (Request::Done, added)
            },
            Command::Index => {
                let (request, _) = self.start_indexing();
                (request, added)
            },
        }
    }

    fn start_indexing(&mut self) -> (r: (Request, Ghost<Timespec>))
        requires
            old(self).steady(),
            old(self).tips.len() == old(self).repo.branches.len(),
            old(self).command == Command::Index,
        ensures
            final(self).follows(*old(self)),
            (final(self)@, r.0@) == start_indexing(old(self)@),
    {
        let index = match &self.index {
            Some(index) => index,
            None => {
                return self.fail(RepoError::NoElasticSearch);
            },
        };
        match index.index_commits(&self.db, &self.repo) {
            Ok(commits) => {
                self.commits = commits;
                self.next_commit(0)
            },
            Err(e) => self.fail(e),
        }
    }

    fn next_commit(&mut self, j: usize) -> (r: (Request, Ghost<Timespec>))
        requires
            old(self).steady(),
            old(self).tips.len() == old(self).repo.branches.len(),
            old(self).command == Command::Index,
        ensures
            final(self).follows(*old(self)),
            (final(self)@, r.0@) == next_commit(old(self)@, j as int),
    {
        if j < self.commits.len() {
            match self.repo.get_commit(self.commits[j].as_str()) {
                Ok(request) => {
                    self.phase = Phase::LoadingCommit { commit: j };
                    (request, Ghost(no_time()))
                },
                Err(e) => self.fail(e),
            }
        } else {
            self.next_removal(0)
        }
    }

    fn handle_commit_loaded(&mut self, j: usize, commit: GitCommit) -> (r: (
        Request,
        Ghost<Timespec>,
    ))
        requires
            old(self).inv(),
            old(self).phase == (Phase::LoadingCommit { commit: j }),
        ensures
            final(self).follows(*old(self)),
            (final(self)@, r.0@) == on_commit_loaded(old(self)@, j as int, commit),
    {
        let index = match &self.index {
            Some(index) => index,
            None => {
                return self.fail(RepoError::NoElasticSearch);
            },
        };
        match index.index_commit(&self.repo, self.commits[j].as_str(), &commit) {
            Ok(request) => {
                self.phase = Phase::PuttingCommit { commit: j };
                (request, Ghost(no_time()))
            },
            Err(e) => self.fail(e),
        }
    }

    fn handle_commit_put(&mut self, j: usize) -> (r: (Request, Ghost<Timespec>))
        requires
            old(self).inv(),
            old(self).phase == (Phase::PuttingCommit { commit: j }),
        ensures
            final(self).follows(*old(self)),
            (final(self)@, r.0@) == on_commit_put(old(self)@, j as int),
    {
        assert(j < old(self).commits.len());
        match self.db.mark_commit_as_indexed(self.repo.id.as_str(), self.commits[j].as_str()) {
            Ok(()) => self.next_commit(j + 1),
            Err(e) => self.fail(e),
        }
    }

    fn next_removal(&mut self, d: usize) -> (r: (Request, Ghost<Timespec>))
        requires
            old(self).steady(),
            old(self).tips.len() == old(self).repo.branches.len(),
            old(self).command == Command::Index,
        ensures
            final(self).follows(*old(self)),
            (final(self)@, r.0@) == next_removal(old(self)@, d as int),
    {
        if d < self.removals.len() {
            self.phase = Phase::Deleting { removal: d };
            (
                Request::DeleteFile {
                    id: file_id(self.repo.id.as_str(), self.removals[d].bytes.as_slice()),
                },
                Ghost(no_time()),
            )
        } else {
            self.index_branch(0)
        }
    }

    /// Closes branch `i`.
    fn close_branch(&mut self, i: usize) -> (r: RepoResult<()>)
        requires
            old(self).steady(),
            old(self).tips.len() == old(self).repo.branches.len(),
            i < old(self).repo.branches.len(),
            old(self).command == Command::Index,
        ensures
            final(self).keeps(*old(self)),
            !old(self).repo.opened ==> (r matches Err(RepoError::InvalidState(_)) && final(self)@
                == old(self)@),
            old(self).repo.opened && old(self)@.catalog.version < 4 ==> is_sql_error(r)
                && final(self)@ == old(self)@,
            old(self).repo.opened && old(self)@.catalog.version >= 4 ==> r is Ok && final(self)@
                == (SessionView { catalog: closed_branch(old(self)@, i as int), ..old(self)@ }),
    {
        let index = match &self.index {
            Some(index) => index,
            None => {
                return Err(RepoError::SqlError("no search service".to_owned()));
            },
        };
        match index.index_branches(
            &mut self.db,
            &self.repo,
            self.repo.branches[i].name.as_str(),
            self.tips[i].as_str(),
        ) {
            Ok(_) => Ok(()),
            Err(e) => Err(e),
        }
    }

    fn index_branch(&mut self, i: usize) -> (r: (Request, Ghost<Timespec>))
        requires
            old(self).steady(),
            old(self).tips.len() == old(self).repo.branches.len(),
            old(self).command == Command::Index,
        ensures
            final(self).follows(*old(self)),
            (final(self)@, r.0@) == index_branch(old(self)@, i as int),
        decreases old(self).repo.branches.len() - i,
    {
        if i >= self.repo.branches.len() {
            self.phase = Phase::Finished;
            return (Request::Done, Ghost(no_time()));
        }
        let index = match &self.index {
            Some(index) => index,
            None => {
                return self.fail(RepoError::NoElasticSearch);
            },
        };
        match index.index_tree(&self.db, &self.repo, self.repo.branches[i].name.as_str()) {
            Ok(files) => {
                self.files = files;
            },
            Err(e) => {
                return self.fail(e);
            },
        }
        if self.files.len() > 0 {
            self.load_file(i, 0)
        } else {
            match self.close_branch(i) {
                Ok(()) => {
                    assert(texts(self.tips@).len() == texts(old(self).tips@).len());
                    assert(views(self.repo.branches@).len() == views(
                        old(self).repo.branches@,
                    ).len());
                    self.index_branch(i + 1)
                },
                Err(e) => self.fail(e),
            }
        }
    }

    fn load_file(&mut self, i: usize, k: usize) -> (r: (Request, Ghost<Timespec>))
        requires
            old(self).steady(),
            old(self).tips.len() == old(self).repo.branches.len(),
            old(self).command == Command::Index,
            i < old(self).repo.branches.len(),
            k < old(self).files.len(),
        ensures
            final(self).follows(*old(self)),
            (final(self)@, r.0@) == load_file(old(self)@, i as int, k as int),
    {
        let index = match &self.index {
            Some(index) => index,
            None => {
                return self.fail(RepoError::NoElasticSearch);
            },
        };
        match index.index_file(&self.repo, &self.files[k]) {
            Ok(request) => {
                self.phase = Phase::LoadingBlob { branch: i, file: k };
                (request, Ghost(no_time()))
            },
            Err(e) => self.fail(e),
        }
    }

    fn next_file(&mut self, i: usize, k: usize) -> (r: (Request, Ghost<Timespec>))
        requires
            old(self).steady(),
            old(self).tips.len() == old(self).repo.branches.len(),
            old(self).command == Command::Index,
            i < old(self).repo.branches.len(),
        ensures
            final(self).follows(*old(self)),
            (final(self)@, r.0@) == next_file(old(self)@, i as int, k as int),
    {
        if k < self.files.len() {
            self.load_file(i, k)
        } else {
            match self.close_branch(i) {
                Ok(()) => {
                    assert(texts(self.tips@).len() == texts(old(self).tips@).len());
                    assert(views(self.repo.branches@).len() == views(
                        old(self).repo.branches@,
                    ).len());
                    self.index_branch(i + 1)
                },
                Err(e) => self.fail(e),
            }
        }
    }

    fn handle_blob(&mut self, i: usize, k: usize, blob: Blob, changed: GitTime) -> (r: (
        Request,
        Ghost<Timespec>,
    ))
        requires
            old(self).inv(),
            old(self).phase == (Phase::LoadingBlob { branch: i, file: k }),
        ensures
            final(self).follows(*old(self)),
            (final(self)@, r.0@) == on_blob(old(self)@, i as int, k as int, blob@, changed),
    {
        let index = match &self.index {
            Some(index) => index,
            None => {
                return self.fail(RepoError::NoElasticSearch);
            },
        };
        assert(k < old(self).files.len());
        match index.index_blob(
            &mut self.db,
            &self.repo,
            &self.files[k].path,
            self.files[k].changed_commit_id.as_str(),
            &blob,
            &changed,
        ) {
            Ok(Some(request)) => {
                self.phase = Phase::PuttingFile { branch: i, file: k };
                (request, Ghost(no_time()))
            },
            Ok(None) => self.next_file(i, k + 1),
            Err(e) => self.fail(e),
        }
    }

    fn handle_file_put(&mut self, i: usize, k: usize) -> (r: (Request, Ghost<Timespec>))
        requires
            old(self).inv(),
            old(self).phase == (Phase::PuttingFile { branch: i, file: k }),
        ensures
            final(self).follows(*old(self)),
            (final(self)@, r.0@) == on_file_put(old(self)@, i as int, k as int),
    {
        assert(k < old(self).files.len());
        match self.db.mark_file_as_indexed(
            self.repo.id.as_str(),
            &self.files[k].path,
            self.files[k].changed_commit_id.as_str(),
        ) {
            Ok(()) => self.next_file(i, k + 1),
            Err(e) => self.fail(e),
        }
    }
}


impl Session {
    fn unexpected(&mut self) -> (r: (Request, Ghost<Timespec>))
        requires
            old(self).steady(),
        ensures
            final(self).follows(*old(self)),
            (final(self)@, r.0@) == fail(old(self)@, ErrorKind::InvalidState),
    {
        self.fail(RepoError::InvalidState("the event does not answer the request".to_owned()))
    }

    /// Takes the run one step further: `event` is what came of the request
    /// of the step before. The step hands back the writes that the catalog
    /// has taken meanwhile, which replayed on the catalog as it was give
    /// the catalog as it is, and the next request. A failure that the host
    /// reports ends the run with that very error.
    pub fn step(&mut self, event: Event) -> (r: Step)
        requires
            old(self).wf(),
        ensures
            final(self).wf(),
            exists|added: Timespec| #[trigger]
                transition(old(self)@, event, added) == (final(self)@, r.request@),
            old(self)@.catalog.replay(views(r.writes@)) == Some(final(self)@.catalog),
            event matches Event::Failed(error) ==> r.request == Request::Failed(error),
    {
        proof {
            self.db.lemma_wf();
        }
        let ghost given = event;
        let (request, added) = match event {
            Event::Failed(error) => self.fail(error),
            Event::Exists(found) => match self.phase {
                Phase::Probing => self.handle_probed(found),
                _ => self.unexpected(),
            },
            Event::Done => match self.phase {
                Phase::Cloning => self.handle_cloned(),
                Phase::Opening => self.handle_opened(),
                Phase::Fetching => self.repoint(0),
                Phase::Repointing { branch } => self.repoint(branch + 1),
                Phase::PuttingCommit { commit } => self.handle_commit_put(commit),
                Phase::Deleting { removal } => {
                    assert(views(self.removals@).len() == self.removals.len());
                    self.next_removal(removal + 1)
                },
                Phase::PuttingFile { branch, file } => self.handle_file_put(branch, file),
                _ => self.unexpected(),
            },
            Event::Oid(tip) => match self.phase {
                Phase::ResolvingTip { branch } => self.handle_tip(branch, tip),
                _ => self.unexpected(),
            },
            Event::Oids(ids) => match self.phase {
                Phase::MergingBases { branch } => self.handle_bases(branch, ids),
                Phase::Walking { branch } => self.handle_walked(branch, ids),
                _ => self.unexpected(),
            },
            Event::Tree(entries) => match self.phase {
                Phase::PlanningTree { branch } => self.handle_tree(branch, entries),
                _ => self.unexpected(),
            },
            Event::Deltas(deltas) => match self.phase {
                Phase::PlanningTree { branch } => self.handle_deltas(branch, deltas),
                _ => self.unexpected(),
            },
            Event::Commit(commit) => match self.phase {
                Phase::LoadingCommit { commit: j } => self.handle_commit_loaded(j, commit),
                _ => self.unexpected(),
            },
            Event::Blob { blob, changed } => match self.phase {
                Phase::LoadingBlob { branch, file } => self.handle_blob(branch, file, blob, changed),
                _ => self.unexpected(),
            },
        };
        assert(transition(old(self)@, given, added@) == (self@, request@));
        let writes = self.db.take_writes();
        Step { writes, request }
    }
}

} // verus!
