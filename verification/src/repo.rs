//! The repository being mirrored and the state of its local clone.

use vstd::prelude::*;
use vstd::string::*;
use vstd::utf8::encode_utf8;
use crate::catalog::{
    lemma_accepted_stops, lemma_filter_map_none, lemma_filter_map_step, opt_view, views, Catalog,
    DbWriteView,
};
use crate::config::{Config, ConfigView, RepoLocation};
use crate::db::{is_sql_error, write_outcome, writes_outcome, Db, DbWrite};
use crate::digest::{repo_id, repo_id_of};
use crate::git::{ObjectType, Revwalk, RevwalkView, TreeEntry, TreeEntryView};
use crate::models::repo_branch::{RepoBranch, RepoBranchView};
use crate::models::repository::{Repository, RepositoryView, Timespec};
use crate::models::types::{clone_opt_text, opt_text, path_join, str_eq, texts, RepoPath};
use crate::result::{RepoError, RepoResult};
use crate::session::Request;

verus! {

/// State of the on-disk clone of a repository.
#[derive(Debug, Clone, Copy, PartialEq, Eq, Structural)]
pub enum SyncState {
    NotCloned,
    Cloned,
    Corrupted,
}

impl SyncState {
    /// The name under which the state is stored.
    pub open spec fn name(self) -> Seq<char> {
        match self {
            SyncState::NotCloned => "NotCloned"@,
            SyncState::Cloned => "Cloned"@,
            SyncState::Corrupted => "Corrupted"@,
        }
    }

    /// The state stored under `text`, if `text` names one.
    pub open spec fn parse(text: Seq<char>) -> Option<SyncState> {
        if text == "NotCloned"@ {
            Some(SyncState::NotCloned)
        } else if text == "Cloned"@ {
            Some(SyncState::Cloned)
        } else if text == "Corrupted"@ {
            Some(SyncState::Corrupted)
        } else {
            None
        }
    }

    /// Reads a stored state name; any other text is an `EnumParseError` that
    /// carries the text.
    pub fn from_str(s: &str) -> (r: RepoResult<SyncState>)
        ensures
            match SyncState::parse(s@) {
                Some(state) => r == Ok::<SyncState, RepoError>(state),
                None => r matches Err(RepoError::EnumParseError(text)) && text@ == s@,
            },
    {
        if str_eq(s, "NotCloned") {
            Ok(SyncState::NotCloned)
        } else if str_eq(s, "Cloned") {
            Ok(SyncState::Cloned)
        } else if str_eq(s, "Corrupted") {
            Ok(SyncState::Corrupted)
        } else {
            Err(RepoError::EnumParseError(s.to_owned()))
        }
    }

    /// The name under which the state is stored.
    pub fn to_string(&self) -> (r: String)
        ensures
            r@ == self.name(),
    {
        match self {
            SyncState::NotCloned => "NotCloned".to_owned(),
            SyncState::Cloned => "Cloned".to_owned(),
            SyncState::Corrupted => "Corrupted".to_owned(),
        }
    }
}

/// Every state is read back from the name it is stored under.
pub proof fn lemma_sync_state_round_trip(state: SyncState)
    ensures
        SyncState::parse(state.name()) == Some(state),
{
    reveal_strlit("NotCloned");
    reveal_strlit("Cloned");
    reveal_strlit("Corrupted");
    assert("NotCloned"@.len() == 9);
    assert("Cloned"@.len() == 6);
    assert("Corrupted"@.len() == 9);
    assert("NotCloned"@[0] == 'N');
    assert("Corrupted"@[0] == 'C');
}


/// A branch to mirror, with the commit it was last indexed at where the
/// caller knows it.
#[derive(Debug, PartialEq, Eq)]
pub struct Branch {
    pub name: String,
    pub indexed_commit: Option<String>,
}

pub struct BranchView {
    pub name: Seq<char>,
    pub indexed_commit: Option<Seq<char>>,
}

impl View for Branch {
    type V = BranchView;

    open spec fn view(&self) -> BranchView {
        BranchView { name: self.name@, indexed_commit: opt_text(self.indexed_commit) }
    }
}

impl Clone for Branch {
    fn clone(&self) -> (r: Self)
        ensures
            r@ == self@,
    {
        Branch { name: self.name.clone(), indexed_commit: clone_opt_text(&self.indexed_commit) }
    }
}

impl Branch {
    pub fn new(name: String, indexed_commit: Option<String>) -> (r: Branch)
        ensures
            r@ == (BranchView { name: name@, indexed_commit: opt_text(indexed_commit) }),
    {
        Branch { name, indexed_commit }
    }
}

/// An entry of a tree together with its path from the root of the
/// repository.
#[derive(Debug, PartialEq, Eq)]
pub struct RepoTreeEntry {
    pub entry: TreeEntry,
    pub path: RepoPath,
}

pub struct RepoTreeEntryView {
    pub entry: TreeEntryView,
    pub path: Seq<u8>,
}

impl View for RepoTreeEntry {
    type V = RepoTreeEntryView;

    open spec fn view(&self) -> RepoTreeEntryView {
        RepoTreeEntryView { entry: self.entry@, path: self.path@ }
    }
}

impl Clone for RepoTreeEntry {
    fn clone(&self) -> (r: Self)
        ensures
            r@ == self@,
    {
        RepoTreeEntry { entry: self.entry.clone(), path: self.path.clone() }
    }
}

/// The entry `entry` as found in the directory `base`, if it has a name.
pub open spec fn entry_in(entry: TreeEntryView, base: Seq<u8>) -> Option<RepoTreeEntryView> {
    match entry.name {
        Some(name) => Some(RepoTreeEntryView { entry, path: path_join(base, name) }),
        None => None,
    }
}

/// The entries of a directory listing that have a name, each with its path
/// below `base`, in the order of the listing.
pub open spec fn entries_in(listing: Seq<TreeEntryView>, base: Seq<u8>) -> Seq<RepoTreeEntryView>
    decreases listing.len(),
{
    if listing.len() == 0 {
        Seq::empty()
    } else {
        let front = entries_in(listing.drop_last(), base);
        match entry_in(listing.last(), base) {
            Some(found) => front.push(found),
            None => front,
        }
    }
}

impl RepoTreeEntry {
    pub fn new(entry: TreeEntry, path: RepoPath) -> (r: RepoTreeEntry)
        ensures
            r@ == (RepoTreeEntryView { entry: entry@, path: path@ }),
    {
        RepoTreeEntry { entry, path }
    }

    /// The entry as found in the directory `path`: its own path is `path`
    /// with its name appended. An entry without a name has no path.
    pub fn from_ref(entry: &TreeEntry, path: &RepoPath) -> (r: Option<RepoTreeEntry>)
        ensures
            opt_view(r) == entry_in(entry@, path@),
    {
        match &entry.name {
            Some(name) => Some(RepoTreeEntry::new(entry.clone(), path.join(name.as_slice()))),
            None => None,
        }
    }

    /// Whether the entry is a directory.
    pub fn is_tree(&self) -> (r: bool)
        ensures
            r == (self@.entry.kind == Some(ObjectType::Tree)),
    {
        match self.entry.kind {
            Some(ObjectType::Tree) => true,
            _ => false,
        }
    }

    /// Whether the entry is a file.
    pub fn is_blob(&self) -> (r: bool)
        ensures
            r == (self@.entry.kind == Some(ObjectType::Blob)),
    {
        match self.entry.kind {
            Some(ObjectType::Blob) => true,
            _ => false,
        }
    }
}

/// Appends to `out` the named entries of `listing`, with their paths below
/// `base`.
fn push_entries(out: &mut Vec<RepoTreeEntry>, listing: &Vec<TreeEntry>, base: &RepoPath)
    ensures
        views(final(out)@) == views(old(out)@) + entries_in(views(listing@), base@),
{
    let ghost all = views(listing@);
    let ghost start = views(out@);
    let mut i: usize = 0;
    assert(all.take(0) =~= Seq::empty());
    assert(start + entries_in(all.take(0), base@) =~= start);
    while i < listing.len()
        invariant
            i <= listing.len(),
            all == views(listing@),
            start == views(old(out)@),
            views(out@) == start + entries_in(all.take(i as int), base@),
        decreases listing.len() - i,
    {
        assert(all.take(i + 1).drop_last() == all.take(i as int));
        assert(all.take(i + 1).last() == listing[i as int]@);
        let ghost before = views(out@);
        match RepoTreeEntry::from_ref(&listing[i], base) {
            Some(found) => {
                let ghost found_view = found@;
                out.push(found);
                assert(views(out@) =~= before.push(found_view));
                assert(views(out@) =~= start + entries_in(all.take(i + 1), base@));
            },
            None => {},
        }
        i += 1;
    }
    assert(all.take(i as int) == all);
}

/// A breadth-first walk over a tree, held as the list of entries still to
/// be handed out. The walk does not read the repository itself: whoever
/// drives it supplies the listing of each directory as the walk reaches it.
#[derive(Debug, PartialEq, Eq)]
pub struct RecursiveTreeIter {
    pub entries: Vec<RepoTreeEntry>,
}

impl View for RecursiveTreeIter {
    type V = Seq<RepoTreeEntryView>;

    open spec fn view(&self) -> Seq<RepoTreeEntryView> {
        views(self.entries@)
    }
}

impl RecursiveTreeIter {
    /// The entry that `next` will hand out.
    pub fn front(&self) -> (r: Option<&RepoTreeEntry>)
        ensures
            match r {
                Some(entry) => self@.len() > 0 && entry@ == self@[0],
                None => self@.len() == 0,
            },
    {
        if self.entries.len() == 0 {
            None
        } else {
            Some(&self.entries[0])
        }
    }

    /// Hands out the entry at the front. Where that entry is a directory,
    /// `listing` has to be its listing: the named entries of it join the
    /// back of the walk, so that every entry is handed out before those
    /// below it. For any other entry `listing` is not looked at.
    pub fn next(&mut self, listing: &Vec<TreeEntry>) -> (r: Option<RepoTreeEntry>)
        ensures
            old(self)@.len() == 0 ==> r is None && final(self)@ == old(self)@,
            old(self)@.len() > 0 ==> (r matches Some(entry) && entry@ == old(self)@[0]
                && final(self)@ == old(self)@.skip(1) + if entry@.entry.kind == Some(
                ObjectType::Tree,
            ) {
                entries_in(views(listing@), entry@.path)
            } else {
                Seq::empty()
            }),
    {
        if self.entries.len() == 0 {
            None
        } else {
            let repo_entry = self.entries.remove(0);
            assert(views(self.entries@) =~= old(self)@.skip(1));
            if repo_entry.is_tree() {
                push_entries(&mut self.entries, listing, &repo_entry.path);
            } else {
                assert(views(self.entries@) + Seq::empty() =~= views(self.entries@));
            }
            Some(repo_entry)
        }
    }
}


/// The repository of a run.
#[derive(Debug, PartialEq, Eq)]
pub struct Repo {
    pub id: String,
    pub path: RepoPath,
    pub uri: String,
    pub branches: Vec<Branch>,
    pub sync_state: SyncState,
    /// Whether the host holds the working copy open.
    pub opened: bool,
}

pub struct RepoView {
    pub id: Seq<char>,
    pub path: Seq<u8>,
    pub uri: Seq<char>,
    pub branches: Seq<BranchView>,
    pub sync_state: SyncState,
    pub opened: bool,
}

impl View for Repo {
    type V = RepoView;

    open spec fn view(&self) -> RepoView {
        RepoView {
            id: self.id@,
            path: self.path@,
            uri: self.uri@,
            branches: views(self.branches@),
            sync_state: self.sync_state,
            opened: self.opened,
        }
    }
}

/// The names of the branches of a repository.
pub open spec fn names_of(branches: Seq<BranchView>) -> Seq<Seq<char>> {
    branches.map_values(|b: BranchView| b.name)
}

/// Branches of the given names, of which no indexed commit is known.
pub open spec fn unindexed_branches(names: Seq<Seq<char>>) -> Seq<BranchView> {
    names.map_values(|name: Seq<char>| BranchView { name, indexed_commit: None })
}

/// Where the clone of the repository at `remote` lives below the data
/// directory: in `repos`, in a directory named by the repository's id.
pub open spec fn repo_path_of(data_dir: Seq<char>, remote: Seq<char>) -> Seq<u8> {
    path_join(
        path_join(encode_utf8(data_dir), encode_utf8("repos"@)),
        encode_utf8(repo_id_of(remote)),
    )
}

/// The repository that the settings name: the one at the configured remote,
/// with the configured branches, its clone below the data directory, and
/// nothing known of the clone yet.
pub open spec fn configured_repo(config: ConfigView) -> Option<RepoView> {
    match config.repo_location {
        Some(location) => match location.remote {
            Some(remote) => Some(
                RepoView {
                    id: repo_id_of(remote),
                    path: repo_path_of(config.data_dir, remote),
                    uri: remote,
                    branches: unindexed_branches(location.branches),
                    sync_state: SyncState::NotCloned,
                    opened: false,
                },
            ),
            None => None,
        },
        None => None,
    }
}

/// What the catalog and the file system together say of the clone: a clone
/// recorded as corrupted stays so until it is repaired by hand; otherwise
/// what was found on disk counts.
pub open spec fn reconciled(stored: SyncState, probed: SyncState) -> SyncState {
    if stored == SyncState::Corrupted {
        stored
    } else {
        probed
    }
}

/// The name of the local reference of a branch.
pub open spec fn local_ref_of(branch: Seq<char>) -> Seq<char> {
    "refs/heads/"@ + branch
}

/// The name of the reference that tracks a branch of a remote.
pub open spec fn remote_ref_of(remote: Seq<char>, branch: Seq<char>) -> Seq<char> {
    "refs/remotes/"@ + remote + "/"@ + branch
}

/// The reflog message of moving a reference from one commit to another.
pub open spec fn reflog_message_of(reference: Seq<char>, from: Seq<char>, to: Seq<char>) -> Seq<
    char,
> {
    "update-ref: moving "@ + reference + " from "@ + from + " to "@ + to
}

/// The writes that enter a repository and its branches into the catalog.
pub open spec fn creation_writes(row: RepositoryView, names: Seq<Seq<char>>) -> Seq<DbWriteView> {
    seq![DbWriteView::InsertRepo(row)] + names.map_values(
        |name: Seq<char>|
            DbWriteView::InsertBranch(
                RepoBranchView { repo_id: row.id, name, indexed_commit_id: None },
            ),
    )
}

/// The writes that bring the catalog's record of the repository in line
/// with the clone: a repository the catalog does not know is entered first,
/// as added at `added`; then the row takes the reconciled state.
pub open spec fn sync_writes(repo: RepoView, catalog: Catalog, added: Timespec) -> Seq<
    DbWriteView,
> {
    match catalog.find_repo_by_remote(repo.uri) {
        Some(row) => seq![
            DbWriteView::UpdateRepo(
                RepositoryView { sync_state: reconciled(row.sync_state, repo.sync_state), ..row },
            ),
        ],
        None => {
            let row = Repository::fresh(repo.id, repo.uri, repo.path, added);
            creation_writes(row, names_of(repo.branches)) + seq![
                DbWriteView::UpdateRepo(RepositoryView { sync_state: repo.sync_state, ..row }),
            ]
        },
    }
}

/// The state of the clone after the catalog has had its say.
pub open spec fn synced_state(repo: RepoView, catalog: Catalog) -> SyncState {
    match catalog.find_repo_by_remote(repo.uri) {
        Some(row) => reconciled(row.sync_state, repo.sync_state),
        None => repo.sync_state,
    }
}

/// The write that records a discovered commit.
pub open spec fn commit_write(repo_id: Seq<char>) -> spec_fn(Seq<char>) -> DbWriteView {
    |id: Seq<char>| DbWriteView::CreateCommit { id, repo_id }
}

/// The writes that record the commits of a revision walk.
pub open spec fn commit_writes(repo_id: Seq<char>, ids: Seq<Seq<char>>) -> Seq<DbWriteView> {
    ids.map_values(commit_write(repo_id))
}

pub open spec fn is_blob_entry() -> spec_fn(RepoTreeEntryView) -> bool {
    |entry: RepoTreeEntryView| entry.entry.kind == Some(ObjectType::Blob)
}

/// The write that records a file of a tree as changed in `commit`.
pub open spec fn entry_write(repo_id: Seq<char>, branch: Seq<char>, commit: Seq<char>) -> spec_fn(
    RepoTreeEntryView,
) -> DbWriteView {
    |entry: RepoTreeEntryView|
        DbWriteView::UpsertFile { repo_id, branch, path: entry.path, changed_commit_id: commit }
}

/// The writes that record every file of a tree as changed in `commit`.
pub open spec fn tree_writes(
    repo_id: Seq<char>,
    branch: Seq<char>,
    commit: Seq<char>,
    entries: Seq<RepoTreeEntryView>,
) -> Seq<DbWriteView> {
    entries.filter(is_blob_entry()).map_values(entry_write(repo_id, branch, commit))
}

/// What entering the repository `repo` into the catalog at the time `added`
/// comes to: the creation writes are taken as far as the catalog accepts
/// them, and where it accepts them all the new row is handed back.
pub open spec fn created_at(
    repo: RepoView,
    before: Db,
    after: Db,
    result: RepoResult<Repository>,
    added: Timespec,
) -> bool {
    let row = Repository::fresh(repo.id, repo.uri, repo.path, added);
    &&& writes_outcome(
        before,
        after,
        match result {
            Ok(_) => Ok(()),
            Err(e) => Err(e),
        },
        creation_writes(row, names_of(repo.branches)),
    )
    &&& result matches Ok(created) ==> created@ == row
}

/// What bringing the catalog in line with the clone comes to, where a
/// repository that has to be entered first is entered as added at `added`.
pub open spec fn synced_at(
    repo: RepoView,
    before: Db,
    after: Db,
    result: RepoResult<()>,
    added: Timespec,
) -> bool {
    writes_outcome(before, after, result, sync_writes(repo, before@, added))
}

fn invalid_state<T>(message: &str) -> (r: RepoResult<T>)
    ensures
        r matches Err(RepoError::InvalidState(_)),
{
    Err(RepoError::InvalidState(message.to_owned()))
}

impl Repo {
    /// The identifier of the repository at `remote`: the SHA-1 digest of the
    /// URI, in hexadecimal.
    pub fn id(remote: &str) -> (r: String)
        ensures
            r@ == repo_id_of(remote@),
            r@.len() == 40,
    {
        repo_id(remote)
    }

    pub fn new(path: RepoPath, uri: String, branches: Vec<Branch>, sync_state: SyncState) -> (r:
        Repo)
        ensures
            r@ == (RepoView {
                id: repo_id_of(uri@),
                path: path@,
                uri: uri@,
                branches: views(branches@),
                sync_state,
                opened: false,
            }),
    {
        Repo { id: Repo::id(uri.as_str()), path, uri, branches, sync_state, opened: false }
    }

    /// Where the clone of the configured repository lives.
    pub fn get_repo_path(config: &Config, repo_loc: &RepoLocation) -> (r: RepoResult<RepoPath>)
        ensures
            match repo_loc.remote {
                Some(remote) => r matches Ok(path) && path@ == repo_path_of(
                    config.data_dir@,
                    remote@,
                ),
                None => r matches Err(RepoError::NoRemote),
            },
    {
        let remote = match repo_loc.get_remote() {
            Ok(remote) => remote,
            Err(e) => {
                return Err(e);
            },
        };
        let id = Repo::id(remote);
        Ok(
            RepoPath::from_str(config.data_dir.as_str()).join("repos".as_bytes()).join(
                id.as_str().as_bytes(),
            ),
        )
    }

    /// The repository that the settings name. Settings without a remote
    /// name none.
    pub fn new_for_config(config: &Config) -> (r: RepoResult<Repo>)
        ensures
            match configured_repo(config@) {
                Some(repo) => r matches Ok(found) && found@ == repo,
                None => r matches Err(RepoError::NoRemote),
            },
    {
        let repo_loc = match &config.repo_location {
            Some(repo_loc) => repo_loc,
            None => {
                return Err(RepoError::NoRemote);
            },
        };
        let uri = match &repo_loc.remote {
            Some(uri) => uri,
            None => {
                return Err(RepoError::NoRemote);
            },
        };
        let mut branches: Vec<Branch> = Vec::new();
        let mut i: usize = 0;
        while i < repo_loc.branches.len()
            invariant
                i <= repo_loc.branches.len(),
                branches.len() == i,
                forall|k: int|
                    0 <= k < i ==> branches[k]@ == (BranchView {
                        name: repo_loc.branches[k]@,
                        indexed_commit: None,
                    }),
            decreases repo_loc.branches.len() - i,
        {
            branches.push(Branch::new(repo_loc.branches[i].clone(), None));
            i += 1;
        }
        assert(views(branches@) =~= unindexed_branches(repo_loc@.branches));
        let path = match Repo::get_repo_path(config, repo_loc) {
            Ok(path) => path,
            Err(e) => {
                return Err(e);
            },
        };
        Ok(Repo::new(path, uri.clone(), branches, SyncState::NotCloned))
    }

    /// Whether a clone is believed to exist.
    pub fn is_cloned(&self) -> (r: bool)
        ensures
            r == (self.sync_state != SyncState::NotCloned),
    {
        match self.sync_state {
            SyncState::NotCloned => false,
            _ => true,
        }
    }

    /// Where the `.git` directory of the clone stands.
    pub fn dot_git_path(&self) -> (r: RepoPath)
        ensures
            r@ == path_join(self@.path, encode_utf8(".git"@)),
    {
        self.path.join(".git".as_bytes())
    }

    pub fn set_state(&mut self, new_state: SyncState)
        ensures
            final(self)@ == (RepoView { sync_state: new_state, ..old(self)@ }),
    {
        self.sync_state = new_state;
    }

    /// Takes note of what was found on disk: without a `.git` directory
    /// there is no clone; with one, a repository thought not to be cloned is
    /// cloned after all, and any other state stays.
    pub fn probe_fs(&mut self, dot_git_exists: bool) -> (r: RepoResult<()>)
        ensures
            r is Ok,
            final(self)@ == (RepoView {
                sync_state: if !dot_git_exists {
                    SyncState::NotCloned
                } else if old(self).sync_state == SyncState::NotCloned {
                    SyncState::Cloned
                } else {
                    old(self).sync_state
                },
                ..old(self)@
            }),
    {
        if !dot_git_exists {
            self.set_state(SyncState::NotCloned);
            Ok(())
        } else {
            match self.sync_state {
                SyncState::NotCloned => {
                    self.set_state(SyncState::Cloned);
                },
                _ => {},
            }
            Ok(())
        }
    }

    /// Fails unless the host holds the working copy open.
    pub fn git_repo(&self) -> (r: RepoResult<()>)
        ensures
            self.opened ==> r is Ok,
            !self.opened ==> r matches Err(RepoError::InvalidState(_)),
    {
        if self.opened {
            Ok(())
        } else {
            invalid_state("git repo not opened")
        }
    }

    /// Takes note that the host has cloned the repository and holds the
    /// clone open.
    pub fn clone_repo(&mut self) -> (r: RepoResult<()>)
        ensures
            r is Ok,
            final(self)@ == (RepoView {
                sync_state: SyncState::Cloned,
                opened: true,
                ..old(self)@
            }),
    {
        self.opened = true;
        self.sync_state = SyncState::Cloned;
        Ok(())
    }

    /// Takes note that the host holds the existing clone open.
    pub fn open_repo(&mut self) -> (r: RepoResult<()>)
        ensures
            r is Ok,
            final(self)@ == (RepoView { opened: true, ..old(self)@ }),
    {
        self.opened = true;
        Ok(())
    }

    /// The names of the branches, in order.
    pub fn branch_names(&self) -> (r: Vec<String>)
        ensures
            texts(r@) == names_of(self@.branches),
    {
        let mut names: Vec<String> = Vec::new();
        let mut i: usize = 0;
        while i < self.branches.len()
            invariant
                i <= self.branches.len(),
                names.len() == i,
                forall|k: int| 0 <= k < i ==> names[k]@ == self.branches[k].name@,
            decreases self.branches.len() - i,
        {
            names.push(self.branches[i].name.clone());
            i += 1;
        }
        assert(texts(names@) =~= names_of(self@.branches));
        names
    }

    /// The row the catalog has for the repository, if any.
    pub fn find_in_db(&self, db: &Db) -> (r: RepoResult<Option<Repository>>)
        requires
            db.wf(),
        ensures
            if db@.version >= 1 {
                r matches Ok(found) && opt_view(found) == db@.find_repo_by_remote(self@.uri)
            } else {
                is_sql_error(r)
            },
    {
        db.find_repo_by_remote(&self.uri)
    }

    /// The writes that enter `row` and the branches of this repository.
    fn creation_plan(&self, row: &Repository) -> (r: Vec<DbWrite>)
        ensures
            views(r@) == creation_writes(row@, names_of(self@.branches)),
    {
        let mut writes: Vec<DbWrite> = Vec::new();
        writes.push(DbWrite::InsertRepo(row.clone()));
        let mut i: usize = 0;
        while i < self.branches.len()
            invariant
                i <= self.branches.len(),
                writes.len() == i + 1,
                writes[0]@ == DbWriteView::InsertRepo(row@),
                forall|k: int|
                    0 <= k < i ==> writes[k + 1]@ == DbWriteView::InsertBranch(
                        RepoBranchView {
                            repo_id: row.id@,
                            name: self.branches[k].name@,
                            indexed_commit_id: None,
                        },
                    ),
            decreases self.branches.len() - i,
        {
            writes.push(
                DbWrite::InsertBranch(
                    RepoBranch::new(row.id.clone(), self.branches[i].name.clone(), None),
                ),
            );
            i += 1;
        }
        assert(views(writes@) =~= creation_writes(row@, names_of(self@.branches)));
        writes
    }

    /// Enters the repository into the catalog, as not cloned and added now,
    /// and with it each of its branches, as never indexed. The catalog
    /// refuses a repository it already has and a branch named twice; what
    /// was entered before the refusal stays.
    pub fn create_in_db(&self, db: &mut Db) -> (r: RepoResult<Repository>)
        requires
            old(db).wf(),
        ensures
            exists|added: Timespec| #[trigger] created_at(self@, *old(db), *final(db), r, added),
    {
        let new_repo = Repository::new_from_remote(
            self.id.clone(),
            self.uri.clone(),
            self.path.clone(),
        );
        let writes = self.creation_plan(&new_repo);
        let ghost added = new_repo.added_datetime->0;
        match db.apply_all(&writes) {
            Ok(()) => {
                assert(created_at(self@, *old(db), *db, Ok(new_repo), added));
                Ok(new_repo)
            },
            Err(e) => {
                assert(created_at(self@, *old(db), *db, Err(e), added));
                Err(e)
            },
        }
    }

    /// The row of the repository, entered first where the catalog does not
    /// have it.
    pub fn find_or_create_in_db(&mut self, db: &mut Db) -> (r: RepoResult<Repository>)
        requires
            old(db).wf(),
        ensures
            final(self)@ == old(self)@,
            final(db).wf(),
            final(db).durable() == old(db).durable(),
            old(db)@.version >= 1 ==> match old(db)@.find_repo_by_remote(old(self)@.uri) {
                Some(row) => r matches Ok(found) && found@ == row && final(db)@ == old(db)@,
                None => exists|added: Timespec| #[trigger]
                    created_at(old(self)@, *old(db), *final(db), r, added),
            },
            old(db)@.version < 1 ==> is_sql_error(r) && final(db)@ == old(db)@,
    {
        let maybe_repo = match self.find_in_db(db) {
            Ok(found) => found,
            Err(e) => {
                return Err(e);
            },
        };
        match maybe_repo {
            Some(existing_repo) => Ok(existing_repo),
            None => self.create_in_db(db),
        }
    }

    /// Brings the catalog's record of the repository in line with the clone,
    /// entering the repository first where the catalog does not know it. A
    /// clone that the catalog has as corrupted stays corrupted, here and
    /// there; any other recorded state gives way to the state found on disk.
    pub fn update_repo_in_db(&mut self, db: &mut Db) -> (r: RepoResult<()>)
        requires
            old(db).wf(),
        ensures
            exists|added: Timespec| #[trigger] synced_at(old(self)@, *old(db), *final(db), r, added),
            r is Ok ==> final(self)@ == (RepoView {
                sync_state: synced_state(old(self)@, old(db)@),
                ..old(self)@
            }),
            r is Err ==> final(self)@ == old(self)@,
    {
        proof {
            db.lemma_wf();
        }
        let ghost start = db@;
        let found = match self.find_in_db(db) {
            Ok(found) => found,
            Err(e) => {
                proof {
                    let added = Timespec { sec: 0, nsec: 0 };
                    let writes = sync_writes(self@, start, added);
                    assert(start.repositories.len() == 0);
                    assert(start.find_repo_by_remote(self@.uri) is None);
                    assert(writes.take(0) =~= Seq::empty());
                    lemma_accepted_stops(start, writes, 0);
                    assert(synced_at(old(self)@, *old(db), *db, Err(e), added));
                }
                return Err(e);
            },
        };
        let mut writes: Vec<DbWrite>;
        let state: SyncState;
        let ghost mut added = Timespec { sec: 0, nsec: 0 };
        match found {
            Some(row) => {
                state =
                match row.sync_state {
                    SyncState::Corrupted => SyncState::Corrupted,
                    _ => self.sync_state,
                };
                let mut row = row;
                row.sync_state = state;
                writes = Vec::new();
                writes.push(DbWrite::UpdateRepo(row));
                assert(views(writes@) =~= sync_writes(self@, start, added));
            },
            None => {
                state = self.sync_state;
                let mut row = Repository::new_from_remote(
                    self.id.clone(),
                    self.uri.clone(),
                    self.path.clone(),
                );
                proof {
                    added = row.added_datetime->0;
                }
                writes = self.creation_plan(&row);
                row.sync_state = state;
                let ghost created = views(writes@);
                writes.push(DbWrite::UpdateRepo(row));
                assert(views(writes@) =~= created.push(writes[writes.len() - 1]@));
                assert(views(writes@) =~= sync_writes(self@, start, added));
            },
        }
        match db.apply_all(&writes) {
            Ok(()) => {
                self.sync_state = state;
                assert(synced_at(old(self)@, *old(db), *db, Ok(()), added));
                Ok(())
            },
            Err(e) => {
                assert(synced_at(old(self)@, *old(db), *db, Err(e), added));
                Err(e)
            },
        }
    }
}


/// The references involved in pointing a local branch at what the same
/// branch of a remote points at.
#[derive(Debug, PartialEq, Eq)]
pub struct RefUpdate {
    pub local_ref: String,
    pub remote_ref: String,
}

impl RefUpdate {
    /// The reflog message for moving the local reference from `local_oid`
    /// to `remote_oid`.
    pub fn reflog_message(&self, local_oid: &str, remote_oid: &str) -> (r: String)
        ensures
            r@ == reflog_message_of(self.local_ref@, local_oid@, remote_oid@),
    {
        let mut message = "update-ref: moving ".to_owned();
        message.append(self.local_ref.as_str());
        message.append(" from ");
        message.append(local_oid);
        message.append(" to ");
        message.append(remote_oid);
        message
    }
}

/// The walk that finds the commits of a branch that are new since it was
/// last indexed: from the tip, stopping short of the merge bases of the tip
/// and the indexed commit. A branch that was never indexed is walked whole.
pub open spec fn walk_scope(tip: Seq<char>, indexed: Option<Seq<char>>, bases: Seq<Seq<char>>)
    -> RevwalkView {
    RevwalkView {
        pushed: seq![tip],
        hidden: if indexed is Some {
            bases
        } else {
            Seq::empty()
        },
    }
}

impl Repo {
    /// The local reference of a branch.
    pub fn find_branch(&self, branch_name: &str) -> (r: RepoResult<String>)
        ensures
            self.opened ==> (r matches Ok(name) && name@ == local_ref_of(branch_name@)),
            !self.opened ==> r matches Err(RepoError::InvalidState(_)),
    {
        match self.git_repo() {
            Ok(()) => {},
            Err(e) => {
                return Err(e);
            },
        }
        let mut name = "refs/heads/".to_owned();
        name.append(branch_name);
        Ok(name)
    }

    /// The references to use for pointing the local branch `branch_name` at
    /// what the branch of the remote `remote_name` points at: what
    /// `git update-ref refs/heads/<branch> refs/remotes/<remote>/<branch>`
    /// names.
    pub fn repoint_branch_to_origin(&self, branch_name: &str, remote_name: &str) -> (r: RepoResult<
        RefUpdate,
    >)
        ensures
            self.opened ==> (r matches Ok(update) && update.local_ref@ == local_ref_of(branch_name@)
                && update.remote_ref@ == remote_ref_of(remote_name@, branch_name@)),
            !self.opened ==> r matches Err(RepoError::InvalidState(_)),
    {
        let local_ref = match self.find_branch(branch_name) {
            Ok(name) => name,
            Err(e) => {
                return Err(e);
            },
        };
        let mut remote_ref = "refs/remotes/".to_owned();
        remote_ref.append(remote_name);
        remote_ref.append("/");
        remote_ref.append(branch_name);
        Ok(RefUpdate { local_ref, remote_ref })
    }

    /// The request to fetch the branches of the repository.
    pub fn fetch_repo(&self) -> (r: RepoResult<Request>)
        ensures
            self.opened ==> (r matches Ok(Request::Fetch { branches }) && texts(branches@)
                == names_of(self@.branches)),
            !self.opened ==> r matches Err(RepoError::InvalidState(_)),
    {
        match self.git_repo() {
            Ok(()) => {},
            Err(e) => {
                return Err(e);
            },
        }
        Ok(Request::Fetch { branches: self.branch_names() })
    }

    /// The requests that bring an open clone up to date: a fetch of the
    /// branches, then, for each branch in order, pointing the local branch at
    /// the fetched one.
    pub fn pull_repo(&self) -> (r: RepoResult<Vec<Request>>)
        ensures
            self.opened ==> (r matches Ok(requests) && requests.len() == self.branches.len() + 1 && (
            requests[0] matches Request::Fetch { branches } && texts(branches@) == names_of(
                self@.branches,
            )) && forall|k: int|
                0 <= k < self.branches.len() ==> (#[trigger] requests[k + 1]
                    matches Request::SetLocalBranchToRemote { branch } && branch@
                    == self.branches[k].name@)),
            !self.opened ==> r matches Err(RepoError::InvalidState(_)),
    {
        let fetch = match self.fetch_repo() {
            Ok(fetch) => fetch,
            Err(e) => {
                return Err(e);
            },
        };
        let mut requests: Vec<Request> = Vec::new();
        requests.push(fetch);
        let mut i: usize = 0;
        while i < self.branches.len()
            invariant
                i <= self.branches.len(),
                requests.len() == i + 1,
                requests[0] matches Request::Fetch { branches } && texts(branches@) == names_of(
                    self@.branches,
                ),
                forall|k: int|
                    0 <= k < i ==> (#[trigger] requests[k + 1]
                        matches Request::SetLocalBranchToRemote { branch } && branch@
                        == self.branches[k].name@),
            decreases self.branches.len() - i,
        {
            requests.push(Request::SetLocalBranchToRemote { branch: self.branches[i].name.clone() });
            i += 1;
        }
        Ok(requests)
    }

    /// The request that resolves the tip of a branch.
    pub fn branch_commit_id(&self, branch: &str) -> (r: RepoResult<Request>)
        ensures
            self.opened ==> (r matches Ok(Request::ResolveRef { name }) && name@ == local_ref_of(
                branch@,
            )),
            !self.opened ==> r matches Err(RepoError::InvalidState(_)),
    {
        match self.find_branch(branch) {
            Ok(name) => Ok(Request::ResolveRef { name }),
            Err(e) => Err(e),
        }
    }

    /// The request that loads a commit.
    pub fn get_commit(&self, commit_id: &str) -> (r: RepoResult<Request>)
        ensures
            self.opened ==> (r matches Ok(Request::FindCommit { commit_id: id }) && id@
                == commit_id@),
            !self.opened ==> r matches Err(RepoError::InvalidState(_)),
    {
        match self.git_repo() {
            Ok(()) => Ok(Request::FindCommit { commit_id: commit_id.to_owned() }),
            Err(e) => Err(e),
        }
    }

    /// Adds a branch to a revision walk: the walk starts at the tip of the
    /// branch too and, where the branch has been indexed before, stops short
    /// of the merge bases of the tip and the indexed commit. No walk is
    /// planned before the clone is open.
    pub fn revwalk_add_branch(
        &self,
        revwalk: &mut Revwalk,
        branch_commit: &str,
        indexed_commit: &Option<String>,
        bases: &Vec<String>,
    ) -> (r: RepoResult<()>)
        ensures
            self.opened ==> r is Ok && final(revwalk)@ == (RevwalkView {
                pushed: old(revwalk)@.pushed + walk_scope(
                    branch_commit@,
                    opt_text(*indexed_commit),
                    texts(bases@),
                ).pushed,
                hidden: old(revwalk)@.hidden + walk_scope(
                    branch_commit@,
                    opt_text(*indexed_commit),
                    texts(bases@),
                ).hidden,
            }),
            !self.opened ==> (r matches Err(RepoError::InvalidState(_)) && *final(revwalk) == *old(
                revwalk,
            )),
    {
        match self.git_repo() {
            Ok(()) => {},
            Err(e) => {
                return Err(e);
            },
        }
        if indexed_commit.is_some() {
            let mut i: usize = 0;
            assert(texts(bases@).take(0) =~= Seq::empty());
            assert(old(revwalk)@.hidden + Seq::empty() =~= old(revwalk)@.hidden);
            while i < bases.len()
                invariant
                    i <= bases.len(),
                    revwalk@.pushed == old(revwalk)@.pushed,
                    revwalk@.hidden == old(revwalk)@.hidden + texts(bases@).take(i as int),
                decreases bases.len() - i,
            {
                revwalk.exclude(bases[i].as_str());
                assert(texts(bases@).take(i + 1) =~= texts(bases@).take(i as int).push(bases[i as int]@));
                assert(revwalk@.hidden =~= old(revwalk)@.hidden + texts(bases@).take(i + 1));
                i += 1;
            }
            assert(texts(bases@).take(i as int) == texts(bases@));
        } else {
            assert(old(revwalk)@.hidden + Seq::empty() =~= old(revwalk)@.hidden);
        }
        revwalk.push(branch_commit);
        assert(revwalk@.pushed =~= old(revwalk)@.pushed + seq![branch_commit@]);
        Ok(())
    }

    /// Records a commit found by a revision walk.
    pub fn add_commit(&self, db: &mut Db, oid: &str) -> (r: RepoResult<()>)
        requires
            old(db).wf(),
        ensures
            write_outcome(
                *old(db),
                *final(db),
                r,
                DbWriteView::CreateCommit { id: oid@, repo_id: self@.id },
            ),
    {
        db.create_commit_unless_exists(oid, self.id.as_str())
    }

    /// Records the commits that a revision walk produced. Commits the
    /// catalog already has are left as they are.
    pub fn revwalk(&self, db: &mut Db, commits: &Vec<String>) -> (r: RepoResult<()>)
        requires
            old(db).wf(),
        ensures
            self.opened ==> writes_outcome(
                *old(db),
                *final(db),
                r,
                commit_writes(self@.id, texts(commits@)),
            ),
            !self.opened ==> (r matches Err(RepoError::InvalidState(_)) && *final(db) == *old(db)),
    {
        match self.git_repo() {
            Ok(()) => {},
            Err(e) => {
                return Err(e);
            },
        }
        let mut writes: Vec<DbWrite> = Vec::new();
        let mut i: usize = 0;
        while i < commits.len()
            invariant
                i <= commits.len(),
                writes.len() == i,
                forall|k: int|
                    0 <= k < i ==> writes[k]@ == (DbWriteView::CreateCommit {
                        id: commits[k]@,
                        repo_id: self@.id,
                    }),
            decreases commits.len() - i,
        {
            writes.push(DbWrite::CreateCommit { id: commits[i].clone(), repo_id: self.id.clone() });
            i += 1;
        }
        assert(views(writes@) =~= commit_writes(self@.id, texts(commits@)));
        db.apply_all(&writes)
    }

    /// The request for the diff between the tree a branch was last indexed
    /// at and the tree at its tip. Changes of whitespace alone and of file
    /// mode alone are to be left out of the diff.
    pub fn treediff(&self, indexed_commit_id: &str, branch_commit_id: &str) -> (r: RepoResult<
        Request,
    >)
        ensures
            r matches Ok(
                Request::TreeDiff { old_commit_id, new_commit_id, ignore_whitespace, ignore_filemode },
            ) && old_commit_id@ == indexed_commit_id@ && new_commit_id@ == branch_commit_id@
                && ignore_whitespace && ignore_filemode,
    {
        Ok(
            Request::TreeDiff {
                old_commit_id: indexed_commit_id.to_owned(),
                new_commit_id: branch_commit_id.to_owned(),
                ignore_whitespace: true,
                ignore_filemode: true,
            },
        )
    }

    /// The request that tells which files of a branch have changed since it
    /// was last indexed: a diff against the indexed commit, or a walk over
    /// the whole tree of the tip where the branch was never indexed. The
    /// clone has to be open and the branch has to be in the catalog.
    pub fn treewalks(&self, db: &Db, branch: &str, branch_commit_id: &str) -> (r: RepoResult<
        Request,
    >)
        requires
            db.wf(),
        ensures
            !self.opened ==> r matches Err(RepoError::InvalidState(_)),
            self.opened && db@.version < 2 ==> is_sql_error(r),
            self.opened && db@.version >= 2 ==> match db@.find_branch(self@.id, branch@) {
                None => r matches Err(RepoError::BranchNotFound),
                Some(row) => match row.indexed_commit_id {
                    Some(indexed) => r matches Ok(
                        Request::TreeDiff {
                            old_commit_id,
                            new_commit_id,
                            ignore_whitespace,
                            ignore_filemode,
                        },
                    ) && old_commit_id@ == indexed && new_commit_id@ == branch_commit_id@
                        && ignore_whitespace && ignore_filemode,
                    None => r matches Ok(Request::WalkTree { commit_id }) && commit_id@
                        == branch_commit_id@,
                },
            },
    {
        match self.git_repo() {
            Ok(()) => {},
            Err(e) => {
                return Err(e);
            },
        }
        let found = match db.find_branch(self.id.as_str(), branch) {
            Ok(found) => found,
            Err(e) => {
                return Err(e);
            },
        };
        let repo_branch = match found {
            Some(repo_branch) => repo_branch,
            None => {
                return Err(RepoError::BranchNotFound);
            },
        };
        match &repo_branch.indexed_commit_id {
            Some(indexed) => self.treediff(indexed.as_str(), branch_commit_id),
            None => Ok(Request::WalkTree { commit_id: branch_commit_id.to_owned() }),
        }
    }

    /// Records every file of the tree of `commit_id` as changed in that
    /// commit on `branch`. `entries` is the recursive listing of the tree;
    /// only its files count. Nothing is recorded before the clone is open.
    pub fn treewalk(&self, db: &mut Db, branch: &str, commit_id: &str, entries: &Vec<RepoTreeEntry>)
        -> (r: RepoResult<()>)
        requires
            old(db).wf(),
        ensures
            self.opened ==> writes_outcome(
                *old(db),
                *final(db),
                r,
                tree_writes(self@.id, branch@, commit_id@, views(entries@)),
            ),
            !self.opened ==> (r matches Err(RepoError::InvalidState(_)) && *final(db) == *old(db)),
    {
        match self.git_repo() {
            Ok(()) => {},
            Err(e) => {
                return Err(e);
            },
        }
        let ghost rows = views(entries@);
        let ghost image = entry_write(self@.id, branch@, commit_id@);
        let mut writes: Vec<DbWrite> = Vec::new();
        let mut i: usize = 0;
        proof {
            lemma_filter_map_none(rows, is_blob_entry(), image);
            assert(views(writes@) =~= Seq::empty());
        }
        while i < entries.len()
            invariant
                i <= entries.len(),
                rows == views(entries@),
                image == entry_write(self@.id, branch@, commit_id@),
                views(writes@) == rows.take(i as int).filter(is_blob_entry()).map_values(image),
            decreases entries.len() - i,
        {
            proof {
                lemma_filter_map_step(rows, is_blob_entry(), image, i as int);
            }
            if entries[i].is_blob() {
                let ghost before = views(writes@);
                let write = DbWrite::UpsertFile {
                    repo_id: self.id.clone(),
                    branch: branch.to_owned(),
                    path: entries[i].path.clone(),
                    changed_commit_id: commit_id.to_owned(),
                };
                writes.push(write);
                assert(views(writes@) =~= before.push(image(rows[i as int])));
            }
            i += 1;
        }
        assert(rows.take(i as int) == rows);
        db.apply_all(&writes)
    }

    /// A walk over a tree, started from the listing of its root.
    pub fn tree_iter(&self, tree: &Vec<TreeEntry>) -> (r: RecursiveTreeIter)
        ensures
            r@ == entries_in(views(tree@), Seq::empty()),
    {
        let mut initial: Vec<RepoTreeEntry> = Vec::new();
        let root = RepoPath::new();
        assert(views(initial@) =~= Seq::empty());
        push_entries(&mut initial, tree, &root);
        assert(Seq::<RepoTreeEntryView>::empty() + entries_in(views(tree@), Seq::empty())
            =~= entries_in(views(tree@), Seq::empty()));
        RecursiveTreeIter { entries: initial }
    }
}

} // verus!
