//! What a run guarantees: of the catalog its planners leave behind, of the
//! watermark of a branch, and of what is sent to the search service. All of
//! it is stated over the models and proved.

use vstd::prelude::*;
use crate::catalog::{
    branch_is, branch_marked, commit_id, commit_is, commit_is_pending, commit_marked, file_is,
    file_is_pending, file_marked,
    lemma_accepted_keeps_wf, lemma_apply_keeps_wf, lemma_find_first, views, Catalog, DbWriteView,
};
use crate::git::{
    Blob, Delta, DeltaView, GitCommit, GitTime, ObjectType, RevwalkView, TreeEntryView,
};
use crate::digest::file_id_of;
use crate::index::{
    blob_text, branch_files_not_indexed, branch_is_clean, commit_date, commit_doc, delta_write,
    diff_writes, file_doc, has_content, has_removal, on_branch, removed_paths,
};
use crate::models::repo_branch::RepoBranchView;
use crate::models::repo_commit::{CommitState, RepoCommitView};
use crate::models::repo_file::RepoFileView;
use crate::models::repository::{Repository, Timespec};
use crate::models::types::texts;
use crate::result::{ErrorKind, RepoError};
use crate::repo::{
    commit_write, commit_writes, creation_writes, entries_in, entry_write, is_blob_entry,
    names_of,
    sync_writes, tree_writes, walk_scope, RepoTreeEntry, RepoTreeEntryView, RepoView, SyncState,
};
use crate::session::{
    closed_branch, file_marked_in, index_branch, next_commit, next_file, next_removal,
    on_commit_put, plan_branch, probed_state, sync_repo, transition, Command, Event, PhaseView,
    RequestView, SessionView,
};

verus! {

// ---------------------------------------------------------------------------
// Files
// ---------------------------------------------------------------------------
/// The row of a file that was recorded as changed in `commit` and has not
/// been indexed since.
pub open spec fn changed_row(
    repo_id: Seq<char>,
    branch: Seq<char>,
    path: Seq<u8>,
    commit: Seq<char>,
) -> RepoFileView {
    RepoFileView { repo_id, branch, path, changed_commit_id: commit, indexed_commit_id: None }
}

/// Recording a file as changed leaves its row in the catalog, with the very
/// bytes of the path, the commit, and nothing indexed; the rows of other
/// files and the other tables stay as they are.
pub proof fn lemma_upsert_file(
    catalog: Catalog,
    repo_id: Seq<char>,
    branch: Seq<char>,
    path: Seq<u8>,
    commit: Seq<char>,
)
    requires
        catalog.wf(),
        catalog.version >= 4,
    ensures
        catalog.upsert_file(repo_id, branch, path, commit) is Some,
        ({
            let after = catalog.upsert_file(repo_id, branch, path, commit)->0;
            &&& after.files.contains(changed_row(repo_id, branch, path, commit))
            &&& forall|other: RepoFileView|
                catalog.files.contains(other) && !file_is(repo_id, branch, path)(other)
                    ==> #[trigger] after.files.contains(other)
            &&& after.version == catalog.version
            &&& after.repositories == catalog.repositories
            &&& after.branches == catalog.branches
            &&& after.commits == catalog.commits
        }),
{
    let after = catalog.upsert_file(repo_id, branch, path, commit)->0;
    let row = changed_row(repo_id, branch, path, commit);
    lemma_find_first(catalog.files, file_is(repo_id, branch, path));
    if catalog.find_file(repo_id, branch, path) is None {
        assert(after.files[catalog.files.len() as int] == row);
        assert forall|other: RepoFileView| catalog.files.contains(other) implies #[trigger] after.files.contains(
            other,
        ) by {
            let i = choose|i: int| 0 <= i < catalog.files.len() && catalog.files[i] == other;
            assert(after.files[i] == other);
        }
    } else {
        let found = catalog.find_file(repo_id, branch, path)->0;
        let i = choose|i: int| 0 <= i < catalog.files.len() && catalog.files[i] == found;
        assert(after.files[i] == row);
        assert forall|other: RepoFileView|
            catalog.files.contains(other) && !file_is(repo_id, branch, path)(
                other,
            ) implies #[trigger] after.files.contains(other) by {
            let k = choose|k: int| 0 <= k < catalog.files.len() && catalog.files[k] == other;
            assert(after.files[k] == other);
        }
    }
}

/// A path keeps its bytes on its way through the catalog: the file that
/// was recorded under a path is listed, among the files to be indexed,
/// under exactly that path, whatever the bytes are.
pub proof fn lemma_path_survives_catalog(
    catalog: Catalog,
    repo_id: Seq<char>,
    branch: Seq<char>,
    path: Seq<u8>,
    commit: Seq<char>,
)
    requires
        catalog.wf(),
        catalog.version >= 4,
    ensures
        catalog.upsert_file(repo_id, branch, path, commit) is Some,
        catalog.upsert_file(repo_id, branch, path, commit)->0.files_not_indexed(repo_id).contains(
            changed_row(repo_id, branch, path, commit),
        ),
        catalog.upsert_file(repo_id, branch, path, commit)->0.find_file(repo_id, branch, path)
            matches Some(row) && row.path == path,
{
    lemma_upsert_file(catalog, repo_id, branch, path, commit);
    let after = catalog.upsert_file(repo_id, branch, path, commit)->0;
    let row = changed_row(repo_id, branch, path, commit);
    let i = choose|i: int| 0 <= i < after.files.len() && after.files[i] == row;
    after.files.lemma_filter_contains(file_is_pending(repo_id), i);
    lemma_find_first(after.files, file_is(repo_id, branch, path));
    assert(file_is(repo_id, branch, path)(after.files[i]));
}

/// Every write records a file of one branch as changed in one commit.
pub open spec fn all_record_changes(
    writes: Seq<DbWriteView>,
    repo_id: Seq<char>,
    branch: Seq<char>,
    commit: Seq<char>,
) -> bool {
    forall|k: int|
        0 <= k < writes.len() ==> (#[trigger] writes[k] matches DbWriteView::UpsertFile {
            repo_id: r,
            branch: b,
            path: _,
            changed_commit_id: c,
        } && r == repo_id && b == branch && c == commit)
}

/// The path that a write records as changed.
pub open spec fn recorded_path(write: DbWriteView) -> Seq<u8> {
    match write {
        DbWriteView::UpsertFile { path, .. } => path,
        _ => Seq::empty(),
    }
}

/// Writes that record files of one branch as changed in one commit are all
/// accepted, and afterwards the catalog has, for each of them, the row of
/// the file as changed in that commit and not indexed. Nothing but the files
/// table changes.
pub proof fn lemma_changes_recorded(
    catalog: Catalog,
    writes: Seq<DbWriteView>,
    repo_id: Seq<char>,
    branch: Seq<char>,
    commit: Seq<char>,
)
    requires
        catalog.wf(),
        catalog.version >= 4,
        all_record_changes(writes, repo_id, branch, commit),
    ensures
        catalog.accepted(writes).1 == writes.len(),
        ({
            let after = catalog.accepted(writes).0;
            &&& after.wf()
            &&& after.version == catalog.version
            &&& after.repositories == catalog.repositories
            &&& after.branches == catalog.branches
            &&& after.commits == catalog.commits
            &&& forall|k: int|
                0 <= k < writes.len() ==> after.files.contains(
                    changed_row(repo_id, branch, recorded_path(#[trigger] writes[k]), commit),
                )
        }),
    decreases writes.len(),
{
    if writes.len() > 0 {
        let front = writes.drop_last();
        assert forall|k: int| 0 <= k < front.len() implies (#[trigger] front[k]
            matches DbWriteView::UpsertFile { repo_id: r, branch: b, path: _, changed_commit_id: c }
            && r == repo_id && b == branch && c == commit) by {
            assert(front[k] == writes[k]);
        }
        lemma_changes_recorded(catalog, front, repo_id, branch, commit);
        let mid = catalog.accepted(front).0;
        let last = writes.last();
        let path = recorded_path(last);
        assert(last == writes[writes.len() - 1]);
        lemma_upsert_file(mid, repo_id, branch, path, commit);
        let after = catalog.accepted(writes).0;
        assert(after == mid.upsert_file(repo_id, branch, path, commit)->0);
        lemma_apply_keeps_wf(mid, last);
        assert forall|k: int| 0 <= k < writes.len() implies after.files.contains(
            changed_row(repo_id, branch, recorded_path(#[trigger] writes[k]), commit),
        ) by {
            if k < front.len() {
                assert(front[k] == writes[k]);
                let row = changed_row(repo_id, branch, recorded_path(writes[k]), commit);
                assert(mid.files.contains(row));
                if recorded_path(writes[k]) != path {
                    assert(!file_is(repo_id, branch, path)(row));
                }
            }
        }
    }
}

/// The files of a tree, as a map from each path to the id of its blob.
pub type TreeFiles = Map<Seq<u8>, Seq<char>>;

/// The content at `path` differs between the two trees, or the path is new
/// in the second.
pub open spec fn changed_between(old_tree: TreeFiles, new_tree: TreeFiles, path: Seq<u8>) -> bool {
    new_tree.contains_key(path) && (!old_tree.contains_key(path) || old_tree[path]
        != new_tree[path])
}

/// The diff tells of every path whose content differs between the two
/// trees: what a backend's tree diff is relied on for.
pub open spec fn diff_covers(old_tree: TreeFiles, new_tree: TreeFiles, deltas: Seq<DeltaView>)
    -> bool {
    forall|path: Seq<u8>| #[trigger]
        changed_between(old_tree, new_tree, path) ==> exists|k: int|
            0 <= k < deltas.len() && (#[trigger] deltas[k]).content_path() == Some(path)
}

/// The listing tells of every file of the tree: what a backend's tree walk
/// is relied on for.
pub open spec fn listing_covers(tree: TreeFiles, entries: Seq<RepoTreeEntryView>) -> bool {
    forall|path: Seq<u8>| #[trigger]
        tree.contains_key(path) ==> exists|k: int|
            0 <= k < entries.len() && (#[trigger] entries[k]).path == path && entries[k].entry.kind
                == Some(ObjectType::Blob)
}

/// After the diff between the indexed commit of a branch and its tip has
/// been recorded, every path whose content differs between the two trees
/// is among the files to be indexed, as changed at the tip.
pub proof fn lemma_diff_is_recorded(
    catalog: Catalog,
    repo_id: Seq<char>,
    branch: Seq<char>,
    tip: Seq<char>,
    old_tree: TreeFiles,
    new_tree: TreeFiles,
    deltas: Seq<DeltaView>,
    path: Seq<u8>,
)
    requires
        catalog.wf(),
        catalog.version >= 4,
        diff_covers(old_tree, new_tree, deltas),
        changed_between(old_tree, new_tree, path),
    ensures
        catalog.accepted(diff_writes(repo_id, branch, tip, deltas)).1 == diff_writes(
            repo_id,
            branch,
            tip,
            deltas,
        ).len(),
        catalog.accepted(diff_writes(repo_id, branch, tip, deltas)).0.files_not_indexed(
            repo_id,
        ).contains(changed_row(repo_id, branch, path, tip)),
{
    let writes = diff_writes(repo_id, branch, tip, deltas);
    let kept = deltas.filter(has_content());
    assert forall|k: int| 0 <= k < writes.len() implies (#[trigger] writes[k]
        matches DbWriteView::UpsertFile { repo_id: r, branch: b, path: _, changed_commit_id: c }
        && r == repo_id && b == branch && c == tip) by {
        assert(writes[k] == delta_write(repo_id, branch, tip)(kept[k]));
    }
    lemma_changes_recorded(catalog, writes, repo_id, branch, tip);
    let after = catalog.accepted(writes).0;
    let d = choose|d: int| 0 <= d < deltas.len() && (#[trigger] deltas[d]).content_path() == Some(path);
    deltas.lemma_filter_contains(has_content(), d);
    let m = choose|m: int| 0 <= m < kept.len() && kept[m] == deltas[d];
    assert(writes[m] == delta_write(repo_id, branch, tip)(kept[m]));
    assert(recorded_path(writes[m]) == path);
    let row = changed_row(repo_id, branch, path, tip);
    assert(after.files.contains(row));
    let i = choose|i: int| 0 <= i < after.files.len() && after.files[i] == row;
    after.files.lemma_filter_contains(file_is_pending(repo_id), i);
}

/// After the tree at the tip of a branch that was never indexed has been
/// recorded, every file of the tree is among the files to be indexed, as
/// changed at the tip.
pub proof fn lemma_tree_is_recorded(
    catalog: Catalog,
    repo_id: Seq<char>,
    branch: Seq<char>,
    tip: Seq<char>,
    tree: TreeFiles,
    entries: Seq<RepoTreeEntryView>,
    path: Seq<u8>,
)
    requires
        catalog.wf(),
        catalog.version >= 4,
        listing_covers(tree, entries),
        tree.contains_key(path),
    ensures
        catalog.accepted(tree_writes(repo_id, branch, tip, entries)).1 == tree_writes(
            repo_id,
            branch,
            tip,
            entries,
        ).len(),
        catalog.accepted(tree_writes(repo_id, branch, tip, entries)).0.files_not_indexed(
            repo_id,
        ).contains(changed_row(repo_id, branch, path, tip)),
{
    let writes = tree_writes(repo_id, branch, tip, entries);
    let kept = entries.filter(is_blob_entry());
    assert forall|k: int| 0 <= k < writes.len() implies (#[trigger] writes[k]
        matches DbWriteView::UpsertFile { repo_id: r, branch: b, path: _, changed_commit_id: c }
        && r == repo_id && b == branch && c == tip) by {
        assert(writes[k] == entry_write(repo_id, branch, tip)(kept[k]));
    }
    lemma_changes_recorded(catalog, writes, repo_id, branch, tip);
    let after = catalog.accepted(writes).0;
    let e = choose|e: int|
        0 <= e < entries.len() && (#[trigger] entries[e]).path == path && entries[e].entry.kind
            == Some(ObjectType::Blob);
    entries.lemma_filter_contains(is_blob_entry(), e);
    let m = choose|m: int| 0 <= m < kept.len() && kept[m] == entries[e];
    assert(writes[m] == entry_write(repo_id, branch, tip)(kept[m]));
    assert(recorded_path(writes[m]) == path);
    let row = changed_row(repo_id, branch, path, tip);
    assert(after.files.contains(row));
    let i = choose|i: int| 0 <= i < after.files.len() && after.files[i] == row;
    after.files.lemma_filter_contains(file_is_pending(repo_id), i);
}

// ---------------------------------------------------------------------------
// Commits
// ---------------------------------------------------------------------------

/// The history of a repository: the parents of each commit.
pub type History = Map<Seq<char>, Seq<Seq<char>>>;

/// `to` is reached from `from` by following parents for at most `steps`
/// steps.
pub open spec fn reaches_within(history: History, from: Seq<char>, to: Seq<char>, steps: nat)
    -> bool
    decreases steps,
{
    from == to || (steps > 0 && history.contains_key(from) && exists|k: int|
        0 <= k < history[from].len() && reaches_within(
            history,
            #[trigger] history[from][k],
            to,
            (steps - 1) as nat,
        ))
}

/// `to` is `from` or one of its ancestors.
pub open spec fn reaches(history: History, from: Seq<char>, to: Seq<char>) -> bool {
    exists|steps: nat| reaches_within(history, from, to, steps)
}

/// What a revision walk produces: the commits reached from a commit the
/// walk starts at but from none it stops short of. A backend's revision
/// walk is relied on for exactly this.
pub open spec fn walked(history: History, walk: RevwalkView, commit: Seq<char>) -> bool {
    &&& exists|k: int| 0 <= k < walk.pushed.len() && reaches(history, #[trigger] walk.pushed[k], commit)
    &&& !exists|k: int| 0 <= k < walk.hidden.len() && reaches(history, #[trigger] walk.hidden[k], commit)
}

/// A commit is reached from one of the given commits.
pub open spec fn reached_from_any(history: History, starts: Seq<Seq<char>>, commit: Seq<char>)
    -> bool {
    exists|k: int| 0 <= k < starts.len() && reaches(history, #[trigger] starts[k], commit)
}

/// The walk planned for a branch whose tip and indexed commit have the
/// merge bases `bases` produces exactly the commits reached from the tip
/// but from none of the bases.
pub proof fn lemma_walk_stops_at_merge_bases(
    history: History,
    tip: Seq<char>,
    indexed: Seq<char>,
    bases: Seq<Seq<char>>,
    commit: Seq<char>,
)
    ensures
        walked(history, walk_scope(tip, Some(indexed), bases), commit) <==> reaches(
            history,
            tip,
            commit,
        ) && !reached_from_any(history, bases, commit),
{
    let walk = walk_scope(tip, Some(indexed), bases);
    assert(walk.pushed[0] == tip);
    assert(walk.hidden == bases);
}

/// The walk planned for a branch that was never indexed produces every
/// commit reached from the tip.
pub proof fn lemma_first_walk_is_whole(history: History, tip: Seq<char>, commit: Seq<char>)
    ensures
        walked(history, walk_scope(tip, None, Seq::empty()), commit) <==> reaches(
            history,
            tip,
            commit,
        ),
{
    let walk = walk_scope(tip, None, Seq::empty());
    assert(walk.pushed[0] == tip);
}

/// Recording a discovered commit adds it where the catalog does not have
/// it and changes nothing where it has: no row that is there changes, so a
/// commit that is indexed stays indexed.
pub proof fn lemma_create_commit(catalog: Catalog, repo_id: Seq<char>, id: Seq<char>)
    requires
        catalog.wf(),
        catalog.version >= 3,
    ensures
        catalog.create_commit_unless_exists(id, repo_id) is Some,
        ({
            let after = catalog.create_commit_unless_exists(id, repo_id)->0;
            &&& after.find_commit(repo_id, id) is Some
            &&& forall|row: RepoCommitView|
                catalog.commits.contains(row) ==> #[trigger] after.commits.contains(row)
            &&& forall|other: Seq<char>|
                other != id ==> (#[trigger] after.find_commit(repo_id, other) is Some
                    <==> catalog.find_commit(repo_id, other) is Some)
            &&& after.version == catalog.version
            &&& after.repositories == catalog.repositories
            &&& after.branches == catalog.branches
            &&& after.files == catalog.files
        }),
{
    let after = catalog.create_commit_unless_exists(id, repo_id)->0;
    lemma_find_first(catalog.commits, commit_is(repo_id, id));
    lemma_find_first(after.commits, commit_is(repo_id, id));
    if catalog.find_commit(repo_id, id) is None {
        let n = catalog.commits.len() as int;
        assert(commit_is(repo_id, id)(after.commits[n]));
        assert forall|row: RepoCommitView| catalog.commits.contains(row) implies #[trigger] after.commits.contains(
            row,
        ) by {
            let i = choose|i: int| 0 <= i < catalog.commits.len() && catalog.commits[i] == row;
            assert(after.commits[i] == row);
        }
        assert forall|other: Seq<char>| other != id implies (#[trigger] after.find_commit(
            repo_id,
            other,
        ) is Some <==> catalog.find_commit(repo_id, other) is Some) by {
            lemma_find_first(catalog.commits, commit_is(repo_id, other));
            lemma_find_first(after.commits, commit_is(repo_id, other));
            if catalog.find_commit(repo_id, other) is Some {
                let row = catalog.find_commit(repo_id, other)->0;
                let i = choose|i: int| 0 <= i < catalog.commits.len() && catalog.commits[i] == row;
                assert(commit_is(repo_id, other)(after.commits[i]));
            }
            if after.find_commit(repo_id, other) is Some {
                let row = after.find_commit(repo_id, other)->0;
                let i = choose|i: int| 0 <= i < after.commits.len() && after.commits[i] == row;
                assert(i < n);
                assert(commit_is(repo_id, other)(catalog.commits[i]));
            }
        }
    }
}

/// After the commits of a walk have been recorded, the catalog has exactly
/// the commits it had and those of the walk. Rows that were there are as
/// they were, and nothing but the commits table changes.
pub proof fn lemma_commits_recorded(catalog: Catalog, repo_id: Seq<char>, ids: Seq<Seq<char>>)
    requires
        catalog.wf(),
        catalog.version >= 3,
    ensures
        catalog.accepted(commit_writes(repo_id, ids)).1 == ids.len(),
        ({
            let after = catalog.accepted(commit_writes(repo_id, ids)).0;
            &&& after.wf()
            &&& forall|id: Seq<char>|
                #[trigger] after.find_commit(repo_id, id) is Some <==> catalog.find_commit(
                    repo_id,
                    id,
                ) is Some || ids.contains(id)
            &&& forall|row: RepoCommitView|
                catalog.commits.contains(row) ==> #[trigger] after.commits.contains(row)
            &&& after.version == catalog.version
            &&& after.repositories == catalog.repositories
            &&& after.branches == catalog.branches
            &&& after.files == catalog.files
        }),
    decreases ids.len(),
{
    let writes = commit_writes(repo_id, ids);
    if ids.len() > 0 {
        let front = ids.drop_last();
        assert(writes.drop_last() =~= commit_writes(repo_id, front));
        assert(writes.last() == commit_write(repo_id)(ids.last()));
        lemma_commits_recorded(catalog, repo_id, front);
        let mid = catalog.accepted(commit_writes(repo_id, front)).0;
        lemma_create_commit(mid, repo_id, ids.last());
        let after = catalog.accepted(writes).0;
        assert(after == mid.create_commit_unless_exists(ids.last(), repo_id)->0);
        lemma_apply_keeps_wf(mid, writes.last());
        assert forall|id: Seq<char>| #[trigger]
            after.find_commit(repo_id, id) is Some <==> catalog.find_commit(repo_id, id) is Some
                || ids.contains(id) by {
            if id == ids.last() {
                assert(ids[ids.len() - 1] == id);
            } else {
                assert(after.find_commit(repo_id, id) is Some <==> mid.find_commit(repo_id, id)
                    is Some);
                if front.contains(id) {
                    let k = choose|k: int| 0 <= k < front.len() && front[k] == id;
                    assert(ids[k] == id);
                }
                if ids.contains(id) {
                    let k = choose|k: int| 0 <= k < ids.len() && ids[k] == id;
                    assert(front[k] == id);
                }
            }
        }
    } else {
        assert(writes.len() == 0);
    }
}

/// Where the tip of a branch and its indexed commit have the merge bases
/// `bases`, and the backend hands back what the planned walk produces, the
/// commits that the catalog gains are exactly those reached from the tip
/// but from none of the bases. With one merge base: those reached from the
/// tip but not from the base.
pub proof fn lemma_divergence_is_safe(
    catalog: Catalog,
    repo_id: Seq<char>,
    history: History,
    tip: Seq<char>,
    indexed: Seq<char>,
    bases: Seq<Seq<char>>,
    ids: Seq<Seq<char>>,
    commit: Seq<char>,
)
    requires
        catalog.wf(),
        catalog.version >= 3,
        forall|id: Seq<char>|
            #[trigger] ids.contains(id) <==> walked(
                history,
                walk_scope(tip, Some(indexed), bases),
                id,
            ),
    ensures
        catalog.accepted(commit_writes(repo_id, ids)).1 == ids.len(),
        catalog.accepted(commit_writes(repo_id, ids)).0.find_commit(repo_id, commit) is Some
            <==> catalog.find_commit(repo_id, commit) is Some || (reaches(history, tip, commit)
            && !reached_from_any(history, bases, commit)),
        bases.len() == 1 ==> (reached_from_any(history, bases, commit) <==> reaches(
            history,
            bases[0],
            commit,
        )),
{
    lemma_commits_recorded(catalog, repo_id, ids);
    lemma_walk_stops_at_merge_bases(history, tip, indexed, bases, commit);
    assert(ids.contains(commit) <==> walked(
        history,
        walk_scope(tip, Some(indexed), bases),
        commit,
    ));
}

// ---------------------------------------------------------------------------
// Which writes touch which table
// ---------------------------------------------------------------------------

pub open spec fn touches_branches(write: DbWriteView) -> bool {
    write is InsertBranch || write is MarkBranchIndexed || write is Down
}

pub open spec fn touches_commits(write: DbWriteView) -> bool {
    write is CreateCommit || write is MarkCommitIndexed || write is ClearCommits || write is Down
}

pub open spec fn touches_files(write: DbWriteView) -> bool {
    write is UpsertFile || write is MarkFileIndexed || write is Down
}

/// A table stays as it is under writes that do not touch it.
pub proof fn lemma_untouched_tables(catalog: Catalog, writes: Seq<DbWriteView>)
    ensures
        (forall|k: int| 0 <= k < writes.len() ==> !touches_branches(#[trigger] writes[k]))
            ==> catalog.accepted(writes).0.branches == catalog.branches,
        (forall|k: int| 0 <= k < writes.len() ==> !touches_commits(#[trigger] writes[k]))
            ==> catalog.accepted(writes).0.commits == catalog.commits,
        (forall|k: int| 0 <= k < writes.len() ==> !touches_files(#[trigger] writes[k]))
            ==> catalog.accepted(writes).0.files == catalog.files,
    decreases writes.len(),
{
    if writes.len() > 0 {
        let front = writes.drop_last();
        lemma_untouched_tables(catalog, front);
        assert(writes.last() == writes[writes.len() - 1]);
        assert forall|k: int| 0 <= k < front.len() implies front[k] == writes[k] by {}
        if forall|k: int| 0 <= k < writes.len() ==> !touches_branches(#[trigger] writes[k]) {
            assert forall|k: int| 0 <= k < front.len() implies !touches_branches(
                #[trigger] front[k],
            ) by {
                assert(front[k] == writes[k]);
            }
        }
        if forall|k: int| 0 <= k < writes.len() ==> !touches_commits(#[trigger] writes[k]) {
            assert forall|k: int| 0 <= k < front.len() implies !touches_commits(
                #[trigger] front[k],
            ) by {
                assert(front[k] == writes[k]);
            }
        }
        if forall|k: int| 0 <= k < writes.len() ==> !touches_files(#[trigger] writes[k]) {
            assert forall|k: int| 0 <= k < front.len() implies !touches_files(
                #[trigger] front[k],
            ) by {
                assert(front[k] == writes[k]);
            }
        }
    }
}

/// Every branch row is one that was there before, or has no indexed
/// commit.
pub open spec fn no_new_watermark(before: Catalog, after: Catalog) -> bool {
    forall|row: RepoBranchView| #[trigger]
        after.branches.contains(row) ==> before.branches.contains(row) || row.indexed_commit_id
            is None
}

/// Writes that enter branches without an indexed commit, and otherwise
/// leave the branches alone, bring no indexed commit into the catalog.
pub proof fn lemma_no_new_watermark(catalog: Catalog, writes: Seq<DbWriteView>)
    requires
        forall|k: int|
            0 <= k < writes.len() ==> (match #[trigger] writes[k] {
                DbWriteView::InsertBranch(row) => row.indexed_commit_id is None,
                other => !touches_branches(other),
            }),
    ensures
        no_new_watermark(catalog, catalog.accepted(writes).0),
    decreases writes.len(),
{
    if writes.len() > 0 {
        let front = writes.drop_last();
        assert forall|k: int| 0 <= k < front.len() implies (match #[trigger] front[k] {
            DbWriteView::InsertBranch(row) => row.indexed_commit_id is None,
            other => !touches_branches(other),
        }) by {
            assert(front[k] == writes[k]);
        }
        lemma_no_new_watermark(catalog, front);
        let mid = catalog.accepted(front).0;
        let after = catalog.accepted(writes).0;
        let last = writes.last();
        assert(last == writes[writes.len() - 1]);
        assert forall|row: RepoBranchView| #[trigger] after.branches.contains(row) implies catalog.branches.contains(
            row,
        ) || row.indexed_commit_id is None by {
            let (_, count) = catalog.accepted(front);
            if count == writes.len() - 1 && mid.apply(last) is Some {
                assert(after == mid.apply(last)->0);
                match last {
                    DbWriteView::InsertBranch(entered) => {
                        assert(after.branches == mid.branches.push(entered));
                        let i = choose|i: int|
                            0 <= i < after.branches.len() && after.branches[i] == row;
                        if i < mid.branches.len() {
                            assert(mid.branches[i] == row);
                            assert(mid.branches.contains(row));
                        } else {
                            assert(row == entered);
                        }
                    },
                    _ => {
                        assert(!touches_branches(last));
                        assert(after.branches == mid.branches);
                    },
                }
            } else {
                assert(after == mid);
            }
        }
    }
}

// ---------------------------------------------------------------------------
// Runs
// ---------------------------------------------------------------------------

/// Nothing is left to ship: no commit of the repository and no file of any
/// of its branches.
pub open spec fn quiet(catalog: Catalog, repo: RepoView) -> bool {
    &&& catalog.commits_not_indexed(repo.id).len() == 0
    &&& forall|b: int|
        0 <= b < repo.branches.len() ==> (#[trigger] branch_files_not_indexed(
            catalog,
            repo.id,
            repo.branches[b].name,
        )).len() == 0
}

/// The request asks the search service to write.
pub open spec fn asks_sink(request: RequestView) -> bool {
    request is PutCommit || request is PutFile || request is DeleteFile
}

/// A run that has nothing to ship and is not shipping.
pub open spec fn settled(s: SessionView) -> bool {
    &&& s.catalog.wf()
    &&& quiet(s.catalog, s.repo)
    &&& s.removals.len() == 0
    &&& !(s.phase is LoadingCommit || s.phase is PuttingCommit || s.phase is Deleting
        || s.phase is LoadingBlob || s.phase is PuttingFile)
}

/// The event reports nothing new from the remote: a walk that finds no
/// commit, a tree without entries, a diff without deltas.
pub open spec fn nothing_new(s: SessionView, event: Event) -> bool {
    match event {
        Event::Oids(ids) => s.phase is Walking ==> ids.len() == 0,
        Event::Tree(entries) => entries.len() == 0,
        Event::Deltas(deltas) => deltas.len() == 0,
        _ => true,
    }
}

/// Whether anything is left to ship depends on the commits and the files
/// alone, and on which repository and which branches are asked about.
pub proof fn lemma_quiet_carries(before: Catalog, repo: RepoView, after: Catalog, same: RepoView)
    requires
        quiet(before, repo),
        after.commits == before.commits,
        after.files == before.files,
        same.id == repo.id,
        same.branches == repo.branches,
    ensures
        quiet(after, same),
{
    assert forall|b: int| 0 <= b < same.branches.len() implies (#[trigger] branch_files_not_indexed(
        after,
        same.id,
        same.branches[b].name,
    )).len() == 0 by {
        assert(branch_files_not_indexed(before, repo.id, repo.branches[b].name).len() == 0);
    }
}

/// The writes that bring the record of the repository in line with the
/// clone touch neither commits nor files, and bring no indexed commit into
/// the catalog.
pub proof fn lemma_sync_keeps_queues(repo: RepoView, catalog: Catalog, added: Timespec)
    requires
        catalog.wf(),
    ensures
        ({
            let after = catalog.accepted(sync_writes(repo, catalog, added)).0;
            &&& after.wf()
            &&& after.commits == catalog.commits
            &&& after.files == catalog.files
            &&& no_new_watermark(catalog, after)
        }),
{
    let writes = sync_writes(repo, catalog, added);
    assert forall|k: int| 0 <= k < writes.len() implies (match #[trigger] writes[k] {
        DbWriteView::InsertBranch(row) => row.indexed_commit_id is None,
        other => !touches_branches(other) && !touches_commits(other) && !touches_files(other),
    }) by {
        if catalog.find_repo_by_remote(repo.uri) is None {
            let row = Repository::fresh(repo.id, repo.uri, repo.path, added);
            let created = creation_writes(row, names_of(repo.branches));
            if k == 0 {
                assert(writes[k] == DbWriteView::InsertRepo(row));
            } else if k < created.len() {
                assert(writes[k] == created[k]);
                assert(created[k] is InsertBranch);
            } else {
                assert(writes[k] is UpdateRepo);
            }
        } else {
            assert(writes[k] is UpdateRepo);
        }
    }
    assert forall|k: int| 0 <= k < writes.len() implies !touches_commits(#[trigger] writes[k])
        && !touches_files(writes[k]) by {
        let w = writes[k];
        assert(match w {
            DbWriteView::InsertBranch(row) => row.indexed_commit_id is None,
            other => !touches_branches(other) && !touches_commits(other) && !touches_files(other),
        });
    }
    lemma_untouched_tables(catalog, writes);
    lemma_no_new_watermark(catalog, writes);
    lemma_accepted_keeps_wf(catalog, writes);
}

/// Indexing the branches of a run that has nothing to ship sends nothing
/// and ends the run.
pub proof fn lemma_index_branch_is_silent(s: SessionView, i: int)
    requires
        s.catalog.wf(),
        quiet(s.catalog, s.repo),
        0 <= i,
    ensures
        ({
            let (post, request) = index_branch(s, i);
            &&& post.catalog.wf()
            &&& quiet(post.catalog, s.repo)
            &&& post.repo == s.repo
            &&& post.removals == s.removals
            &&& post.phase == PhaseView::Finished
            &&& !asks_sink(request)
        }),
    decreases s.repo.branches.len() - i,
{
    if i < s.repo.branches.len() && s.catalog.version >= 4 {
        let files = branch_files_not_indexed(s.catalog, s.repo.id, s.branch(i));
        assert(files.len() == 0);
        let mid = SessionView { files, ..s };
        assert(branch_is_clean(mid.catalog, s.repo.id, s.branch(i)));
        let marked = DbWriteView::MarkBranchIndexed {
            repo_id: s.repo.id,
            name: s.branch(i),
            commit_id: s.tips[i],
        };
        lemma_apply_keeps_wf(s.catalog, marked);
        let next = SessionView { catalog: closed_branch(mid, i), ..mid };
        assert(next.catalog.commits == s.catalog.commits);
        assert(next.catalog.files == s.catalog.files);
        lemma_quiet_carries(s.catalog, s.repo, next.catalog, next.repo);
        lemma_index_branch_is_silent(next, i + 1);
    }
}

/// Planning of the next branch, or the end of planning, in a run that has
/// nothing to ship: nothing is sent.
pub proof fn lemma_plan_branch_is_silent(s: SessionView, i: int, added: Timespec)
    requires
        settled(s),
        0 <= i,
    ensures
        settled(plan_branch(s, i, added).0),
        !asks_sink(plan_branch(s, i, added).1),
{
    if i >= s.repo.branches.len() {
        lemma_sync_keeps_queues(s.repo, s.catalog, added);
        match sync_repo(s, added) {
            Ok(mid) => {
                lemma_quiet_carries(s.catalog, s.repo, mid.catalog, mid.repo);
                if s.command == Command::Index && mid.catalog.version >= 3 {
                    let started = SessionView {
                        commits: mid.catalog.commits_not_indexed(mid.repo.id),
                        ..mid
                    };
                    assert(started.commits.len() == 0);
                    lemma_index_branch_is_silent(started, 0);
                }
            },
            Err(failed) => {
                lemma_quiet_carries(s.catalog, s.repo, failed.catalog, failed.repo);
            },
        }
    }
}

/// While the remote reports nothing new, a run that has nothing to ship
/// never asks the search service to write, and goes on having nothing to
/// ship. So a run that follows a completed run, with no change at the
/// remote in between, writes nothing to the search service.
pub proof fn lemma_unchanged_run_is_silent(s: SessionView, event: Event, added: Timespec)
    requires
        settled(s),
        nothing_new(s, event),
    ensures
        settled(transition(s, event, added).0),
        !asks_sink(transition(s, event, added).1),
{
    match event {
        Event::Failed(error) => {},
        Event::Exists(found) => {
            if s.phase == PhaseView::Probing {
                let probed = SessionView {
                    repo: RepoView { sync_state: probed_state(s.repo.sync_state, found), ..s.repo },
                    ..s
                };
                lemma_sync_keeps_queues(probed.repo, probed.catalog, added);
                match sync_repo(probed, added) {
                    Ok(mid) => {
                        lemma_quiet_carries(s.catalog, s.repo, mid.catalog, mid.repo);
                    },
                    Err(failed) => {
                        lemma_quiet_carries(s.catalog, s.repo, failed.catalog, failed.repo);
                    },
                }
            }
        },
        Event::Done => {
            match s.phase {
                PhaseView::Cloning => {
                    lemma_quiet_carries(
                        s.catalog,
                        s.repo,
                        s.catalog,
                        RepoView { sync_state: SyncState::Cloned, opened: true, ..s.repo },
                    );
                    lemma_plan_branch_is_silent(
                        SessionView {
                            repo: RepoView {
                                sync_state: SyncState::Cloned,
                                opened: true,
                                ..s.repo
                            },
                            ..s
                        },
                        0,
                        added,
                    );
                },
                PhaseView::Opening => {
                    lemma_quiet_carries(
                        s.catalog,
                        s.repo,
                        s.catalog,
                        RepoView { opened: true, ..s.repo },
                    );
                },
                PhaseView::Fetching => {
                    lemma_plan_branch_is_silent(s, 0, added);
                },
                PhaseView::Repointing { branch } => {
                    lemma_plan_branch_is_silent(s, 0, added);
                },
                _ => {},
            }
        },
        Event::Oid(tip) => {},
        Event::Oids(ids) => {
            match s.phase {
                PhaseView::Walking { branch } => {
                    let writes = commit_writes(s.repo.id, texts(ids@));
                    assert(writes.len() == 0);
                    lemma_plan_branch_is_silent(s, branch as int + 1, added);
                },
                _ => {},
            }
        },
        Event::Tree(entries) => {
            match s.phase {
                PhaseView::PlanningTree { branch } => {
                    let listed = views(entries@);
                    listed.lemma_filter_len(is_blob_entry());
                    let writes = tree_writes(s.repo.id, s.branch(branch as int), s.tips[branch as int], listed);
                    assert(writes.len() == 0);
                    lemma_plan_branch_is_silent(s, branch as int + 1, added);
                },
                _ => {},
            }
        },
        Event::Deltas(deltas) => {
            match s.phase {
                PhaseView::PlanningTree { branch } => {
                    let listed = views(deltas@);
                    listed.lemma_filter_len(has_content());
                    listed.lemma_filter_len(has_removal());
                    let writes = diff_writes(s.repo.id, s.branch(branch as int), s.tips[branch as int], listed);
                    assert(writes.len() == 0);
                    assert(removed_paths(listed).len() == 0);
                    assert(s.removals + removed_paths(listed) =~= s.removals);
                    lemma_plan_branch_is_silent(s, branch as int + 1, added);
                },
                _ => {},
            }
        },
        Event::Commit(commit) => {},
        Event::Blob { blob, changed } => {},
    }
}

// ---------------------------------------------------------------------------
// The watermark of a branch
// ---------------------------------------------------------------------------

/// Every indexed commit that a branch has after, but did not have before,
/// stands on a branch of the repository of which nothing is left to ship:
/// no commit of the repository and no file of the branch.
pub open spec fn watermarks_earned(before: Catalog, after: Catalog, repo_id: Seq<char>) -> bool {
    forall|row: RepoBranchView| #[trigger]
        after.branches.contains(row) ==> before.branches.contains(row) || row.indexed_commit_id
            is None || (row.repo_id == repo_id && branch_is_clean(after, repo_id, row.name))
}

/// Indexing the branches moves watermarks only where they are earned, and
/// leaves commits and files as they are.
pub proof fn lemma_index_branch_earns(s: SessionView, i: int)
    requires
        0 <= i,
    ensures
        ({
            let (post, request) = index_branch(s, i);
            &&& post.catalog.commits == s.catalog.commits
            &&& post.catalog.files == s.catalog.files
            &&& watermarks_earned(s.catalog, post.catalog, s.repo.id)
        }),
    decreases s.repo.branches.len() - i,
{
    let (post, request) = index_branch(s, i);
    if i < s.repo.branches.len() && s.catalog.version >= 4 {
        let files = branch_files_not_indexed(s.catalog, s.repo.id, s.branch(i));
        let mid = SessionView { files, ..s };
        if files.len() == 0 {
            let next = SessionView { catalog: closed_branch(mid, i), ..mid };
            lemma_index_branch_earns(next, i + 1);
            assert forall|row: RepoBranchView| #[trigger]
                post.catalog.branches.contains(row) implies s.catalog.branches.contains(row)
                || row.indexed_commit_id is None || (row.repo_id == s.repo.id && branch_is_clean(
                post.catalog,
                s.repo.id,
                row.name,
            )) by {
                if next.catalog.branches.contains(row) && next.catalog != s.catalog {
                    let k = choose|k: int|
                        0 <= k < next.catalog.branches.len() && next.catalog.branches[k] == row;
                    assert(row == branch_marked(s.repo.id, s.branch(i), s.tips[i])(
                        s.catalog.branches[k],
                    ));
                    if row != s.catalog.branches[k] {
                        assert(branch_is_clean(s.catalog, s.repo.id, s.branch(i)));
                        assert(row.name == s.branch(i));
                    }
                }
            }
        }
    }
}

/// A catalog that brings no indexed commit, followed by one in which the
/// watermarks are earned, makes one in which they are earned.
pub proof fn lemma_earned_after_none_new(
    before: Catalog,
    mid: Catalog,
    after: Catalog,
    repo_id: Seq<char>,
)
    requires
        no_new_watermark(before, mid),
        watermarks_earned(mid, after, repo_id),
    ensures
        watermarks_earned(before, after, repo_id),
{
}

proof fn lemma_next_removal_earns(s: SessionView, d: int)
    ensures
        watermarks_earned(s.catalog, next_removal(s, d).0.catalog, s.repo.id),
        next_removal(s, d).0.catalog.commits == s.catalog.commits,
        next_removal(s, d).0.catalog.files == s.catalog.files,
{
    if d >= s.removals.len() {
        lemma_index_branch_earns(s, 0);
    }
}

proof fn lemma_next_commit_earns(s: SessionView, j: int)
    ensures
        watermarks_earned(s.catalog, next_commit(s, j).0.catalog, s.repo.id),
        next_commit(s, j).0.catalog.commits == s.catalog.commits,
        next_commit(s, j).0.catalog.files == s.catalog.files,
{
    if j >= s.commits.len() {
        lemma_next_removal_earns(s, 0);
    }
}

proof fn lemma_next_file_earns(s: SessionView, i: int, k: int)
    requires
        0 <= i,
    ensures
        watermarks_earned(s.catalog, next_file(s, i, k).0.catalog, s.repo.id),
        next_file(s, i, k).0.catalog.commits == s.catalog.commits,
        next_file(s, i, k).0.catalog.files == s.catalog.files,
{
    let (post, request) = next_file(s, i, k);
    if k >= s.files.len() && s.catalog.version >= 4 {
        let next = SessionView { catalog: closed_branch(s, i), ..s };
        lemma_index_branch_earns(next, i + 1);
        assert forall|row: RepoBranchView| #[trigger]
            post.catalog.branches.contains(row) implies s.catalog.branches.contains(row)
            || row.indexed_commit_id is None || (row.repo_id == s.repo.id && branch_is_clean(
            post.catalog,
            s.repo.id,
            row.name,
        )) by {
            if next.catalog.branches.contains(row) && next.catalog != s.catalog {
                let m = choose|m: int|
                    0 <= m < next.catalog.branches.len() && next.catalog.branches[m] == row;
                assert(row == branch_marked(s.repo.id, s.branch(i), s.tips[i])(
                    s.catalog.branches[m],
                ));
                if row != s.catalog.branches[m] {
                    assert(branch_is_clean(s.catalog, s.repo.id, s.branch(i)));
                    assert(row.name == s.branch(i));
                }
            }
        }
    }
}

proof fn lemma_plan_branch_earns(s: SessionView, i: int, added: Timespec)
    requires
        s.catalog.wf(),
    ensures
        watermarks_earned(s.catalog, plan_branch(s, i, added).0.catalog, s.repo.id),
{
    if i >= s.repo.branches.len() {
        lemma_sync_keeps_queues(s.repo, s.catalog, added);
        match sync_repo(s, added) {
            Ok(mid) => {
                if s.command == Command::Index && mid.catalog.version >= 3 {
                    let started = SessionView {
                        commits: mid.catalog.commits_not_indexed(mid.repo.id),
                        ..mid
                    };
                    lemma_next_commit_earns(started, 0);
                    lemma_earned_after_none_new(
                        s.catalog,
                        mid.catalog,
                        plan_branch(s, i, added).0.catalog,
                        s.repo.id,
                    );
                }
            },
            Err(failed) => {},
        }
    }
}

/// The writes that record commits or changed files leave the branches
/// alone.
proof fn lemma_plans_leave_branches(
    catalog: Catalog,
    repo_id: Seq<char>,
    branch: Seq<char>,
    tip: Seq<char>,
    ids: Seq<Seq<char>>,
    entries: Seq<RepoTreeEntryView>,
    deltas: Seq<DeltaView>,
)
    requires
        catalog.wf(),
    ensures
        catalog.accepted(commit_writes(repo_id, ids)).0.branches == catalog.branches,
        catalog.accepted(tree_writes(repo_id, branch, tip, entries)).0.branches
            == catalog.branches,
        catalog.accepted(diff_writes(repo_id, branch, tip, deltas)).0.branches == catalog.branches,
        catalog.accepted(commit_writes(repo_id, ids)).0.wf(),
        catalog.accepted(tree_writes(repo_id, branch, tip, entries)).0.wf(),
        catalog.accepted(diff_writes(repo_id, branch, tip, deltas)).0.wf(),
{
    let commits = commit_writes(repo_id, ids);
    assert forall|k: int| 0 <= k < commits.len() implies !touches_branches(#[trigger] commits[k]) by {
        assert(commits[k] == commit_write(repo_id)(ids[k]));
    }
    lemma_untouched_tables(catalog, commits);
    lemma_accepted_keeps_wf(catalog, commits);
    let tree = tree_writes(repo_id, branch, tip, entries);
    assert forall|k: int| 0 <= k < tree.len() implies !touches_branches(#[trigger] tree[k]) by {
        assert(tree[k] == entry_write(repo_id, branch, tip)(entries.filter(is_blob_entry())[k]));
    }
    lemma_untouched_tables(catalog, tree);
    lemma_accepted_keeps_wf(catalog, tree);
    let diff = diff_writes(repo_id, branch, tip, deltas);
    assert forall|k: int| 0 <= k < diff.len() implies !touches_branches(#[trigger] diff[k]) by {
        assert(diff[k] == delta_write(repo_id, branch, tip)(deltas.filter(has_content())[k]));
    }
    lemma_untouched_tables(catalog, diff);
    lemma_accepted_keeps_wf(catalog, diff);
}

/// In every step of a run, a branch gets a new indexed commit only when
/// nothing of it is left to ship: no commit of the repository and no file
/// of the branch waits in the catalog that the step leaves behind.
pub proof fn lemma_watermark_is_earned(s: SessionView, event: Event, added: Timespec)
    requires
        s.catalog.wf(),
    ensures
        watermarks_earned(s.catalog, transition(s, event, added).0.catalog, s.repo.id),
{
    let post = transition(s, event, added).0;
    match event {
        Event::Failed(error) => {},
        Event::Exists(found) => {
            if s.phase == PhaseView::Probing {
                let probed = SessionView {
                    repo: RepoView { sync_state: probed_state(s.repo.sync_state, found), ..s.repo },
                    ..s
                };
                lemma_sync_keeps_queues(probed.repo, probed.catalog, added);
            }
        },
        Event::Done => {
            match s.phase {
                PhaseView::Cloning => {
                    lemma_plan_branch_earns(
                        SessionView {
                            repo: RepoView {
                                sync_state: SyncState::Cloned,
                                opened: true,
                                ..s.repo
                            },
                            ..s
                        },
                        0,
                        added,
                    );
                },
                PhaseView::Fetching => {
                    lemma_plan_branch_earns(s, 0, added);
                },
                PhaseView::Repointing { branch } => {
                    lemma_plan_branch_earns(s, 0, added);
                },
                PhaseView::PuttingCommit { commit } => {
                    match s.catalog.mark_commit_as_indexed(s.repo.id, s.commits[commit as int]) {
                        Some(catalog) => {
                            lemma_next_commit_earns(SessionView { catalog, ..s }, commit as int + 1);
                        },
                        None => {},
                    }
                },
                PhaseView::Deleting { removal } => {
                    lemma_next_removal_earns(s, removal as int + 1);
                },
                PhaseView::PuttingFile { branch, file } => {
                    match file_marked_in(s, file as int) {
                        Some(catalog) => {
                            lemma_next_file_earns(
                                SessionView { catalog, ..s },
                                branch as int,
                                file as int + 1,
                            );
                        },
                        None => {},
                    }
                },
                _ => {},
            }
        },
        Event::Oid(tip) => {},
        Event::Oids(ids) => {
            match s.phase {
                PhaseView::Walking { branch } => {
                    lemma_plans_leave_branches(
                        s.catalog,
                        s.repo.id,
                        s.branch(branch as int),
                        s.tips[branch as int],
                        texts(ids@),
                        Seq::empty(),
                        Seq::empty(),
                    );
                    let catalog = s.catalog.accepted(commit_writes(s.repo.id, texts(ids@))).0;
                    lemma_plan_branch_earns(SessionView { catalog, ..s }, branch as int + 1, added);
                },
                _ => {},
            }
        },
        Event::Tree(entries) => {
            match s.phase {
                PhaseView::PlanningTree { branch } => {
                    lemma_plans_leave_branches(
                        s.catalog,
                        s.repo.id,
                        s.branch(branch as int),
                        s.tips[branch as int],
                        Seq::empty(),
                        views(entries@),
                        Seq::empty(),
                    );
                    let catalog = s.catalog.accepted(
                        tree_writes(
                            s.repo.id,
                            s.branch(branch as int),
                            s.tips[branch as int],
                            views(entries@),
                        ),
                    ).0;
                    lemma_plan_branch_earns(SessionView { catalog, ..s }, branch as int + 1, added);
                },
                _ => {},
            }
        },
        Event::Deltas(deltas) => {
            match s.phase {
                PhaseView::PlanningTree { branch } => {
                    lemma_plans_leave_branches(
                        s.catalog,
                        s.repo.id,
                        s.branch(branch as int),
                        s.tips[branch as int],
                        Seq::empty(),
                        Seq::empty(),
                        views(deltas@),
                    );
                    let catalog = s.catalog.accepted(
                        diff_writes(
                            s.repo.id,
                            s.branch(branch as int),
                            s.tips[branch as int],
                            views(deltas@),
                        ),
                    ).0;
                    lemma_plan_branch_earns(
                        SessionView {
                            catalog,
                            removals: s.removals + removed_paths(views(deltas@)),
                            ..s
                        },
                        branch as int + 1,
                        added,
                    );
                },
                _ => {},
            }
        },
        Event::Commit(commit) => {},
        Event::Blob { blob, changed } => {
            match s.phase {
                PhaseView::LoadingBlob { branch, file } => {
                    if blob.binary {
                        match file_marked_in(s, file as int) {
                            Some(catalog) => {
                                lemma_next_file_earns(
                                    SessionView { catalog, ..s },
                                    branch as int,
                                    file as int + 1,
                                );
                            },
                            None => {},
                        }
                    }
                },
                _ => {},
            }
        },
    }
}

// ---------------------------------------------------------------------------
// Filtering
// ---------------------------------------------------------------------------

/// Both predicates hold.
pub open spec fn both<T>(first: spec_fn(T) -> bool, second: spec_fn(T) -> bool) -> spec_fn(
    T,
) -> bool {
    |row: T| first(row) && second(row)
}

/// A filter keeps nothing exactly when no row satisfies the predicate.
pub proof fn lemma_filter_empty<T>(rows: Seq<T>, pred: spec_fn(T) -> bool)
    ensures
        rows.filter(pred).len() == 0 <==> forall|i: int| 0 <= i < rows.len() ==> !pred(rows[i]),
{
    let kept = rows.filter(pred);
    if kept.len() > 0 {
        rows.lemma_filter_pred(pred, 0);
        assert(kept.contains(kept[0]));
        rows.lemma_filter_contains_rev(pred, kept[0]);
        let i = choose|i: int| 0 <= i < rows.len() && rows[i] == kept[0];
        assert(pred(rows[i]));
    } else {
        assert forall|i: int| 0 <= i < rows.len() implies !pred(rows[i]) by {
            if pred(rows[i]) {
                rows.lemma_filter_contains(pred, i);
            }
        }
    }
}

/// Filtering twice is filtering by both predicates at once.
pub proof fn lemma_filter_twice<T>(
    rows: Seq<T>,
    first: spec_fn(T) -> bool,
    second: spec_fn(T) -> bool,
)
    ensures
        rows.filter(first).filter(second) == rows.filter(both(first, second)),
    decreases rows.len(),
{
    reveal(Seq::filter);
    if rows.len() > 0 {
        lemma_filter_twice(rows.drop_last(), first, second);
        let front = rows.drop_last().filter(first);
        if first(rows.last()) {
            assert(front.push(rows.last()).drop_last() == front);
        }
    }
}

/// What a filter keeps first is the first row that satisfies the predicate.
pub proof fn lemma_filter_first<T>(rows: Seq<T>, pred: spec_fn(T) -> bool) -> (first: int)
    requires
        rows.filter(pred).len() > 0,
    ensures
        0 <= first < rows.len(),
        pred(rows[first]),
        rows.filter(pred)[0] == rows[first],
        forall|j: int| 0 <= j < first ==> !pred(rows[j]),
    decreases rows.len(),
{
    reveal(Seq::filter);
    let front = rows.drop_last();
    if front.filter(pred).len() > 0 {
        let first = lemma_filter_first(front, pred);
        assert(rows[first] == front[first]);
        assert forall|j: int| 0 <= j < first implies !pred(rows[j]) by {
            assert(rows[j] == front[j]);
        }
        first
    } else {
        lemma_filter_empty(front, pred);
        assert forall|j: int| 0 <= j < rows.len() - 1 implies !pred(rows[j]) by {
            assert(rows[j] == front[j]);
        }
        rows.len() - 1
    }
}

/// Where the first row that satisfies the predicate is replaced by a row
/// that does not, and every other row that satisfies it stays as it is and
/// no other row comes to satisfy it, the filter loses exactly its first row.
pub proof fn lemma_filter_loses_first<T>(
    rows: Seq<T>,
    changed: Seq<T>,
    pred: spec_fn(T) -> bool,
    first: int,
)
    requires
        rows.len() == changed.len(),
        0 <= first < rows.len(),
        pred(rows[first]),
        !pred(changed[first]),
        forall|j: int| 0 <= j < first ==> !pred(rows[j]),
        forall|j: int|
            0 <= j < rows.len() && j != first ==> pred(changed[j]) == pred(rows[j]) && (pred(
                rows[j],
            ) ==> changed[j] == rows[j]),
    ensures
        changed.filter(pred) == rows.filter(pred).skip(1),
    decreases rows.len(),
{
    reveal(Seq::filter);
    let front = rows.drop_last();
    let changed_front = changed.drop_last();
    let last = rows.len() - 1;
    if first == last {
        assert forall|j: int| 0 <= j < front.len() implies !pred(front[j]) by {
            assert(front[j] == rows[j]);
        }
        assert forall|j: int| 0 <= j < changed_front.len() implies !pred(changed_front[j]) by {
            assert(changed_front[j] == changed[j]);
            assert(front[j] == rows[j]);
        }
        lemma_filter_empty(front, pred);
        lemma_filter_empty(changed_front, pred);
        assert(changed.filter(pred) =~= rows.filter(pred).skip(1));
    } else {
        assert(front[first] == rows[first]);
        assert(changed_front[first] == changed[first]);
        assert forall|j: int| 0 <= j < first implies !pred(front[j]) by {
            assert(front[j] == rows[j]);
        }
        assert forall|j: int| 0 <= j < front.len() && j != first implies pred(changed_front[j])
            == pred(front[j]) && (pred(front[j]) ==> changed_front[j] == front[j]) by {
            assert(front[j] == rows[j]);
            assert(changed_front[j] == changed[j]);
        }
        lemma_filter_loses_first(front, changed_front, pred, first);
        front.lemma_filter_contains(pred, first);
        assert(front.filter(pred).len() > 0);
        assert(changed.filter(pred) =~= rows.filter(pred).skip(1));
    }
}

// ---------------------------------------------------------------------------
// Shipping drains the queues
// ---------------------------------------------------------------------------

/// Marking the first commit that waits takes it, and it alone, out of the
/// commits that wait.
pub proof fn lemma_mark_commit_drains(catalog: Catalog, repo_id: Seq<char>)
    requires
        catalog.wf(),
        catalog.version >= 3,
        catalog.commits_not_indexed(repo_id).len() > 0,
    ensures
        ({
            let id = catalog.commits_not_indexed(repo_id)[0];
            let after = catalog.mark_commit_as_indexed(repo_id, id)->0;
            &&& catalog.mark_commit_as_indexed(repo_id, id) is Some
            &&& after.wf()
            &&& after.commits_not_indexed(repo_id) == catalog.commits_not_indexed(repo_id).skip(1)
        }),
{
    let waits = commit_is_pending(repo_id);
    let kept = catalog.commits.filter(waits);
    let id = catalog.commits_not_indexed(repo_id)[0];
    let first = lemma_filter_first(catalog.commits, waits);
    assert(id == kept[0].id);
    let after = catalog.mark_commit_as_indexed(repo_id, id)->0;
    lemma_apply_keeps_wf(
        catalog,
        DbWriteView::MarkCommitIndexed { repo_id, commit_id: id },
    );
    lemma_filter_loses_first(catalog.commits, after.commits, waits, first);
    assert(after.commits.filter(waits).map_values(commit_id()) =~= kept.map_values(
        commit_id(),
    ).skip(1));
}

/// Files of the repository that share a path were last changed in the
/// same commit.
pub open spec fn paths_agree(catalog: Catalog, repo_id: Seq<char>) -> bool {
    forall|i: int, j: int|
        0 <= i < catalog.files.len() && 0 <= j < catalog.files.len() && catalog.files[i].repo_id
            == repo_id && catalog.files[j].repo_id == repo_id && catalog.files[i].path
            == catalog.files[j].path ==> catalog.files[i].changed_commit_id
            == catalog.files[j].changed_commit_id
}

/// Marking the first file of a branch that waits, at the commit that last
/// changed it, takes it out of the files of the branch that wait. Where the
/// files of the repository that share a path agree on the commit that last
/// changed them, every file that the mark reaches is indexed at that commit
/// afterwards: a branch of which no file waited has none waiting after.
pub proof fn lemma_mark_file_drains(catalog: Catalog, repo_id: Seq<char>, branch: Seq<char>)
    requires
        catalog.wf(),
        catalog.version >= 4,
        paths_agree(catalog, repo_id),
        branch_files_not_indexed(catalog, repo_id, branch).len() > 0,
    ensures
        ({
            let file = branch_files_not_indexed(catalog, repo_id, branch)[0];
            let after = catalog.mark_file_as_indexed(repo_id, file.path, file.changed_commit_id)->0;
            &&& catalog.mark_file_as_indexed(repo_id, file.path, file.changed_commit_id) is Some
            &&& after.wf()
            &&& paths_agree(after, repo_id)
            &&& branch_files_not_indexed(after, repo_id, branch) == branch_files_not_indexed(
                catalog,
                repo_id,
                branch,
            ).skip(1)
            &&& forall|other: Seq<char>|
                branch_files_not_indexed(catalog, repo_id, other).len() == 0
                    ==> #[trigger] branch_files_not_indexed(after, repo_id, other).len() == 0
        }),
{
    let waits = both(file_is_pending(repo_id), on_branch(branch));
    lemma_filter_twice(catalog.files, file_is_pending(repo_id), on_branch(branch));
    let first = lemma_filter_first(catalog.files, waits);
    let file = branch_files_not_indexed(catalog, repo_id, branch)[0];
    assert(file == catalog.files[first]);
    let after = catalog.mark_file_as_indexed(repo_id, file.path, file.changed_commit_id)->0;
    lemma_apply_keeps_wf(
        catalog,
        DbWriteView::MarkFileIndexed {
            repo_id,
            path: file.path,
            indexed_commit_id: file.changed_commit_id,
        },
    );
    let marked = file_marked(repo_id, file.path, file.changed_commit_id);
    assert forall|j: int| 0 <= j < catalog.files.len() implies after.files[j] == marked(
        catalog.files[j],
    ) && (after.files[j] != catalog.files[j] ==> !after.files[j].needs_index()) by {
        if catalog.files[j].repo_id == repo_id && catalog.files[j].path == file.path {
            assert(catalog.files[j].changed_commit_id == catalog.files[first].changed_commit_id);
        }
    }
    assert(!after.files[first].needs_index());
    assert forall|j: int| 0 <= j < catalog.files.len() && j != first implies waits(after.files[j])
        == waits(catalog.files[j]) && (waits(catalog.files[j]) ==> after.files[j]
        == catalog.files[j]) by {
        if after.files[j] != catalog.files[j] {
            assert(catalog.files[j].repo_id == repo_id && catalog.files[j].path == file.path);
            if catalog.files[j].branch == branch {
                if j < first {
                    assert(!(catalog.files[j].repo_id == catalog.files[first].repo_id
                        && catalog.files[j].branch == catalog.files[first].branch
                        && catalog.files[j].path == catalog.files[first].path));
                } else {
                    assert(!(catalog.files[first].repo_id == catalog.files[j].repo_id
                        && catalog.files[first].branch == catalog.files[j].branch
                        && catalog.files[first].path == catalog.files[j].path));
                }
            }
        }
    }
    lemma_filter_loses_first(catalog.files, after.files, waits, first);
    lemma_filter_twice(after.files, file_is_pending(repo_id), on_branch(branch));
    assert forall|i: int, j: int|
        0 <= i < after.files.len() && 0 <= j < after.files.len() && after.files[i].repo_id
            == repo_id && after.files[j].repo_id == repo_id && after.files[i].path
            == after.files[j].path implies after.files[i].changed_commit_id
        == after.files[j].changed_commit_id by {
        assert(after.files[i] == marked(catalog.files[i]));
        assert(after.files[j] == marked(catalog.files[j]));
    }
    assert forall|other: Seq<char>|
        branch_files_not_indexed(catalog, repo_id, other).len()
            == 0 implies #[trigger] branch_files_not_indexed(after, repo_id, other).len() == 0 by {
        let others = both(file_is_pending(repo_id), on_branch(other));
        lemma_filter_twice(catalog.files, file_is_pending(repo_id), on_branch(other));
        lemma_filter_twice(after.files, file_is_pending(repo_id), on_branch(other));
        lemma_filter_empty(catalog.files, others);
        assert forall|j: int| 0 <= j < after.files.len() implies !others(after.files[j]) by {
            if after.files[j] == catalog.files[j] {
                assert(!others(catalog.files[j]));
            }
        }
        lemma_filter_empty(after.files, others);
    }
}

// ---------------------------------------------------------------------------
// A run that ends well leaves nothing to ship
// ---------------------------------------------------------------------------

/// The commits of the repository that wait.
pub open spec fn commits_wait(s: SessionView) -> Seq<Seq<char>> {
    s.catalog.commits_not_indexed(s.repo.id)
}

/// The files of branch `b` that wait.
pub open spec fn files_wait(s: SessionView, b: int) -> Seq<RepoFileView> {
    branch_files_not_indexed(s.catalog, s.repo.id, s.branch(b))
}

/// No file of a branch before `upto` waits.
pub open spec fn branches_done(s: SessionView, upto: int) -> bool {
    forall|b: int|
        0 <= b < upto && b < s.repo.branches.len() ==> (#[trigger] files_wait(s, b)).len() == 0
}

/// A run that ships in order: the commits still to be shipped are exactly
/// those that wait in the catalog, and so are the files of the branch at
/// hand, while the branches before it have none waiting.
pub open spec fn orderly(s: SessionView) -> bool {
    &&& s.valid()
    &&& s.catalog.wf()
    &&& match s.phase {
        PhaseView::LoadingCommit { commit } => commits_wait(s) == s.commits.skip(commit as int),
        PhaseView::PuttingCommit { commit } => commits_wait(s) == s.commits.skip(commit as int),
        PhaseView::Deleting { removal } => commits_wait(s).len() == 0,
        PhaseView::LoadingBlob { branch, file } => commits_wait(s).len() == 0 && files_wait(
            s,
            branch as int,
        ) == s.files.skip(file as int) && branches_done(s, branch as int),
        PhaseView::PuttingFile { branch, file } => commits_wait(s).len() == 0 && files_wait(
            s,
            branch as int,
        ) == s.files.skip(file as int) && branches_done(s, branch as int),
        _ => true,
    }
}

/// The run is at a point where a file may be marked.
pub open spec fn ships_files(s: SessionView) -> bool {
    s.phase is LoadingBlob || s.phase is PuttingFile
}

/// What the steps of the shipping part of a run come to.
pub open spec fn ships_on(s: SessionView, outcome: (SessionView, RequestView)) -> bool {
    let (post, request) = outcome;
    &&& orderly(post)
    &&& (request is Done ==> quiet(post.catalog, post.repo))
    &&& post.repo == s.repo
    &&& post.catalog.commits == s.catalog.commits
    &&& post.catalog.files == s.catalog.files
}

proof fn lemma_branches_done_carries(s: SessionView, next: SessionView, upto: int)
    requires
        branches_done(s, upto),
        next.repo == s.repo,
        next.catalog.files == s.catalog.files,
    ensures
        branches_done(next, upto),
{
    assert forall|b: int| 0 <= b < upto && b < next.repo.branches.len() implies (#[trigger] files_wait(
        next,
        b,
    )).len() == 0 by {
        assert(files_wait(s, b).len() == 0);
    }
}

proof fn lemma_index_branch_orderly(s: SessionView, i: int)
    requires
        s.catalog.wf(),
        s.command == Command::Index,
        s.tips.len() == s.repo.branches.len(),
        0 <= i,
        commits_wait(s).len() == 0,
        branches_done(s, i),
    ensures
        ships_on(s, index_branch(s, i)),
    decreases s.repo.branches.len() - i,
{
    let (post, request) = index_branch(s, i);
    if i >= s.repo.branches.len() {
        assert forall|b: int| 0 <= b < post.repo.branches.len() implies (#[trigger] branch_files_not_indexed(
            post.catalog,
            post.repo.id,
            post.repo.branches[b].name,
        )).len() == 0 by {
            assert(files_wait(s, b).len() == 0);
        }
    } else if s.catalog.version >= 4 {
        let files = branch_files_not_indexed(s.catalog, s.repo.id, s.branch(i));
        let mid = SessionView { files, ..s };
        if files.len() > 0 {
            assert(files.skip(0) =~= files);
            lemma_branches_done_carries(s, post, i);
        } else {
            let marked = DbWriteView::MarkBranchIndexed {
                repo_id: s.repo.id,
                name: s.branch(i),
                commit_id: s.tips[i],
            };
            lemma_apply_keeps_wf(s.catalog, marked);
            let next = SessionView { catalog: closed_branch(mid, i), ..mid };
            assert(next.catalog.files == s.catalog.files);
            assert(next.catalog.commits == s.catalog.commits);
            assert forall|b: int| 0 <= b < i + 1 && b < next.repo.branches.len() implies (#[trigger] files_wait(
                next,
                b,
            )).len() == 0 by {
                if b < i {
                    assert(files_wait(s, b).len() == 0);
                }
            }
            lemma_index_branch_orderly(next, i + 1);
        }
    }
}

proof fn lemma_next_file_orderly(s: SessionView, i: int, k: int)
    requires
        s.catalog.wf(),
        s.command == Command::Index,
        s.tips.len() == s.repo.branches.len(),
        0 <= i < s.repo.branches.len(),
        0 <= k <= s.files.len(),
        commits_wait(s).len() == 0,
        files_wait(s, i) == s.files.skip(k),
        branches_done(s, i),
    ensures
        ships_on(s, next_file(s, i, k)),
{
    let (post, request) = next_file(s, i, k);
    if k < s.files.len() {
        lemma_branches_done_carries(s, post, i);
    } else if s.catalog.version >= 4 {
        let marked = DbWriteView::MarkBranchIndexed {
            repo_id: s.repo.id,
            name: s.branch(i),
            commit_id: s.tips[i],
        };
        lemma_apply_keeps_wf(s.catalog, marked);
        let next = SessionView { catalog: closed_branch(s, i), ..s };
        assert(next.catalog.files == s.catalog.files);
        assert(next.catalog.commits == s.catalog.commits);
        assert forall|b: int| 0 <= b < i + 1 && b < next.repo.branches.len() implies (#[trigger] files_wait(
            next,
            b,
        )).len() == 0 by {
            if b < i {
                assert(files_wait(s, b).len() == 0);
            } else {
                assert(files_wait(s, i).len() == 0);
            }
        }
        lemma_index_branch_orderly(next, i + 1);
    }
}

proof fn lemma_next_removal_orderly(s: SessionView, d: int)
    requires
        s.catalog.wf(),
        s.command == Command::Index,
        s.tips.len() == s.repo.branches.len(),
        0 <= d,
        commits_wait(s).len() == 0,
    ensures
        ships_on(s, next_removal(s, d)),
{
    if d >= s.removals.len() {
        lemma_index_branch_orderly(s, 0);
    }
}

proof fn lemma_next_commit_orderly(s: SessionView, j: int)
    requires
        s.catalog.wf(),
        s.command == Command::Index,
        s.tips.len() == s.repo.branches.len(),
        0 <= j <= s.commits.len(),
        commits_wait(s) == s.commits.skip(j),
    ensures
        ships_on(s, next_commit(s, j)),
{
    if j >= s.commits.len() {
        lemma_next_removal_orderly(s, 0);
    }
}

/// What the steps of the planning part of a run come to.
pub open spec fn plans_on(s: SessionView, outcome: (SessionView, RequestView)) -> bool {
    let (post, request) = outcome;
    &&& orderly(post)
    &&& (request is Done && s.command == Command::Index ==> quiet(post.catalog, post.repo))
}

proof fn lemma_plan_branch_orderly(s: SessionView, i: int, added: Timespec)
    requires
        s.catalog.wf(),
        0 <= i,
        s.tips.len() == i,
        s.tips.len() <= s.repo.branches.len(),
    ensures
        plans_on(s, plan_branch(s, i, added)),
{
    if i >= s.repo.branches.len() {
        lemma_sync_keeps_queues(s.repo, s.catalog, added);
        match sync_repo(s, added) {
            Ok(mid) => {
                if s.command == Command::Index && mid.catalog.version >= 3 {
                    let started = SessionView {
                        commits: mid.catalog.commits_not_indexed(mid.repo.id),
                        ..mid
                    };
                    assert(started.commits.skip(0) =~= started.commits);
                    lemma_next_commit_orderly(started, 0);
                }
            },
            Err(failed) => {},
        }
    }
}

/// After a commit has been marked: the commits that wait are those still
/// to be shipped.
proof fn lemma_commit_put_orderly(s: SessionView, j: int)
    requires
        orderly(s),
        s.phase == (PhaseView::PuttingCommit { commit: j as nat }),
        0 <= j,
    ensures
        plans_on(s, on_commit_put(s, j)),
{
    let kept = s.catalog.commits.filter(commit_is_pending(s.repo.id));
    assert(s.commits.skip(j).len() > 0);
    assert(commits_wait(s) == kept.map_values(commit_id()));
    assert(kept.len() > 0);
    s.catalog.commits.lemma_filter_len(commit_is_pending(s.repo.id));
    assert(s.catalog.commits.len() > 0);
    assert(commits_wait(s)[0] == s.commits[j]);
    lemma_mark_commit_drains(s.catalog, s.repo.id);
    let catalog = s.catalog.mark_commit_as_indexed(s.repo.id, s.commits[j])->0;
    let next = SessionView { catalog, ..s };
    assert(commits_wait(next) =~= s.commits.skip(j + 1));
    lemma_next_commit_orderly(next, j + 1);
}

/// After a file has been marked: the files of the branch that wait are
/// those still to be shipped, and the branches before it stay done.
proof fn lemma_file_marked_orderly(s: SessionView, i: int, k: int)
    requires
        orderly(s),
        s.phase == (PhaseView::PuttingFile { branch: i as nat, file: k as nat }) || s.phase == (
        PhaseView::LoadingBlob { branch: i as nat, file: k as nat }),
        0 <= i,
        0 <= k,
        paths_agree(s.catalog, s.repo.id),
    ensures
        file_marked_in(s, k) is Some,
        plans_on(s, next_file(SessionView { catalog: file_marked_in(s, k)->0, ..s }, i, k + 1)),
        paths_agree(file_marked_in(s, k)->0, s.repo.id),
        next_file(SessionView { catalog: file_marked_in(s, k)->0, ..s }, i, k + 1).0.catalog.files
            == file_marked_in(s, k)->0.files,
{
    let waiting = s.catalog.files.filter(file_is_pending(s.repo.id));
    assert(s.files.skip(k).len() > 0);
    assert(files_wait(s, i) == waiting.filter(on_branch(s.branch(i))));
    waiting.lemma_filter_len(on_branch(s.branch(i)));
    s.catalog.files.lemma_filter_len(file_is_pending(s.repo.id));
    assert(s.catalog.files.len() > 0);
    assert(files_wait(s, i)[0] == s.files[k]);
    lemma_mark_file_drains(s.catalog, s.repo.id, s.branch(i));
    let catalog = file_marked_in(s, k)->0;
    let next = SessionView { catalog, ..s };
    assert(files_wait(next, i) =~= s.files.skip(k + 1));
    assert forall|b: int| 0 <= b < i && b < next.repo.branches.len() implies (#[trigger] files_wait(
        next,
        b,
    )).len() == 0 by {
        assert(files_wait(s, b).len() == 0);
        assert(branch_files_not_indexed(catalog, s.repo.id, s.branch(b)).len() == 0);
    }
    lemma_next_file_orderly(next, i, k + 1);
}

/// A run ships in order from its first step to its last. Where an
/// indexing run ends well, nothing is left to ship: no commit of the
/// repository waits, and no file of any of its branches. The files are
/// drained only where the files of the repository that share a path agree
/// on the commit that last changed them: a path that two branches hold is
/// marked for both at once, at the commit of the one that was shipped.
pub proof fn lemma_run_stays_orderly(s: SessionView, event: Event, added: Timespec)
    requires
        orderly(s),
        ships_files(s) ==> paths_agree(s.catalog, s.repo.id),
    ensures
        orderly(transition(s, event, added).0),
        transition(s, event, added).1 is Done && s.command == Command::Index ==> quiet(
            transition(s, event, added).0.catalog,
            transition(s, event, added).0.repo,
        ),
        ships_files(s) ==> paths_agree(transition(s, event, added).0.catalog, s.repo.id),
{
    let (post, request) = transition(s, event, added);
    match event {
        Event::Failed(error) => {},
        Event::Exists(found) => {
            if s.phase == PhaseView::Probing {
                let probed = SessionView {
                    repo: RepoView { sync_state: probed_state(s.repo.sync_state, found), ..s.repo },
                    ..s
                };
                lemma_sync_keeps_queues(probed.repo, probed.catalog, added);
            }
        },
        Event::Done => {
            match s.phase {
                PhaseView::Cloning => {
                    lemma_plan_branch_orderly(
                        SessionView {
                            repo: RepoView {
                                sync_state: SyncState::Cloned,
                                opened: true,
                                ..s.repo
                            },
                            ..s
                        },
                        0,
                        added,
                    );
                },
                PhaseView::Fetching => {
                    lemma_plan_branch_orderly(s, 0, added);
                },
                PhaseView::Repointing { branch } => {
                    lemma_plan_branch_orderly(s, 0, added);
                },
                PhaseView::PuttingCommit { commit } => {
                    lemma_commit_put_orderly(s, commit as int);
                },
                PhaseView::Deleting { removal } => {
                    lemma_next_removal_orderly(s, removal as int + 1);
                },
                PhaseView::PuttingFile { branch, file } => {
                    lemma_file_marked_orderly(s, branch as int, file as int);
                },
                _ => {},
            }
        },
        Event::Oid(tip) => {},
        Event::Oids(ids) => {
            match s.phase {
                PhaseView::Walking { branch } => {
                    lemma_plans_leave_branches(
                        s.catalog,
                        s.repo.id,
                        s.branch(branch as int),
                        s.tips[branch as int],
                        texts(ids@),
                        Seq::empty(),
                        Seq::empty(),
                    );
                    let catalog = s.catalog.accepted(commit_writes(s.repo.id, texts(ids@))).0;
                    lemma_plan_branch_orderly(SessionView { catalog, ..s }, branch as int + 1, added);
                },
                _ => {},
            }
        },
        Event::Tree(entries) => {
            match s.phase {
                PhaseView::PlanningTree { branch } => {
                    lemma_plans_leave_branches(
                        s.catalog,
                        s.repo.id,
                        s.branch(branch as int),
                        s.tips[branch as int],
                        Seq::empty(),
                        views(entries@),
                        Seq::empty(),
                    );
                    let catalog = s.catalog.accepted(
                        tree_writes(
                            s.repo.id,
                            s.branch(branch as int),
                            s.tips[branch as int],
                            views(entries@),
                        ),
                    ).0;
                    lemma_plan_branch_orderly(SessionView { catalog, ..s }, branch as int + 1, added);
                },
                _ => {},
            }
        },
        Event::Deltas(deltas) => {
            match s.phase {
                PhaseView::PlanningTree { branch } => {
                    lemma_plans_leave_branches(
                        s.catalog,
                        s.repo.id,
                        s.branch(branch as int),
                        s.tips[branch as int],
                        Seq::empty(),
                        Seq::empty(),
                        views(deltas@),
                    );
                    let catalog = s.catalog.accepted(
                        diff_writes(
                            s.repo.id,
                            s.branch(branch as int),
                            s.tips[branch as int],
                            views(deltas@),
                        ),
                    ).0;
                    lemma_plan_branch_orderly(
                        SessionView {
                            catalog,
                            removals: s.removals + removed_paths(views(deltas@)),
                            ..s
                        },
                        branch as int + 1,
                        added,
                    );
                },
                _ => {},
            }
        },
        Event::Commit(commit) => {},
        Event::Blob { blob, changed } => {
            match s.phase {
                PhaseView::LoadingBlob { branch, file } => {
                    if blob.binary {
                        lemma_file_marked_orderly(s, branch as int, file as int);
                    } else {
                        lemma_branches_done_carries(s, post, branch as int);
                    }
                },
                _ => {},
            }
        },
    }
}

// ---------------------------------------------------------------------------
// Two runs in a row
// ---------------------------------------------------------------------------

/// One step of a run as the host sees it: the event it hands in, and the
/// time at which a repository new to the catalog is entered.
pub type Happening = (Event, Timespec);

/// The state of a run after the given steps.
pub open spec fn state_after(start: SessionView, steps: Seq<Happening>) -> SessionView
    decreases steps.len(),
{
    if steps.len() == 0 {
        start
    } else {
        transition(state_after(start, steps.drop_last()), steps.last().0, steps.last().1).0
    }
}

/// The request that the last of the given steps hands out.
pub open spec fn request_after(start: SessionView, steps: Seq<Happening>) -> RequestView {
    transition(state_after(start, steps.drop_last()), steps.last().0, steps.last().1).1
}

/// Whenever the run is about to mark a file, the files of the repository
/// that share a path agree on the commit that last changed them.
pub open spec fn paths_stay_agreed(start: SessionView, steps: Seq<Happening>) -> bool {
    forall|k: int|
        0 <= k < steps.len() && ships_files(#[trigger] state_after(start, steps.take(k)))
            ==> paths_agree(state_after(start, steps.take(k)).catalog, start.repo.id)
}

/// At no step does the remote report anything new.
pub open spec fn remote_stays_same(start: SessionView, steps: Seq<Happening>) -> bool {
    forall|k: int|
        0 <= k < steps.len() ==> nothing_new(
            #[trigger] state_after(start, steps.take(k)),
            steps[k].0,
        )
}

/// The state in which a run begins.
pub open spec fn begins(s: SessionView) -> bool {
    &&& s.phase == PhaseView::Probing
    &&& s.tips.len() == 0
    &&& s.removals.len() == 0
    &&& s.catalog.wf()
}

/// A run that begins with a well-formed catalog ships in order all along,
/// as long as the files of the repository that share a path agree on the
/// commit that last changed them when files are marked; the repository it is about stays the same but for the state of
/// its clone.
pub proof fn lemma_run_is_orderly(start: SessionView, steps: Seq<Happening>)
    requires
        begins(start),
        paths_stay_agreed(start, steps),
    ensures
        orderly(state_after(start, steps)),
        state_after(start, steps).repo.id == start.repo.id,
        state_after(start, steps).repo.branches == start.repo.branches,
        state_after(start, steps).command == start.command,
        steps.len() > 0 && request_after(start, steps) is Done && start.command == Command::Index
            ==> quiet(state_after(start, steps).catalog, state_after(start, steps).repo),
    decreases steps.len(),
{
    if steps.len() > 0 {
        let front = steps.drop_last();
        assert forall|k: int|
            0 <= k < front.len() && ships_files(
                #[trigger] state_after(start, front.take(k)),
            ) implies paths_agree(state_after(start, front.take(k)).catalog, start.repo.id) by {
            assert(front.take(k) == steps.take(k));
        }
        lemma_run_is_orderly(start, front);
        let before = state_after(start, front);
        assert(steps.take(steps.len() - 1) == front);
        lemma_run_stays_orderly(before, steps.last().0, steps.last().1);
        lemma_step_keeps_repository(before, steps.last().0, steps.last().1);
    }
}

proof fn lemma_index_branch_keeps_repository(s: SessionView, i: int)
    ensures
        index_branch(s, i).0.repo == s.repo,
        index_branch(s, i).0.command == s.command,
    decreases s.repo.branches.len() - i,
{
    if 0 <= i < s.repo.branches.len() && s.catalog.version >= 4 {
        let files = branch_files_not_indexed(s.catalog, s.repo.id, s.branch(i));
        let mid = SessionView { files, ..s };
        if files.len() == 0 {
            lemma_index_branch_keeps_repository(
                SessionView { catalog: closed_branch(mid, i), ..mid },
                i + 1,
            );
        }
    }
}

proof fn lemma_next_file_keeps_repository(s: SessionView, i: int, k: int)
    ensures
        next_file(s, i, k).0.repo == s.repo,
        next_file(s, i, k).0.command == s.command,
{
    if k >= s.files.len() && s.catalog.version >= 4 {
        lemma_index_branch_keeps_repository(SessionView { catalog: closed_branch(s, i), ..s }, i + 1);
    }
}

proof fn lemma_next_commit_keeps_repository(s: SessionView, j: int)
    ensures
        next_commit(s, j).0.repo == s.repo,
        next_commit(s, j).0.command == s.command,
        next_removal(s, j).0.repo == s.repo,
        next_removal(s, j).0.command == s.command,
{
    lemma_index_branch_keeps_repository(s, 0);
}

proof fn lemma_plan_branch_keeps_repository(s: SessionView, i: int, added: Timespec)
    ensures
        plan_branch(s, i, added).0.repo.id == s.repo.id,
        plan_branch(s, i, added).0.repo.branches == s.repo.branches,
        plan_branch(s, i, added).0.command == s.command,
{
    if i >= s.repo.branches.len() {
        match sync_repo(s, added) {
            Ok(mid) => {
                if s.command == Command::Index && mid.catalog.version >= 3 {
                    lemma_next_commit_keeps_repository(
                        SessionView {
                            commits: mid.catalog.commits_not_indexed(mid.repo.id),
                            ..mid
                        },
                        0,
                    );
                }
            },
            Err(failed) => {},
        }
    }
}

/// A step changes nothing of the repository but the state of its clone,
/// and nothing of what the run is for.
pub proof fn lemma_step_keeps_repository(s: SessionView, event: Event, added: Timespec)
    ensures
        transition(s, event, added).0.repo.id == s.repo.id,
        transition(s, event, added).0.repo.branches == s.repo.branches,
        transition(s, event, added).0.command == s.command,
{
    match event {
        Event::Done => {
            match s.phase {
                PhaseView::Cloning => {
                    lemma_plan_branch_keeps_repository(
                        SessionView {
                            repo: RepoView {
                                sync_state: SyncState::Cloned,
                                opened: true,
                                ..s.repo
                            },
                            ..s
                        },
                        0,
                        added,
                    );
                },
                PhaseView::Fetching => {
                    lemma_plan_branch_keeps_repository(s, 0, added);
                },
                PhaseView::Repointing { branch } => {
                    lemma_plan_branch_keeps_repository(s, 0, added);
                },
                PhaseView::PuttingCommit { commit } => {
                    match s.catalog.mark_commit_as_indexed(s.repo.id, s.commits[commit as int]) {
                        Some(catalog) => {
                            lemma_next_commit_keeps_repository(
                                SessionView { catalog, ..s },
                                commit as int + 1,
                            );
                        },
                        None => {},
                    }
                },
                PhaseView::Deleting { removal } => {
                    lemma_next_commit_keeps_repository(s, removal as int + 1);
                },
                PhaseView::PuttingFile { branch, file } => {
                    match file_marked_in(s, file as int) {
                        Some(catalog) => {
                            lemma_next_file_keeps_repository(
                                SessionView { catalog, ..s },
                                branch as int,
                                file as int + 1,
                            );
                        },
                        None => {},
                    }
                },
                _ => {},
            }
        },
        Event::Oids(ids) => {
            match s.phase {
                PhaseView::Walking { branch } => {
                    let catalog = s.catalog.accepted(commit_writes(s.repo.id, texts(ids@))).0;
                    lemma_plan_branch_keeps_repository(
                        SessionView { catalog, ..s },
                        branch as int + 1,
                        added,
                    );
                },
                _ => {},
            }
        },
        Event::Tree(entries) => {
            match s.phase {
                PhaseView::PlanningTree { branch } => {
                    let catalog = s.catalog.accepted(
                        tree_writes(
                            s.repo.id,
                            s.branch(branch as int),
                            s.tips[branch as int],
                            views(entries@),
                        ),
                    ).0;
                    lemma_plan_branch_keeps_repository(
                        SessionView { catalog, ..s },
                        branch as int + 1,
                        added,
                    );
                },
                _ => {},
            }
        },
        Event::Deltas(deltas) => {
            match s.phase {
                PhaseView::PlanningTree { branch } => {
                    let catalog = s.catalog.accepted(
                        diff_writes(
                            s.repo.id,
                            s.branch(branch as int),
                            s.tips[branch as int],
                            views(deltas@),
                        ),
                    ).0;
                    lemma_plan_branch_keeps_repository(
                        SessionView {
                            catalog,
                            removals: s.removals + removed_paths(views(deltas@)),
                            ..s
                        },
                        branch as int + 1,
                        added,
                    );
                },
                _ => {},
            }
        },
        Event::Blob { blob, changed } => {
            match s.phase {
                PhaseView::LoadingBlob { branch, file } => {
                    if blob.binary {
                        match file_marked_in(s, file as int) {
                            Some(catalog) => {
                                lemma_next_file_keeps_repository(
                                    SessionView { catalog, ..s },
                                    branch as int,
                                    file as int + 1,
                                );
                            },
                            None => {},
                        }
                    }
                },
                _ => {},
            }
        },
        _ => {},
    }
}

/// A run that has nothing to ship and hears of nothing new never asks the
/// search service to write.
pub proof fn lemma_settled_run_is_silent(start: SessionView, steps: Seq<Happening>)
    requires
        settled(start),
        remote_stays_same(start, steps),
    ensures
        settled(state_after(start, steps)),
        forall|k: int| 0 < k <= steps.len() ==> !asks_sink(#[trigger] request_after(start, steps.take(k))),
    decreases steps.len(),
{
    if steps.len() > 0 {
        let front = steps.drop_last();
        assert forall|k: int| 0 <= k < front.len() implies nothing_new(
            #[trigger] state_after(start, front.take(k)),
            front[k].0,
        ) by {
            assert(front.take(k) == steps.take(k));
            assert(front[k] == steps[k]);
        }
        lemma_settled_run_is_silent(start, front);
        let before = state_after(start, front);
        assert(steps.take(steps.len() - 1) == front);
        lemma_unchanged_run_is_silent(before, steps.last().0, steps.last().1);
        assert forall|k: int| 0 < k <= steps.len() implies !asks_sink(
            #[trigger] request_after(start, steps.take(k)),
        ) by {
            if k < steps.len() {
                assert(steps.take(k) == front.take(k));
            } else {
                assert(steps.take(k) == steps);
            }
        }
    }
}

/// Indexing twice in a row sends nothing the second time. The first run
/// begins with any well-formed catalog, hears whatever the remote holds, and
/// ends well; the second begins with the catalog the first has left, for the
/// same repository and branches, and hears of nothing new. Then no request of
/// the second run asks the search service to write. A mark reaches every
/// branch that holds the path, so while the first run marks files, the
/// files of the repository that share a path have to agree on the commit
/// that last changed them.
pub proof fn lemma_second_run_sends_nothing(
    first: SessionView,
    first_steps: Seq<Happening>,
    second: SessionView,
    second_steps: Seq<Happening>,
)
    requires
        begins(first),
        first.command == Command::Index,
        paths_stay_agreed(first, first_steps),
        first_steps.len() > 0,
        request_after(first, first_steps) is Done,
        begins(second),
        second.repo.id == first.repo.id,
        second.repo.branches == first.repo.branches,
        second.catalog == state_after(first, first_steps).catalog,
        remote_stays_same(second, second_steps),
    ensures
        forall|k: int|
            0 < k <= second_steps.len() ==> !asks_sink(
                #[trigger] request_after(second, second_steps.take(k)),
            ),
{
    lemma_run_is_orderly(first, first_steps);
    let end = state_after(first, first_steps);
    lemma_quiet_carries(end.catalog, end.repo, second.catalog, second.repo);
    lemma_settled_run_is_silent(second, second_steps);
}

// ---------------------------------------------------------------------------
// What a step of planning leaves in the catalog
// ---------------------------------------------------------------------------
/// Going on to the next branch, or from planning to shipping, leaves the
/// commits and the files of the catalog as they are.
proof fn lemma_plan_branch_keeps_tables(s: SessionView, i: int, added: Timespec)
    requires
        s.catalog.wf(),
    ensures
        plan_branch(s, i, added).0.catalog.commits == s.catalog.commits,
        plan_branch(s, i, added).0.catalog.files == s.catalog.files,
{
    if i >= s.repo.branches.len() {
        lemma_sync_keeps_queues(s.repo, s.catalog, added);
        match sync_repo(s, added) {
            Ok(mid) => {
                if s.command == Command::Index && mid.catalog.version >= 3 {
                    lemma_next_commit_earns(
                        SessionView {
                            commits: mid.catalog.commits_not_indexed(mid.repo.id),
                            ..mid
                        },
                        0,
                    );
                }
            },
            Err(failed) => {},
        }
    }
}

/// The step of a run that takes in the diff of a branch against its
/// indexed commit leaves every path whose content differs between the two
/// trees among the files to be indexed, as changed at the tip of the
/// branch.
pub proof fn lemma_step_records_diff(
    s: SessionView,
    deltas: Vec<Delta>,
    added: Timespec,
    old_tree: TreeFiles,
    new_tree: TreeFiles,
    path: Seq<u8>,
)
    requires
        s.catalog.wf(),
        s.catalog.version >= 4,
        s.phase is PlanningTree,
        s.repo.opened,
        s.watermark is Some,
        diff_covers(old_tree, new_tree, views(deltas@)),
        changed_between(old_tree, new_tree, path),
    ensures
        transition(s, Event::Deltas(deltas), added).0.catalog.files_not_indexed(
            s.repo.id,
        ).contains(
            changed_row(
                s.repo.id,
                s.branch(s.phase->PlanningTree_branch as int),
                path,
                s.tips[s.phase->PlanningTree_branch as int],
            ),
        ),
{
    let i = s.phase->PlanningTree_branch as int;
    let listed = views(deltas@);
    lemma_diff_is_recorded(
        s.catalog,
        s.repo.id,
        s.branch(i),
        s.tips[i],
        old_tree,
        new_tree,
        listed,
        path,
    );
    lemma_plans_leave_branches(
        s.catalog,
        s.repo.id,
        s.branch(i),
        s.tips[i],
        Seq::empty(),
        Seq::empty(),
        listed,
    );
    let catalog = s.catalog.accepted(diff_writes(s.repo.id, s.branch(i), s.tips[i], listed)).0;
    lemma_plan_branch_keeps_tables(
        SessionView { catalog, removals: s.removals + removed_paths(listed), ..s },
        i + 1,
        added,
    );
}

/// The step of a run that takes in the tree at the tip of a branch that was
/// never indexed leaves every file of the tree among the files to be
/// indexed, as changed at the tip of the branch.
pub proof fn lemma_step_records_tree(
    s: SessionView,
    entries: Vec<RepoTreeEntry>,
    added: Timespec,
    tree: TreeFiles,
    path: Seq<u8>,
)
    requires
        s.catalog.wf(),
        s.catalog.version >= 4,
        s.phase is PlanningTree,
        s.repo.opened,
        s.watermark is None,
        listing_covers(tree, views(entries@)),
        tree.contains_key(path),
    ensures
        transition(s, Event::Tree(entries), added).0.catalog.files_not_indexed(
            s.repo.id,
        ).contains(
            changed_row(
                s.repo.id,
                s.branch(s.phase->PlanningTree_branch as int),
                path,
                s.tips[s.phase->PlanningTree_branch as int],
            ),
        ),
{
    let i = s.phase->PlanningTree_branch as int;
    let listed = views(entries@);
    lemma_tree_is_recorded(s.catalog, s.repo.id, s.branch(i), s.tips[i], tree, listed, path);
    lemma_plans_leave_branches(
        s.catalog,
        s.repo.id,
        s.branch(i),
        s.tips[i],
        Seq::empty(),
        listed,
        Seq::empty(),
    );
    let catalog = s.catalog.accepted(tree_writes(s.repo.id, s.branch(i), s.tips[i], listed)).0;
    lemma_plan_branch_keeps_tables(SessionView { catalog, ..s }, i + 1, added);
}

/// The step of a run that takes in what a walk has produced leaves the
/// catalog with exactly the commits it had and those of the walk. The walk
/// that the run asks for, for a branch that was indexed, stops at the merge
/// bases of the tip and the indexed commit; so the commits gained are those
/// reached from the tip but from none of the bases.
pub proof fn lemma_step_records_walk(
    s: SessionView,
    ids: Vec<String>,
    added: Timespec,
    commit: Seq<char>,
)
    requires
        s.catalog.wf(),
        s.catalog.version >= 3,
        s.phase is Walking,
        s.repo.opened,
    ensures
        transition(s, Event::Oids(ids), added).0.catalog.find_commit(s.repo.id, commit) is Some
            <==> s.catalog.find_commit(s.repo.id, commit) is Some || texts(ids@).contains(commit),
{
    let i = s.phase->Walking_branch as int;
    let listed = texts(ids@);
    lemma_commits_recorded(s.catalog, s.repo.id, listed);
    let catalog = s.catalog.accepted(commit_writes(s.repo.id, listed)).0;
    let mid = SessionView { catalog, ..s };
    if s.command == Command::Fetch {
        lemma_plan_branch_keeps_tables(mid, i + 1, added);
    }
    let post = transition(s, Event::Oids(ids), added).0;
    assert(post.catalog.commits == catalog.commits);
    assert(post.catalog.find_commit(s.repo.id, commit) == catalog.find_commit(s.repo.id, commit));
}

// ---------------------------------------------------------------------------
// Walking a tree
// ---------------------------------------------------------------------------
/// The listing of each directory, by the id of its tree.
pub type Listings = Map<Seq<char>, Seq<TreeEntryView>>;

/// What joins the walk when `entry` is handed out: the named entries of
/// its listing where it is a directory, nothing otherwise.
pub open spec fn entries_below(listings: Listings, entry: RepoTreeEntryView) -> Seq<
    RepoTreeEntryView,
> {
    if entry.entry.kind == Some(ObjectType::Tree) {
        entries_in(listings[entry.entry.id], entry.path)
    } else {
        Seq::empty()
    }
}

/// The walk after its front entry has been handed out.
pub open spec fn walk_on(listings: Listings, walk: Seq<RepoTreeEntryView>) -> Seq<
    RepoTreeEntryView,
> {
    walk.skip(1) + entries_below(listings, walk[0])
}

/// The walk comes to its end within `steps` steps.
pub open spec fn walk_ends(listings: Listings, walk: Seq<RepoTreeEntryView>, steps: nat) -> bool
    decreases steps,
{
    walk.len() == 0 || (steps > 0 && walk_ends(listings, walk_on(listings, walk), (steps - 1) as nat))
}

/// What the walk hands out in `steps` steps, in order.
pub open spec fn handed_out(listings: Listings, walk: Seq<RepoTreeEntryView>, steps: nat) -> Seq<
    RepoTreeEntryView,
>
    decreases steps,
{
    if walk.len() == 0 || steps == 0 {
        Seq::empty()
    } else {
        seq![walk[0]] + handed_out(listings, walk_on(listings, walk), (steps - 1) as nat)
    }
}

/// A walk that is driven to its end, each directory being given its own
/// listing, hands out every entry it started with and, with every
/// directory it hands out, every named entry of that directory: so it hands
/// out the whole tree, each entry under its path.
pub proof fn lemma_walk_hands_out_the_tree(
    listings: Listings,
    walk: Seq<RepoTreeEntryView>,
    steps: nat,
)
    requires
        walk_ends(listings, walk, steps),
    ensures
        forall|k: int|
            0 <= k < walk.len() ==> handed_out(listings, walk, steps).contains(#[trigger] walk[k]),
        forall|entry: RepoTreeEntryView, k: int|
            handed_out(listings, walk, steps).contains(entry) && 0 <= k < entries_below(
                listings,
                entry,
            ).len() ==> handed_out(listings, walk, steps).contains(
                #[trigger] entries_below(listings, entry)[k],
            ),
    decreases steps,
{
    if walk.len() > 0 {
        let rest = walk_on(listings, walk);
        let later = handed_out(listings, rest, (steps - 1) as nat);
        let all = handed_out(listings, walk, steps);
        lemma_walk_hands_out_the_tree(listings, rest, (steps - 1) as nat);
        assert(all[0] == walk[0]);
        assert forall|entry: RepoTreeEntryView| later.contains(entry) implies all.contains(
            entry,
        ) by {
            let i = choose|i: int| 0 <= i < later.len() && later[i] == entry;
            assert(all[i + 1] == entry);
        }
        assert forall|k: int| 0 <= k < walk.len() implies all.contains(#[trigger] walk[k]) by {
            if k > 0 {
                assert(rest[k - 1] == walk[k]);
                assert(later.contains(rest[k - 1]));
            }
        }
        assert forall|entry: RepoTreeEntryView, k: int|
            all.contains(entry) && 0 <= k < entries_below(listings, entry).len() implies all.contains(
            #[trigger] entries_below(listings, entry)[k],
        ) by {
            let below = entries_below(listings, entry);
            if later.contains(entry) {
                assert(later.contains(below[k]));
            } else {
                let i = choose|i: int| 0 <= i < all.len() && all[i] == entry;
                if i > 0 {
                    assert(later[i - 1] == entry);
                }
                assert(entry == walk[0]);
                assert(rest[walk.len() - 1 + k] == below[k]);
                assert(later.contains(rest[walk.len() - 1 + k]));
            }
        }
    }
}

// ---------------------------------------------------------------------------
// Failures, and the order of shipping and marking
// ---------------------------------------------------------------------------
/// A failure that the host reports ends the run with an error of that kind
/// and leaves the catalog as it was: nothing is marked and no watermark
/// moves. So a commit or a file whose shipping failed still waits, and the
/// branch it belongs to is not closed.
pub proof fn lemma_failure_ends_the_run(s: SessionView, error: RepoError, added: Timespec)
    ensures
        transition(s, Event::Failed(error), added) == (
            SessionView { phase: PhaseView::Finished, ..s },
            RequestView::Failed(error.kind()),
        ),
{
}

/// A run that is over stays over: whatever it is told, it asks for nothing
/// more and writes nothing.
pub proof fn lemma_finished_run_writes_nothing(s: SessionView, event: Event, added: Timespec)
    requires
        s.phase == PhaseView::Finished,
    ensures
        transition(s, event, added).0 == s,
        transition(s, event, added).1 is Failed,
{
}

/// A commit is shipped before it is marked. The step that takes in the
/// loaded commit asks for its document to be stored, under the commit's
/// id and with the id of the repository, and leaves the catalog alone; in a
/// run that ships in order it is the first commit that waits.
pub proof fn lemma_commit_is_put_before_its_mark(
    s: SessionView,
    commit: GitCommit,
    added: Timespec,
)
    requires
        s.phase is LoadingCommit,
    ensures
        transition(s, Event::Commit(commit), added).0.catalog == s.catalog,
        match commit_date(commit.time) {
            Some(date) => transition(s, Event::Commit(commit), added) == (
                SessionView {
                    phase: PhaseView::PuttingCommit { commit: s.phase->LoadingCommit_commit },
                    ..s
                },
                RequestView::PutCommit {
                    id: s.commits[s.phase->LoadingCommit_commit as int],
                    commit: commit_doc(s.repo.id, commit@, date),
                },
            ),
            None => transition(s, Event::Commit(commit), added).1 == RequestView::Failed(
                ErrorKind::GitError,
            ),
        },
        orderly(s) ==> s.commits[s.phase->LoadingCommit_commit as int] == commits_wait(s)[0],
{
    if orderly(s) {
        let j = s.phase->LoadingCommit_commit as int;
        assert(s.commits.skip(j)[0] == s.commits[j]);
    }
}

/// The step that hears that the search service has a commit's document
/// marks that commit, and no other row, as indexed.
pub proof fn lemma_commit_is_marked_after_its_put(s: SessionView, added: Timespec)
    requires
        s.phase is PuttingCommit,
        s.catalog.version >= 3,
    ensures
        transition(s, Event::Done, added).0.catalog.commits == s.catalog.commits.map_values(
            commit_marked(s.repo.id, s.commits[s.phase->PuttingCommit_commit as int]),
        ),
        transition(s, Event::Done, added).0.catalog.files == s.catalog.files,
{
    let j = s.phase->PuttingCommit_commit as int;
    let catalog = s.catalog.mark_commit_as_indexed(s.repo.id, s.commits[j])->0;
    lemma_next_commit_earns(SessionView { catalog, ..s }, j + 1);
}

/// A file is shipped before it is marked. The step that takes in the
/// content of a file that is not binary asks for its document to be stored
/// under the id that repository and path give, with the text of the content
/// and the commit that last changed the file, and leaves the catalog alone;
/// in a run that ships in order it is the first file of the branch that
/// waits. A binary file is marked at once and nothing is asked of the
/// search service for it.
pub proof fn lemma_file_is_put_before_its_mark(
    s: SessionView,
    blob: Blob,
    changed: GitTime,
    added: Timespec,
)
    requires
        s.phase is LoadingBlob,
    ensures
        !blob.binary ==> transition(s, Event::Blob { blob, changed }, added) == (
            SessionView {
                phase: PhaseView::PuttingFile {
                    branch: s.phase->LoadingBlob_branch,
                    file: s.phase->LoadingBlob_file,
                },
                ..s
            },
            RequestView::PutFile {
                id: file_id_of(s.repo.id, s.files[s.phase->LoadingBlob_file as int].path),
                file: file_doc(
                    s.repo.id,
                    s.files[s.phase->LoadingBlob_file as int].path,
                    blob_text(blob@.content),
                    s.files[s.phase->LoadingBlob_file as int].changed_commit_id,
                    commit_date(changed),
                ),
            },
        ),
        blob.binary ==> !(transition(s, Event::Blob { blob, changed }, added).1 is PutFile),
        orderly(s) ==> s.files[s.phase->LoadingBlob_file as int] == files_wait(
            s,
            s.phase->LoadingBlob_branch as int,
        )[0],
{
    let i = s.phase->LoadingBlob_branch as int;
    let k = s.phase->LoadingBlob_file as int;
    if orderly(s) {
        assert(s.files.skip(k)[0] == s.files[k]);
    }
    if blob.binary {
        match file_marked_in(s, k) {
            Some(catalog) => {
                lemma_next_file_sends_no_file(SessionView { catalog, ..s }, i, k + 1);
            },
            None => {},
        }
    }
}

proof fn lemma_index_branch_sends_no_file(s: SessionView, i: int)
    ensures
        !(index_branch(s, i).1 is PutFile),
        !(index_branch(s, i).1 is PutCommit),
    decreases s.repo.branches.len() - i,
{
    if 0 <= i < s.repo.branches.len() && s.catalog.version >= 4 {
        let files = branch_files_not_indexed(s.catalog, s.repo.id, s.branch(i));
        let mid = SessionView { files, ..s };
        if files.len() == 0 && s.repo.opened {
            lemma_index_branch_sends_no_file(
                SessionView { catalog: closed_branch(mid, i), ..mid },
                i + 1,
            );
        }
    }
}

proof fn lemma_next_file_sends_no_file(s: SessionView, i: int, k: int)
    ensures
        !(next_file(s, i, k).1 is PutFile),
        !(next_file(s, i, k).1 is PutCommit),
{
    if k >= s.files.len() && s.repo.opened && s.catalog.version >= 4 {
        lemma_index_branch_sends_no_file(SessionView { catalog: closed_branch(s, i), ..s }, i + 1);
    }
}

// ---------------------------------------------------------------------------
// A run that ends well leaves every branch marked at its tip
// ---------------------------------------------------------------------------
/// The catalog has a row for the branch.
pub open spec fn has_branch(catalog: Catalog, repo_id: Seq<char>, name: Seq<char>) -> bool {
    exists|k: int|
        0 <= k < catalog.branches.len() && (#[trigger] catalog.branches[k]).repo_id == repo_id
            && catalog.branches[k].name == name
}

/// The catalog has a row for every branch whose tip is known.
pub open spec fn rows_exist(s: SessionView) -> bool {
    forall|b: int| 0 <= b < s.tips.len() ==> has_branch(s.catalog, s.repo.id, #[trigger] s.branch(b))
}

/// `commit` is the tip of branch `c`, which goes by the name `name`.
pub open spec fn tip_of(s: SessionView, c: int, name: Seq<char>, commit: Option<Seq<char>>)
    -> bool {
    0 <= c < s.tips.len() && c < s.repo.branches.len() && s.branch(c) == name && commit == Some(
        s.tips[c],
    )
}

/// Every row of the repository's branch of that name is marked as indexed
/// at the tip of a branch of that name.
pub open spec fn marked_at_tip(s: SessionView, name: Seq<char>) -> bool {
    forall|k: int|
        0 <= k < s.catalog.branches.len() && (#[trigger] s.catalog.branches[k]).repo_id
            == s.repo.id && s.catalog.branches[k].name == name ==> exists|c: int| #[trigger]
            tip_of(s, c, name, s.catalog.branches[k].indexed_commit_id)
}

/// The branches before `upto` are marked at their tips.
pub open spec fn marked_upto(s: SessionView, upto: int) -> bool {
    forall|b: int|
        0 <= b < upto && b < s.repo.branches.len() ==> marked_at_tip(s, #[trigger] s.branch(b))
}

/// What a run keeps of the branches while it is under way: the catalog has
/// a row for every branch whose tip is known, and while the files of a
/// branch are shipped, the branches before it are marked at their tips.
pub open spec fn tidy(s: SessionView) -> bool {
    s.phase != PhaseView::Finished ==> rows_exist(s) && match s.phase {
        PhaseView::LoadingBlob { branch, file } => marked_upto(s, branch as int),
        PhaseView::PuttingFile { branch, file } => marked_upto(s, branch as int),
        _ => true,
    }
}

/// What closing and shipping come to for the marks of the branches.
pub open spec fn marks_on(s: SessionView, outcome: (SessionView, RequestView)) -> bool {
    let (post, request) = outcome;
    &&& tidy(post)
    &&& post.tips == s.tips
    &&& post.repo == s.repo
    &&& (request is Done ==> rows_exist(post) && marked_upto(post, s.repo.branches.len() as int))
}

/// Writes that drop no table leave every branch that has a row with one.
pub proof fn lemma_branches_stay(
    catalog: Catalog,
    writes: Seq<DbWriteView>,
    repo_id: Seq<char>,
    name: Seq<char>,
)
    requires
        has_branch(catalog, repo_id, name),
        forall|k: int| 0 <= k < writes.len() ==> !(#[trigger] writes[k] is Down),
    ensures
        has_branch(catalog.accepted(writes).0, repo_id, name),
    decreases writes.len(),
{
    if writes.len() > 0 {
        let front = writes.drop_last();
        assert forall|k: int| 0 <= k < front.len() implies !(#[trigger] front[k] is Down) by {
            assert(front[k] == writes[k]);
        }
        lemma_branches_stay(catalog, front, repo_id, name);
        let (mid, count) = catalog.accepted(front);
        let last = writes.last();
        assert(last == writes[writes.len() - 1]);
        let after = catalog.accepted(writes).0;
        let k = choose|k: int|
            0 <= k < mid.branches.len() && (#[trigger] mid.branches[k]).repo_id == repo_id
                && mid.branches[k].name == name;
        if count == writes.len() - 1 && mid.apply(last) is Some {
            assert(after == mid.apply(last)->0);
            match last {
                DbWriteView::InsertBranch(entered) => {
                    assert(after.branches[k] == mid.branches[k]);
                },
                DbWriteView::MarkBranchIndexed { repo_id: r, name: n, commit_id } => {
                    assert(after.branches[k] == branch_marked(r, n, commit_id)(mid.branches[k]));
                },
                _ => {
                    assert(after.branches == mid.branches);
                },
            }
            assert(after.branches[k].repo_id == repo_id && after.branches[k].name == name);
        } else {
            assert(after == mid);
        }
    }
}

proof fn lemma_rows_carry(s: SessionView, next: SessionView)
    requires
        rows_exist(s),
        next.repo == s.repo,
        next.tips == s.tips,
        next.catalog.branches == s.catalog.branches,
    ensures
        rows_exist(next),
{
    assert forall|b: int| 0 <= b < next.tips.len() implies has_branch(
        next.catalog,
        next.repo.id,
        #[trigger] next.branch(b),
    ) by {
        assert(has_branch(s.catalog, s.repo.id, s.branch(b)));
        let k = choose|k: int|
            0 <= k < s.catalog.branches.len() && (#[trigger] s.catalog.branches[k]).repo_id
                == s.repo.id && s.catalog.branches[k].name == s.branch(b);
        assert(next.catalog.branches[k] == s.catalog.branches[k]);
    }
}

proof fn lemma_marks_carry(s: SessionView, next: SessionView, upto: int)
    requires
        marked_upto(s, upto),
        next.repo == s.repo,
        next.tips == s.tips,
        next.catalog.branches == s.catalog.branches,
    ensures
        marked_upto(next, upto),
{
    assert forall|b: int| 0 <= b < upto && b < next.repo.branches.len() implies marked_at_tip(
        next,
        #[trigger] next.branch(b),
    ) by {
        assert(marked_at_tip(s, s.branch(b)));
        assert forall|k: int|
            0 <= k < next.catalog.branches.len() && (#[trigger] next.catalog.branches[k]).repo_id
                == next.repo.id && next.catalog.branches[k].name == next.branch(
                b,
            ) implies exists|c: int| #[trigger]
            tip_of(next, c, next.branch(b), next.catalog.branches[k].indexed_commit_id) by {
            let row = s.catalog.branches[k];
            let c = choose|c: int| #[trigger] tip_of(s, c, s.branch(b), row.indexed_commit_id);
            assert(tip_of(next, c, next.branch(b), next.catalog.branches[k].indexed_commit_id));
        }
    }
}

/// Closing a branch of which nothing waits marks it at its tip, and keeps
/// the branches before it marked at theirs.
proof fn lemma_closing_marks(s: SessionView, i: int)
    requires
        0 <= i < s.repo.branches.len(),
        s.tips.len() == s.repo.branches.len(),
        s.catalog.version >= 4,
        branch_is_clean(s.catalog, s.repo.id, s.branch(i)),
        rows_exist(s),
        marked_upto(s, i),
    ensures
        rows_exist(SessionView { catalog: closed_branch(s, i), ..s }),
        marked_upto(SessionView { catalog: closed_branch(s, i), ..s }, i + 1),
{
    let next = SessionView { catalog: closed_branch(s, i), ..s };
    let marked = branch_marked(s.repo.id, s.branch(i), s.tips[i]);
    assert(next.catalog.branches == s.catalog.branches.map_values(marked));
    assert forall|b: int| 0 <= b < next.tips.len() implies has_branch(
        next.catalog,
        next.repo.id,
        #[trigger] next.branch(b),
    ) by {
        assert(has_branch(s.catalog, s.repo.id, s.branch(b)));
        let k = choose|k: int|
            0 <= k < s.catalog.branches.len() && (#[trigger] s.catalog.branches[k]).repo_id
                == s.repo.id && s.catalog.branches[k].name == s.branch(b);
        assert(next.catalog.branches[k] == marked(s.catalog.branches[k]));
    }
    assert forall|b: int| 0 <= b < i + 1 && b < next.repo.branches.len() implies marked_at_tip(
        next,
        #[trigger] next.branch(b),
    ) by {
        assert forall|k: int|
            0 <= k < next.catalog.branches.len() && (#[trigger] next.catalog.branches[k]).repo_id
                == next.repo.id && next.catalog.branches[k].name == next.branch(
                b,
            ) implies exists|c: int| #[trigger]
            tip_of(next, c, next.branch(b), next.catalog.branches[k].indexed_commit_id) by {
            let before = s.catalog.branches[k];
            assert(next.catalog.branches[k] == marked(before));
            if before.repo_id == s.repo.id && before.name == s.branch(i) {
                assert(tip_of(next, i, next.branch(b), next.catalog.branches[k].indexed_commit_id));
            } else {
                assert(b < i);
                assert(marked_at_tip(s, s.branch(b)));
                let c = choose|c: int| #[trigger]
                    tip_of(s, c, s.branch(b), before.indexed_commit_id);
                assert(tip_of(next, c, next.branch(b), next.catalog.branches[k].indexed_commit_id));
            }
        }
    }
}

proof fn lemma_index_branch_marks(s: SessionView, i: int)
    requires
        s.catalog.wf(),
        s.command == Command::Index,
        s.tips.len() == s.repo.branches.len(),
        0 <= i,
        commits_wait(s).len() == 0,
        branches_done(s, i),
        rows_exist(s),
        marked_upto(s, i),
    ensures
        marks_on(s, index_branch(s, i)),
    decreases s.repo.branches.len() - i,
{
    let (post, request) = index_branch(s, i);
    if i >= s.repo.branches.len() {
        lemma_rows_carry(s, post);
        lemma_marks_carry(s, post, s.repo.branches.len() as int);
    } else if s.catalog.version >= 4 {
        let files = branch_files_not_indexed(s.catalog, s.repo.id, s.branch(i));
        let mid = SessionView { files, ..s };
        if files.len() > 0 {
            lemma_rows_carry(s, post);
            lemma_marks_carry(s, post, i);
        } else if s.repo.opened {
            lemma_rows_carry(s, mid);
            lemma_marks_carry(s, mid, i);
            lemma_closing_marks(mid, i);
            let marked = DbWriteView::MarkBranchIndexed {
                repo_id: s.repo.id,
                name: s.branch(i),
                commit_id: s.tips[i],
            };
            lemma_apply_keeps_wf(s.catalog, marked);
            let next = SessionView { catalog: closed_branch(mid, i), ..mid };
            assert(next.catalog.files == s.catalog.files);
            assert(next.catalog.commits == s.catalog.commits);
            assert forall|b: int| 0 <= b < i + 1 && b < next.repo.branches.len() implies (#[trigger] files_wait(
                next,
                b,
            )).len() == 0 by {
                if b < i {
                    assert(files_wait(s, b).len() == 0);
                }
            }
            lemma_index_branch_marks(next, i + 1);
        }
    }
}

proof fn lemma_next_file_marks(s: SessionView, i: int, k: int)
    requires
        s.catalog.wf(),
        s.command == Command::Index,
        s.tips.len() == s.repo.branches.len(),
        0 <= i < s.repo.branches.len(),
        0 <= k <= s.files.len(),
        commits_wait(s).len() == 0,
        files_wait(s, i) == s.files.skip(k),
        branches_done(s, i),
        rows_exist(s),
        marked_upto(s, i),
    ensures
        marks_on(s, next_file(s, i, k)),
{
    let (post, request) = next_file(s, i, k);
    if k < s.files.len() {
        lemma_rows_carry(s, post);
        lemma_marks_carry(s, post, i);
    } else if s.repo.opened && s.catalog.version >= 4 {
        lemma_closing_marks(s, i);
        let marked = DbWriteView::MarkBranchIndexed {
            repo_id: s.repo.id,
            name: s.branch(i),
            commit_id: s.tips[i],
        };
        lemma_apply_keeps_wf(s.catalog, marked);
        let next = SessionView { catalog: closed_branch(s, i), ..s };
        assert(next.catalog.files == s.catalog.files);
        assert(next.catalog.commits == s.catalog.commits);
        assert forall|b: int| 0 <= b < i + 1 && b < next.repo.branches.len() implies (#[trigger] files_wait(
            next,
            b,
        )).len() == 0 by {
            if b < i {
                assert(files_wait(s, b).len() == 0);
            } else {
                assert(files_wait(s, i).len() == 0);
            }
        }
        lemma_index_branch_marks(next, i + 1);
    }
}

proof fn lemma_next_commit_marks(s: SessionView, j: int)
    requires
        s.catalog.wf(),
        s.command == Command::Index,
        s.tips.len() == s.repo.branches.len(),
        0 <= j <= s.commits.len(),
        commits_wait(s) == s.commits.skip(j),
        rows_exist(s),
    ensures
        marks_on(s, next_commit(s, j)),
        marks_on(s, next_removal(s, 0)) || j < s.commits.len(),
{
    if j >= s.commits.len() {
        lemma_next_removal_marks(s, 0);
    } else {
        lemma_rows_carry(s, next_commit(s, j).0);
    }
}

proof fn lemma_next_removal_marks(s: SessionView, d: int)
    requires
        s.catalog.wf(),
        s.command == Command::Index,
        s.tips.len() == s.repo.branches.len(),
        0 <= d,
        commits_wait(s).len() == 0,
        rows_exist(s),
    ensures
        marks_on(s, next_removal(s, d)),
{
    if d >= s.removals.len() {
        lemma_index_branch_marks(s, 0);
    } else {
        lemma_rows_carry(s, next_removal(s, d).0);
    }
}

/// What going on with the planning comes to for the marks of the branches.
pub open spec fn plans_marks(s: SessionView, outcome: (SessionView, RequestView)) -> bool {
    let (post, request) = outcome;
    &&& tidy(post)
    &&& (request is Done && s.command == Command::Index ==> rows_exist(post) && marked_upto(
        post,
        post.repo.branches.len() as int,
    ) && post.tips.len() == post.repo.branches.len())
}

proof fn lemma_plan_branch_marks(s: SessionView, i: int, added: Timespec)
    requires
        s.catalog.wf(),
        0 <= i,
        s.tips.len() == i,
        s.tips.len() <= s.repo.branches.len(),
        rows_exist(s),
    ensures
        plans_marks(s, plan_branch(s, i, added)),
{
    let (post, request) = plan_branch(s, i, added);
    if i >= s.repo.branches.len() {
        lemma_sync_keeps_queues(s.repo, s.catalog, added);
        let writes = sync_writes(s.repo, s.catalog, added);
        lemma_sync_drops_no_table(s.repo, s.catalog, added);
        match sync_repo(s, added) {
            Ok(mid) => {
                assert forall|b: int| 0 <= b < mid.tips.len() implies has_branch(
                    mid.catalog,
                    mid.repo.id,
                    #[trigger] mid.branch(b),
                ) by {
                    assert(has_branch(s.catalog, s.repo.id, s.branch(b)));
                    lemma_branches_stay(s.catalog, writes, s.repo.id, s.branch(b));
                }
                if s.command == Command::Index && mid.catalog.version >= 3 {
                    let started = SessionView {
                        commits: mid.catalog.commits_not_indexed(mid.repo.id),
                        ..mid
                    };
                    assert(started.commits.skip(0) =~= started.commits);
                    lemma_rows_carry(mid, started);
                    lemma_next_commit_marks(started, 0);
                }
            },
            Err(failed) => {},
        }
    } else {
        lemma_rows_carry(s, post);
    }
}

proof fn lemma_sync_drops_no_table(repo: RepoView, catalog: Catalog, added: Timespec)
    ensures
        forall|k: int|
            0 <= k < sync_writes(repo, catalog, added).len() ==> !(#[trigger] sync_writes(
                repo,
                catalog,
                added,
            )[k] is Down),
{
    let writes = sync_writes(repo, catalog, added);
    assert forall|k: int| 0 <= k < writes.len() implies !(#[trigger] writes[k] is Down) by {
        if catalog.find_repo_by_remote(repo.uri) is None {
            let row = Repository::fresh(repo.id, repo.uri, repo.path, added);
            let created = creation_writes(row, names_of(repo.branches));
            if k == 0 {
                assert(writes[k] == DbWriteView::InsertRepo(row));
            } else if k < created.len() {
                assert(writes[k] == created[k]);
                assert(created[k] is InsertBranch);
            } else {
                assert(writes[k] is UpdateRepo);
            }
        } else {
            assert(writes[k] is UpdateRepo);
        }
    }
}

/// A run keeps its branches in order from its first step to its last.
/// Where an indexing run ends well, the catalog has a row for each of its
/// branches, and the row is marked as indexed at the tip of that branch
/// (of the last branch of that name, where a name is given twice): the
/// watermark stands at the tip, whether or not the tip descends from where
/// it stood before.
pub proof fn lemma_run_stays_tidy(s: SessionView, event: Event, added: Timespec)
    requires
        orderly(s),
        tidy(s),
        ships_files(s) ==> paths_agree(s.catalog, s.repo.id),
    ensures
        tidy(transition(s, event, added).0),
        transition(s, event, added).1 is Done && s.command == Command::Index ==> rows_exist(
            transition(s, event, added).0,
        ) && marked_upto(
            transition(s, event, added).0,
            transition(s, event, added).0.repo.branches.len() as int,
        ) && transition(s, event, added).0.tips.len() == transition(
            s,
            event,
            added,
        ).0.repo.branches.len(),
{
    let (post, request) = transition(s, event, added);
    match event {
        Event::Failed(error) => {},
        Event::Exists(found) => {
            if s.phase == PhaseView::Probing {
                assert(post.tips.len() == 0);
            }
        },
        Event::Done => {
            match s.phase {
                PhaseView::Cloning => {
                    let opened = SessionView {
                        repo: RepoView { sync_state: SyncState::Cloned, opened: true, ..s.repo },
                        ..s
                    };
                    assert(opened.tips.len() == 0);
                    lemma_plan_branch_marks(opened, 0, added);
                },
                PhaseView::Opening => {
                    assert(post.tips.len() == 0);
                },
                PhaseView::Fetching => {
                    lemma_plan_branch_marks(s, 0, added);
                    assert(post.tips.len() == 0 || post == plan_branch(s, 0, added).0);
                },
                PhaseView::Repointing { branch } => {
                    lemma_plan_branch_marks(s, 0, added);
                    assert(post.tips.len() == 0 || post == plan_branch(s, 0, added).0);
                },
                PhaseView::PuttingCommit { commit } => {
                    let j = commit as int;
                    let kept = s.catalog.commits.filter(commit_is_pending(s.repo.id));
                    assert(s.commits.skip(j).len() > 0);
                    assert(commits_wait(s) == kept.map_values(commit_id()));
                    assert(kept.len() > 0);
                    s.catalog.commits.lemma_filter_len(commit_is_pending(s.repo.id));
                    assert(commits_wait(s)[0] == s.commits[j]);
                    lemma_mark_commit_drains(s.catalog, s.repo.id);
                    let catalog = s.catalog.mark_commit_as_indexed(s.repo.id, s.commits[j])->0;
                    let next = SessionView { catalog, ..s };
                    assert(commits_wait(next) =~= s.commits.skip(j + 1));
                    lemma_rows_carry(s, next);
                    lemma_next_commit_marks(next, j + 1);
                },
                PhaseView::Deleting { removal } => {
                    lemma_next_removal_marks(s, removal as int + 1);
                },
                PhaseView::PuttingFile { branch, file } => {
                    lemma_file_marked_tidy(s, branch as int, file as int);
                },
                _ => {},
            }
        },
        Event::Oid(tip) => {
            match s.phase {
                PhaseView::ResolvingTip { branch } => {
                    let i = branch as int;
                    let mid = SessionView { tips: s.tips.push(tip@), ..s };
                    if post.phase != PhaseView::Finished {
                        lemma_find_first(s.catalog.branches, branch_is(s.repo.id, s.branch(i)));
                        let row = s.catalog.find_branch(s.repo.id, s.branch(i))->0;
                        let k = choose|k: int|
                            0 <= k < s.catalog.branches.len() && s.catalog.branches[k] == row;
                        assert(s.catalog.branches[k].repo_id == s.repo.id);
                        assert forall|b: int| 0 <= b < post.tips.len() implies has_branch(
                            post.catalog,
                            post.repo.id,
                            #[trigger] post.branch(b),
                        ) by {
                            if b < s.tips.len() {
                                assert(has_branch(s.catalog, s.repo.id, s.branch(b)));
                            } else {
                                assert(b == i);
                            }
                        }
                    }
                },
                _ => {},
            }
        },
        Event::Oids(ids) => {
            match s.phase {
                PhaseView::MergingBases { branch } => {
                    lemma_rows_carry(s, post);
                },
                PhaseView::Walking { branch } => {
                    lemma_plans_leave_branches(
                        s.catalog,
                        s.repo.id,
                        s.branch(branch as int),
                        s.tips[branch as int],
                        texts(ids@),
                        Seq::empty(),
                        Seq::empty(),
                    );
                    let catalog = s.catalog.accepted(commit_writes(s.repo.id, texts(ids@))).0;
                    let mid = SessionView { catalog, ..s };
                    lemma_rows_carry(s, mid);
                    lemma_plan_branch_marks(mid, branch as int + 1, added);
                    if post.phase is PlanningTree {
                        lemma_rows_carry(s, post);
                    }
                },
                _ => {},
            }
        },
        Event::Tree(entries) => {
            match s.phase {
                PhaseView::PlanningTree { branch } => {
                    lemma_plans_leave_branches(
                        s.catalog,
                        s.repo.id,
                        s.branch(branch as int),
                        s.tips[branch as int],
                        Seq::empty(),
                        views(entries@),
                        Seq::empty(),
                    );
                    let catalog = s.catalog.accepted(
                        tree_writes(
                            s.repo.id,
                            s.branch(branch as int),
                            s.tips[branch as int],
                            views(entries@),
                        ),
                    ).0;
                    let mid = SessionView { catalog, ..s };
                    lemma_rows_carry(s, mid);
                    lemma_plan_branch_marks(mid, branch as int + 1, added);
                },
                _ => {},
            }
        },
        Event::Deltas(deltas) => {
            match s.phase {
                PhaseView::PlanningTree { branch } => {
                    lemma_plans_leave_branches(
                        s.catalog,
                        s.repo.id,
                        s.branch(branch as int),
                        s.tips[branch as int],
                        Seq::empty(),
                        Seq::empty(),
                        views(deltas@),
                    );
                    let catalog = s.catalog.accepted(
                        diff_writes(
                            s.repo.id,
                            s.branch(branch as int),
                            s.tips[branch as int],
                            views(deltas@),
                        ),
                    ).0;
                    let mid = SessionView {
                        catalog,
                        removals: s.removals + removed_paths(views(deltas@)),
                        ..s
                    };
                    lemma_rows_carry(s, mid);
                    lemma_plan_branch_marks(mid, branch as int + 1, added);
                },
                _ => {},
            }
        },
        Event::Commit(commit) => {
            match s.phase {
                PhaseView::LoadingCommit { commit: j } => {
                    lemma_rows_carry(s, SessionView { phase: post.phase, ..s });
                },
                _ => {},
            }
        },
        Event::Blob { blob, changed } => {
            match s.phase {
                PhaseView::LoadingBlob { branch, file } => {
                    if blob.binary {
                        lemma_file_marked_tidy(s, branch as int, file as int);
                    } else {
                        lemma_rows_carry(s, post);
                        lemma_marks_carry(s, post, branch as int);
                    }
                },
                _ => {},
            }
        },
    }
}

proof fn lemma_file_marked_tidy(s: SessionView, i: int, k: int)
    requires
        orderly(s),
        tidy(s),
        s.phase == (PhaseView::PuttingFile { branch: i as nat, file: k as nat }) || s.phase == (
        PhaseView::LoadingBlob { branch: i as nat, file: k as nat }),
        0 <= i,
        0 <= k,
        paths_agree(s.catalog, s.repo.id),
    ensures
        file_marked_in(s, k) is Some,
        marks_on(s, next_file(SessionView { catalog: file_marked_in(s, k)->0, ..s }, i, k + 1)),
{
    let waiting = s.catalog.files.filter(file_is_pending(s.repo.id));
    assert(s.files.skip(k).len() > 0);
    assert(files_wait(s, i) == waiting.filter(on_branch(s.branch(i))));
    waiting.lemma_filter_len(on_branch(s.branch(i)));
    s.catalog.files.lemma_filter_len(file_is_pending(s.repo.id));
    assert(s.catalog.files.len() > 0);
    assert(files_wait(s, i)[0] == s.files[k]);
    lemma_mark_file_drains(s.catalog, s.repo.id, s.branch(i));
    let catalog = file_marked_in(s, k)->0;
    let next = SessionView { catalog, ..s };
    assert(files_wait(next, i) =~= s.files.skip(k + 1));
    assert forall|b: int| 0 <= b < i && b < next.repo.branches.len() implies (#[trigger] files_wait(
        next,
        b,
    )).len() == 0 by {
        assert(files_wait(s, b).len() == 0);
        assert(branch_files_not_indexed(catalog, s.repo.id, s.branch(b)).len() == 0);
    }
    lemma_rows_carry(s, next);
    lemma_marks_carry(s, next, i);
    lemma_next_file_marks(next, i, k + 1);
}

/// A run that begins with a well-formed catalog keeps its branches in
/// order all along. Where it is an indexing run that ends well, every one of
/// its branches has a row in the catalog, marked as indexed at the tip that
/// the run was told for a branch of that name.
pub proof fn lemma_run_ends_with_watermarks_at_tips(start: SessionView, steps: Seq<Happening>)
    requires
        begins(start),
        paths_stay_agreed(start, steps),
    ensures
        tidy(state_after(start, steps)),
        steps.len() > 0 && request_after(start, steps) is Done && start.command == Command::Index
            ==> forall|b: int|
            0 <= b < start.repo.branches.len() ==> has_branch(
                state_after(start, steps).catalog,
                start.repo.id,
                #[trigger] start.repo.branches[b].name,
            ) && marked_at_tip(state_after(start, steps), start.repo.branches[b].name),
    decreases steps.len(),
{
    if steps.len() > 0 {
        let front = steps.drop_last();
        assert forall|k: int|
            0 <= k < front.len() && ships_files(
                #[trigger] state_after(start, front.take(k)),
            ) implies paths_agree(state_after(start, front.take(k)).catalog, start.repo.id) by {
            assert(front.take(k) == steps.take(k));
        }
        lemma_run_ends_with_watermarks_at_tips(start, front);
        lemma_run_is_orderly(start, front);
        let before = state_after(start, front);
        assert(steps.take(steps.len() - 1) == front);
        lemma_run_stays_tidy(before, steps.last().0, steps.last().1);
        lemma_step_keeps_repository(before, steps.last().0, steps.last().1);
        let end = state_after(start, steps);
        if request_after(start, steps) is Done && start.command == Command::Index {
            assert forall|b: int| 0 <= b < start.repo.branches.len() implies has_branch(
                end.catalog,
                start.repo.id,
                #[trigger] start.repo.branches[b].name,
            ) && marked_at_tip(end, start.repo.branches[b].name) by {
                assert(has_branch(end.catalog, end.repo.id, end.branch(b)));
                assert(marked_at_tip(end, end.branch(b)));
            }
        }
    }
}

// ---------------------------------------------------------------------------
// What is indexed stays indexed
// ---------------------------------------------------------------------------
/// Every commit that was indexed is still in the catalog, and still
/// indexed.
pub open spec fn commits_stay(before: Catalog, after: Catalog) -> bool {
    forall|row: RepoCommitView|
        before.commits.contains(row) && row.state == CommitState::Indexed
            ==> #[trigger] after.commits.contains(row)
}

proof fn lemma_upserts_leave_commits(
    catalog: Catalog,
    repo_id: Seq<char>,
    branch: Seq<char>,
    tip: Seq<char>,
    entries: Seq<RepoTreeEntryView>,
    deltas: Seq<DeltaView>,
)
    ensures
        catalog.accepted(tree_writes(repo_id, branch, tip, entries)).0.commits == catalog.commits,
        catalog.accepted(diff_writes(repo_id, branch, tip, deltas)).0.commits == catalog.commits,
{
    let tree = tree_writes(repo_id, branch, tip, entries);
    assert forall|k: int| 0 <= k < tree.len() implies !touches_commits(#[trigger] tree[k]) by {
        assert(tree[k] == entry_write(repo_id, branch, tip)(entries.filter(is_blob_entry())[k]));
    }
    lemma_untouched_tables(catalog, tree);
    let diff = diff_writes(repo_id, branch, tip, deltas);
    assert forall|k: int| 0 <= k < diff.len() implies !touches_commits(#[trigger] diff[k]) by {
        assert(diff[k] == delta_write(repo_id, branch, tip)(deltas.filter(has_content())[k]));
    }
    lemma_untouched_tables(catalog, diff);
}

/// No step of a run takes a commit out of the catalog or sets it back: a
/// commit that is indexed stays indexed, whatever the remote does to its
/// history. Since only commits that wait are shipped, a commit that is
/// indexed is not shipped again.
pub proof fn lemma_indexed_commits_stay(s: SessionView, event: Event, added: Timespec)
    requires
        s.catalog.wf(),
    ensures
        commits_stay(s.catalog, transition(s, event, added).0.catalog),
{
    let post = transition(s, event, added).0;
    match event {
        Event::Exists(found) => {
            if s.phase == PhaseView::Probing {
                let probed = SessionView {
                    repo: RepoView { sync_state: probed_state(s.repo.sync_state, found), ..s.repo },
                    ..s
                };
                lemma_sync_keeps_queues(probed.repo, probed.catalog, added);
            }
        },
        Event::Done => {
            match s.phase {
                PhaseView::Cloning => {
                    lemma_plan_branch_keeps_tables(
                        SessionView {
                            repo: RepoView {
                                sync_state: SyncState::Cloned,
                                opened: true,
                                ..s.repo
                            },
                            ..s
                        },
                        0,
                        added,
                    );
                },
                PhaseView::Fetching => {
                    lemma_plan_branch_keeps_tables(s, 0, added);
                },
                PhaseView::Repointing { branch } => {
                    lemma_plan_branch_keeps_tables(s, 0, added);
                },
                PhaseView::PuttingCommit { commit } => {
                    let id = s.commits[commit as int];
                    match s.catalog.mark_commit_as_indexed(s.repo.id, id) {
                        Some(catalog) => {
                            lemma_next_commit_earns(SessionView { catalog, ..s }, commit as int + 1);
                            assert forall|row: RepoCommitView|
                                s.catalog.commits.contains(row) && row.state
                                    == CommitState::Indexed implies #[trigger] post.catalog.commits.contains(
                                row,
                            ) by {
                                let k = choose|k: int|
                                    0 <= k < s.catalog.commits.len() && s.catalog.commits[k] == row;
                                assert(catalog.commits[k] == commit_marked(s.repo.id, id)(row));
                                assert(catalog.commits[k] == row);
                            }
                        },
                        None => {},
                    }
                },
                PhaseView::Deleting { removal } => {
                    lemma_next_removal_earns(s, removal as int + 1);
                },
                PhaseView::PuttingFile { branch, file } => {
                    match file_marked_in(s, file as int) {
                        Some(catalog) => {
                            lemma_next_file_earns(
                                SessionView { catalog, ..s },
                                branch as int,
                                file as int + 1,
                            );
                        },
                        None => {},
                    }
                },
                _ => {},
            }
        },
        Event::Oids(ids) => {
            match s.phase {
                PhaseView::Walking { branch } => {
                    if s.repo.opened {
                        let writes = commit_writes(s.repo.id, texts(ids@));
                        let catalog = s.catalog.accepted(writes).0;
                        lemma_accepted_keeps_wf(s.catalog, writes);
                        lemma_commit_writes_keep_rows(s.catalog, s.repo.id, texts(ids@));
                        lemma_plan_branch_keeps_tables(
                            SessionView { catalog, ..s },
                            branch as int + 1,
                            added,
                        );
                        assert(post.catalog.commits == catalog.commits);
                    }
                },
                _ => {},
            }
        },
        Event::Tree(entries) => {
            match s.phase {
                PhaseView::PlanningTree { branch } => {
                    let i = branch as int;
                    lemma_upserts_leave_commits(
                        s.catalog,
                        s.repo.id,
                        s.branch(i),
                        s.tips[i],
                        views(entries@),
                        Seq::empty(),
                    );
                    let writes = tree_writes(s.repo.id, s.branch(i), s.tips[i], views(entries@));
                    lemma_accepted_keeps_wf(s.catalog, writes);
                    lemma_plan_branch_keeps_tables(
                        SessionView { catalog: s.catalog.accepted(writes).0, ..s },
                        i + 1,
                        added,
                    );
                },
                _ => {},
            }
        },
        Event::Deltas(deltas) => {
            match s.phase {
                PhaseView::PlanningTree { branch } => {
                    let i = branch as int;
                    lemma_upserts_leave_commits(
                        s.catalog,
                        s.repo.id,
                        s.branch(i),
                        s.tips[i],
                        Seq::empty(),
                        views(deltas@),
                    );
                    let writes = diff_writes(s.repo.id, s.branch(i), s.tips[i], views(deltas@));
                    lemma_accepted_keeps_wf(s.catalog, writes);
                    lemma_plan_branch_keeps_tables(
                        SessionView {
                            catalog: s.catalog.accepted(writes).0,
                            removals: s.removals + removed_paths(views(deltas@)),
                            ..s
                        },
                        i + 1,
                        added,
                    );
                },
                _ => {},
            }
        },
        Event::Blob { blob, changed } => {
            match s.phase {
                PhaseView::LoadingBlob { branch, file } => {
                    if blob.binary {
                        match file_marked_in(s, file as int) {
                            Some(catalog) => {
                                lemma_next_file_earns(
                                    SessionView { catalog, ..s },
                                    branch as int,
                                    file as int + 1,
                                );
                            },
                            None => {},
                        }
                    }
                },
                _ => {},
            }
        },
        _ => {},
    }
}

/// The writes that record the commits of a walk, as far as they are
/// accepted, leave every row that was there as it was.
proof fn lemma_commit_writes_keep_rows(catalog: Catalog, repo_id: Seq<char>, ids: Seq<Seq<char>>)
    requires
        catalog.wf(),
    ensures
        forall|row: RepoCommitView|
            catalog.commits.contains(row) ==> #[trigger] catalog.accepted(
                commit_writes(repo_id, ids),
            ).0.commits.contains(row),
{
    if catalog.version >= 3 {
        lemma_commits_recorded(catalog, repo_id, ids);
    } else {
        let writes = commit_writes(repo_id, ids);
        lemma_nothing_accepted(catalog, writes);
    }
}

/// Where the first write is refused, or there is none, the catalog stays
/// as it is.
proof fn lemma_nothing_accepted(catalog: Catalog, writes: Seq<DbWriteView>)
    requires
        writes.len() > 0 ==> catalog.apply(writes[0]) is None,
    ensures
        catalog.accepted(writes).0 == catalog,
        catalog.accepted(writes).1 == 0,
    decreases writes.len(),
{
    if writes.len() > 0 {
        let front = writes.drop_last();
        if front.len() > 0 {
            assert(front[0] == writes[0]);
        }
        lemma_nothing_accepted(catalog, front);
        if front.len() == 0 {
            assert(writes.last() == writes[0]);
        }
    }
}

// ---------------------------------------------------------------------------
// What is indexed was shipped
// ---------------------------------------------------------------------------
/// The commit is in the catalog, as indexed.
pub open spec fn is_indexed(catalog: Catalog, repo_id: Seq<char>, id: Seq<char>) -> bool {
    exists|k: int|
        0 <= k < catalog.commits.len() && (#[trigger] catalog.commits[k]).repo_id == repo_id
            && catalog.commits[k].id == id && catalog.commits[k].state == CommitState::Indexed
}

/// The request asks for the document of the commit to be stored.
pub open spec fn puts_commit(request: RequestView, id: Seq<char>) -> bool {
    request matches RequestView::PutCommit { id: put, .. } && put == id
}

/// One of the steps asked for the document of the commit to be stored.
pub open spec fn was_put(start: SessionView, steps: Seq<Happening>, id: Seq<char>) -> bool {
    exists|k: int|
        0 < k <= steps.len() && puts_commit(#[trigger] request_after(start, steps.take(k)), id)
}

/// While a run waits to hear that a commit's document is stored, the
/// request it made last was for that document.
pub open spec fn put_is_pending(s: SessionView, last: RequestView) -> bool {
    s.phase matches PhaseView::PuttingCommit { commit } ==> puts_commit(last, s.commits[commit as int])
}

proof fn lemma_index_branch_puts_no_commit(s: SessionView, i: int)
    ensures
        !(index_branch(s, i).0.phase is PuttingCommit),
    decreases s.repo.branches.len() - i,
{
    if 0 <= i < s.repo.branches.len() && s.catalog.version >= 4 {
        let files = branch_files_not_indexed(s.catalog, s.repo.id, s.branch(i));
        let mid = SessionView { files, ..s };
        if files.len() == 0 && s.repo.opened {
            lemma_index_branch_puts_no_commit(
                SessionView { catalog: closed_branch(mid, i), ..mid },
                i + 1,
            );
        }
    }
}

proof fn lemma_shipping_puts_no_commit(s: SessionView, i: int, k: int, added: Timespec)
    requires
        s.catalog.wf(),
    ensures
        !(next_file(s, i, k).0.phase is PuttingCommit),
        !(next_removal(s, k).0.phase is PuttingCommit),
        !(next_commit(s, k).0.phase is PuttingCommit),
        !(plan_branch(s, i, added).0.phase is PuttingCommit),
{
    if k >= s.files.len() && s.repo.opened && s.catalog.version >= 4 {
        lemma_index_branch_puts_no_commit(SessionView { catalog: closed_branch(s, i), ..s }, i + 1);
    }
    lemma_index_branch_puts_no_commit(s, 0);
    if i >= s.repo.branches.len() {
        match sync_repo(s, added) {
            Ok(mid) => {
                if s.command == Command::Index && mid.catalog.version >= 3 {
                    let started = SessionView {
                        commits: mid.catalog.commits_not_indexed(mid.repo.id),
                        ..mid
                    };
                    lemma_index_branch_puts_no_commit(started, 0);
                }
            },
            Err(failed) => {},
        }
    }
}

/// The writes that record the commits of a walk bring no indexed commit
/// into the catalog: what they add waits.
proof fn lemma_commit_writes_add_waiting(
    catalog: Catalog,
    repo_id: Seq<char>,
    ids: Seq<Seq<char>>,
    id: Seq<char>,
)
    requires
        is_indexed(catalog.accepted(commit_writes(repo_id, ids)).0, repo_id, id),
    ensures
        is_indexed(catalog, repo_id, id),
    decreases ids.len(),
{
    let writes = commit_writes(repo_id, ids);
    if ids.len() > 0 {
        let front = ids.drop_last();
        assert(writes.drop_last() =~= commit_writes(repo_id, front));
        assert(writes.last() == commit_write(repo_id)(ids.last()));
        let (mid, count) = catalog.accepted(commit_writes(repo_id, front));
        let after = catalog.accepted(writes).0;
        let k = choose|k: int|
            0 <= k < after.commits.len() && (#[trigger] after.commits[k]).repo_id == repo_id
                && after.commits[k].id == id && after.commits[k].state == CommitState::Indexed;
        if count == writes.len() - 1 && mid.apply(writes.last()) is Some && after != mid {
            assert(after.commits == mid.commits.push(
                RepoCommitView { id: ids.last(), repo_id, state: CommitState::NotIndexed },
            ));
            assert(k < mid.commits.len());
            assert(mid.commits[k] == after.commits[k]);
        } else {
            assert(after == mid);
        }
        assert(is_indexed(mid, repo_id, id));
        lemma_commit_writes_add_waiting(catalog, repo_id, front, id);
    }
}

/// A commit becomes indexed in one way only: by the step that hears that
/// the search service has its document.
pub proof fn lemma_commit_is_indexed_by_its_put(
    s: SessionView,
    event: Event,
    added: Timespec,
    id: Seq<char>,
)
    requires
        s.catalog.wf(),
        is_indexed(transition(s, event, added).0.catalog, s.repo.id, id),
    ensures
        is_indexed(s.catalog, s.repo.id, id) || (s.phase is PuttingCommit && event is Done
            && s.commits[s.phase->PuttingCommit_commit as int] == id),
{
    let post = transition(s, event, added).0;
    match event {
        Event::Exists(found) => {
            if s.phase == PhaseView::Probing {
                let probed = SessionView {
                    repo: RepoView { sync_state: probed_state(s.repo.sync_state, found), ..s.repo },
                    ..s
                };
                lemma_sync_keeps_queues(probed.repo, probed.catalog, added);
            }
        },
        Event::Done => {
            match s.phase {
                PhaseView::Cloning => {
                    lemma_plan_branch_keeps_tables(
                        SessionView {
                            repo: RepoView {
                                sync_state: SyncState::Cloned,
                                opened: true,
                                ..s.repo
                            },
                            ..s
                        },
                        0,
                        added,
                    );
                },
                PhaseView::Fetching => {
                    lemma_plan_branch_keeps_tables(s, 0, added);
                },
                PhaseView::Repointing { branch } => {
                    lemma_plan_branch_keeps_tables(s, 0, added);
                },
                PhaseView::PuttingCommit { commit } => {
                    let put = s.commits[commit as int];
                    match s.catalog.mark_commit_as_indexed(s.repo.id, put) {
                        Some(catalog) => {
                            lemma_next_commit_earns(SessionView { catalog, ..s }, commit as int + 1);
                            let k = choose|k: int|
                                0 <= k < post.catalog.commits.len() && (#[trigger] post.catalog.commits[k]).repo_id
                                    == s.repo.id && post.catalog.commits[k].id == id
                                    && post.catalog.commits[k].state == CommitState::Indexed;
                            assert(catalog.commits[k] == commit_marked(s.repo.id, put)(
                                s.catalog.commits[k],
                            ));
                            if put != id {
                                assert(s.catalog.commits[k] == catalog.commits[k]);
                            }
                        },
                        None => {},
                    }
                },
                PhaseView::Deleting { removal } => {
                    lemma_next_removal_earns(s, removal as int + 1);
                },
                PhaseView::PuttingFile { branch, file } => {
                    match file_marked_in(s, file as int) {
                        Some(catalog) => {
                            lemma_next_file_earns(
                                SessionView { catalog, ..s },
                                branch as int,
                                file as int + 1,
                            );
                        },
                        None => {},
                    }
                },
                _ => {},
            }
        },
        Event::Oids(ids) => {
            match s.phase {
                PhaseView::Walking { branch } => {
                    if s.repo.opened {
                        let writes = commit_writes(s.repo.id, texts(ids@));
                        let catalog = s.catalog.accepted(writes).0;
                        lemma_accepted_keeps_wf(s.catalog, writes);
                        lemma_plan_branch_keeps_tables(
                            SessionView { catalog, ..s },
                            branch as int + 1,
                            added,
                        );
                        assert(post.catalog.commits == catalog.commits);
                        assert(is_indexed(catalog, s.repo.id, id)) by {
                            let k = choose|k: int|
                                0 <= k < post.catalog.commits.len() && (#[trigger] post.catalog.commits[k]).repo_id
                                    == s.repo.id && post.catalog.commits[k].id == id
                                    && post.catalog.commits[k].state == CommitState::Indexed;
                            assert(catalog.commits[k] == post.catalog.commits[k]);
                        }
                        lemma_commit_writes_add_waiting(s.catalog, s.repo.id, texts(ids@), id);
                    }
                },
                _ => {},
            }
        },
        Event::Tree(entries) => {
            match s.phase {
                PhaseView::PlanningTree { branch } => {
                    let i = branch as int;
                    lemma_upserts_leave_commits(
                        s.catalog,
                        s.repo.id,
                        s.branch(i),
                        s.tips[i],
                        views(entries@),
                        Seq::empty(),
                    );
                    let writes = tree_writes(s.repo.id, s.branch(i), s.tips[i], views(entries@));
                    lemma_accepted_keeps_wf(s.catalog, writes);
                    lemma_plan_branch_keeps_tables(
                        SessionView { catalog: s.catalog.accepted(writes).0, ..s },
                        i + 1,
                        added,
                    );
                },
                _ => {},
            }
        },
        Event::Deltas(deltas) => {
            match s.phase {
                PhaseView::PlanningTree { branch } => {
                    let i = branch as int;
                    lemma_upserts_leave_commits(
                        s.catalog,
                        s.repo.id,
                        s.branch(i),
                        s.tips[i],
                        Seq::empty(),
                        views(deltas@),
                    );
                    let writes = diff_writes(s.repo.id, s.branch(i), s.tips[i], views(deltas@));
                    lemma_accepted_keeps_wf(s.catalog, writes);
                    lemma_plan_branch_keeps_tables(
                        SessionView {
                            catalog: s.catalog.accepted(writes).0,
                            removals: s.removals + removed_paths(views(deltas@)),
                            ..s
                        },
                        i + 1,
                        added,
                    );
                },
                _ => {},
            }
        },
        Event::Blob { blob, changed } => {
            match s.phase {
                PhaseView::LoadingBlob { branch, file } => {
                    if blob.binary {
                        match file_marked_in(s, file as int) {
                            Some(catalog) => {
                                lemma_next_file_earns(
                                    SessionView { catalog, ..s },
                                    branch as int,
                                    file as int + 1,
                                );
                            },
                            None => {},
                        }
                    }
                },
                _ => {},
            }
        },
        _ => {},
    }
}

/// A run waits for the answer to a put of a commit only right after it has
/// asked for that put.
pub proof fn lemma_put_is_pending(s: SessionView, event: Event, added: Timespec)
    requires
        s.catalog.wf(),
    ensures
        put_is_pending(transition(s, event, added).0, transition(s, event, added).1),
{
    match event {
        Event::Exists(found) => {},
        Event::Done => {
            match s.phase {
                PhaseView::Cloning => {
                    lemma_shipping_puts_no_commit(
                        SessionView {
                            repo: RepoView {
                                sync_state: SyncState::Cloned,
                                opened: true,
                                ..s.repo
                            },
                            ..s
                        },
                        0,
                        0,
                        added,
                    );
                },
                PhaseView::Fetching => {
                    lemma_shipping_puts_no_commit(s, 0, 0, added);
                },
                PhaseView::Repointing { branch } => {
                    lemma_shipping_puts_no_commit(s, 0, 0, added);
                },
                PhaseView::PuttingCommit { commit } => {
                    match s.catalog.mark_commit_as_indexed(s.repo.id, s.commits[commit as int]) {
                        Some(catalog) => {
                            lemma_apply_keeps_wf(
                                s.catalog,
                                DbWriteView::MarkCommitIndexed {
                                    repo_id: s.repo.id,
                                    commit_id: s.commits[commit as int],
                                },
                            );
                            lemma_shipping_puts_no_commit(
                                SessionView { catalog, ..s },
                                0,
                                commit as int + 1,
                                added,
                            );
                        },
                        None => {},
                    }
                },
                PhaseView::Deleting { removal } => {
                    lemma_shipping_puts_no_commit(s, 0, removal as int + 1, added);
                },
                PhaseView::PuttingFile { branch, file } => {
                    match file_marked_in(s, file as int) {
                        Some(catalog) => {
                            lemma_apply_keeps_wf(
                                s.catalog,
                                DbWriteView::MarkFileIndexed {
                                    repo_id: s.repo.id,
                                    path: s.files[file as int].path,
                                    indexed_commit_id: s.files[file as int].changed_commit_id,
                                },
                            );
                            lemma_shipping_puts_no_commit(
                                SessionView { catalog, ..s },
                                branch as int,
                                file as int + 1,
                                added,
                            );
                        },
                        None => {},
                    }
                },
                _ => {},
            }
        },
        Event::Oids(ids) => {
            match s.phase {
                PhaseView::Walking { branch } => {
                    let writes = commit_writes(s.repo.id, texts(ids@));
                    lemma_accepted_keeps_wf(s.catalog, writes);
                    lemma_shipping_puts_no_commit(
                        SessionView { catalog: s.catalog.accepted(writes).0, ..s },
                        branch as int + 1,
                        0,
                        added,
                    );
                },
                _ => {},
            }
        },
        Event::Tree(entries) => {
            match s.phase {
                PhaseView::PlanningTree { branch } => {
                    let i = branch as int;
                    let writes = tree_writes(s.repo.id, s.branch(i), s.tips[i], views(entries@));
                    lemma_accepted_keeps_wf(s.catalog, writes);
                    lemma_shipping_puts_no_commit(
                        SessionView { catalog: s.catalog.accepted(writes).0, ..s },
                        i + 1,
                        0,
                        added,
                    );
                },
                _ => {},
            }
        },
        Event::Deltas(deltas) => {
            match s.phase {
                PhaseView::PlanningTree { branch } => {
                    let i = branch as int;
                    let writes = diff_writes(s.repo.id, s.branch(i), s.tips[i], views(deltas@));
                    lemma_accepted_keeps_wf(s.catalog, writes);
                    lemma_shipping_puts_no_commit(
                        SessionView {
                            catalog: s.catalog.accepted(writes).0,
                            removals: s.removals + removed_paths(views(deltas@)),
                            ..s
                        },
                        i + 1,
                        0,
                        added,
                    );
                },
                _ => {},
            }
        },
        Event::Blob { blob, changed } => {
            match s.phase {
                PhaseView::LoadingBlob { branch, file } => {
                    if blob.binary {
                        match file_marked_in(s, file as int) {
                            Some(catalog) => {
                                lemma_apply_keeps_wf(
                                    s.catalog,
                                    DbWriteView::MarkFileIndexed {
                                        repo_id: s.repo.id,
                                        path: s.files[file as int].path,
                                        indexed_commit_id: s.files[file as int].changed_commit_id,
                                    },
                                );
                                lemma_shipping_puts_no_commit(
                                    SessionView { catalog, ..s },
                                    branch as int,
                                    file as int + 1,
                                    added,
                                );
                            },
                            None => {},
                        }
                    }
                },
                _ => {},
            }
        },
        _ => {},
    }
}

/// Every commit of the repository that a run leaves indexed was indexed
/// when the run began, or its document was put by one of the steps of the
/// run. With a run that ends well leaving no commit waiting, every commit
/// that waited when the run began or was found by one of its walks has had
/// its document put, under its id.
pub proof fn lemma_indexed_commits_were_put(
    start: SessionView,
    steps: Seq<Happening>,
    id: Seq<char>,
)
    requires
        begins(start),
        paths_stay_agreed(start, steps),
    ensures
        is_indexed(state_after(start, steps).catalog, start.repo.id, id) ==> is_indexed(
            start.catalog,
            start.repo.id,
            id,
        ) || was_put(start, steps, id),
        steps.len() > 0 ==> put_is_pending(
            state_after(start, steps),
            request_after(start, steps),
        ),
    decreases steps.len(),
{
    if steps.len() > 0 {
        let front = steps.drop_last();
        assert forall|k: int|
            0 <= k < front.len() && ships_files(
                #[trigger] state_after(start, front.take(k)),
            ) implies paths_agree(state_after(start, front.take(k)).catalog, start.repo.id) by {
            assert(front.take(k) == steps.take(k));
        }
        lemma_indexed_commits_were_put(start, front, id);
        lemma_run_is_orderly(start, front);
        let before = state_after(start, front);
        let (event, added) = steps.last();
        lemma_put_is_pending(before, event, added);
        if is_indexed(state_after(start, steps).catalog, start.repo.id, id) {
            lemma_commit_is_indexed_by_its_put(before, event, added, id);
            if is_indexed(before.catalog, start.repo.id, id) {
                if was_put(start, front, id) {
                    let k = choose|k: int|
                        0 < k <= front.len() && puts_commit(
                            #[trigger] request_after(start, front.take(k)),
                            id,
                        );
                    assert(front.take(k) == steps.take(k));
                    assert(puts_commit(request_after(start, steps.take(k)), id));
                }
            } else {
                assert(front.len() > 0);
                assert(puts_commit(request_after(start, front), id));
                assert(steps.take(front.len() as int) == front);
                assert(puts_commit(request_after(start, steps.take(front.len() as int)), id));
            }
        }
    }
}

} // verus!
