use std::collections::{BTreeMap, BTreeSet};

use codelauf::commands::{fetch_repo, index_repo, init};
use codelauf::config::{Config, RepoLocation};
use codelauf::db::Db;
use codelauf::digest::{file_id, repo_id};
use codelauf::git::{Blob, Delta, DeltaStatus, GitCommit, GitSignature, GitTime, ObjectType, TreeEntry};
use codelauf::index::{Commit, IndexedFile};
use codelauf::models::types::RepoPath;
use codelauf::repo::{RepoTreeEntry, SyncState};
use codelauf::result::RepoError;
use codelauf::session::{Event, Request, Session};

const REMOTE: &str = "https://example.org/project.git";

/// One commit of the pretended remote: its parents and the files of its tree.
struct Snapshot {
    parents: Vec<&'static str>,
    files: Vec<(&'static str, &'static [u8], bool)>,
    seconds: i64,
}

/// A pretended Git backend.
struct Remote {
    commits: BTreeMap<&'static str, Snapshot>,
    tips: BTreeMap<&'static str, &'static str>,
    cloned: bool,
}

impl Remote {
    fn new() -> Remote {
        Remote { commits: BTreeMap::new(), tips: BTreeMap::new(), cloned: false }
    }

    fn commit(
        &mut self,
        id: &'static str,
        parents: &[&'static str],
        files: &[(&'static str, &'static [u8], bool)],
    ) {
        let seconds = 1_400_000_000 + 60 * self.commits.len() as i64;
        self.commits.insert(id, Snapshot { parents: parents.to_vec(), files: files.to_vec(), seconds });
    }

    fn ancestors(&self, id: &str) -> BTreeSet<String> {
        let mut seen = BTreeSet::new();
        let mut todo = vec![id.to_string()];
        while let Some(next) = todo.pop() {
            if seen.insert(next.clone()) {
                for parent in &self.commits[next.as_str()].parents {
                    todo.push(parent.to_string());
                }
            }
        }
        seen
    }

    fn merge_bases(&self, one: &str, two: &str) -> Vec<String> {
        let a = self.ancestors(one);
        let b = self.ancestors(two);
        let common: BTreeSet<String> = a.intersection(&b).cloned().collect();
        common
            .iter()
            .filter(|c| {
                !common.iter().any(|other| other != *c && self.ancestors(other).contains(*c))
            })
            .cloned()
            .collect()
    }

    fn revwalk(&self, pushed: &[String], hidden: &[String]) -> Vec<String> {
        let mut reached = BTreeSet::new();
        for id in pushed {
            reached.extend(self.ancestors(id));
        }
        for id in hidden {
            for gone in self.ancestors(id) {
                reached.remove(&gone);
            }
        }
        reached.into_iter().collect()
    }

    fn walk_tree(&self, id: &str) -> Vec<RepoTreeEntry> {
        let mut entries = Vec::new();
        let mut dirs = BTreeSet::new();
        for (path, _, _) in &self.commits[id].files {
            if let Some(slash) = path.rfind('/') {
                let dir = &path[..slash];
                if dirs.insert(dir.to_string()) {
                    entries.push(RepoTreeEntry::new(
                        TreeEntry {
                            name: Some(dir.as_bytes().to_vec()),
                            kind: Some(ObjectType::Tree),
                            id: format!("tree-{}", dir),
                        },
                        RepoPath::from_str(dir),
                    ));
                }
            }
            let name = path.rsplit('/').next().unwrap();
            entries.push(RepoTreeEntry::new(
                TreeEntry {
                    name: Some(name.as_bytes().to_vec()),
                    kind: Some(ObjectType::Blob),
                    id: format!("blob-{}-{}", id, path),
                },
                RepoPath::from_str(path),
            ));
        }
        entries
    }

    fn diff(&self, old: &str, new: &str) -> Vec<Delta> {
        let before: BTreeMap<&str, &[u8]> =
            self.commits[old].files.iter().map(|(p, c, _)| (*p, *c)).collect();
        let after: BTreeMap<&str, &[u8]> =
            self.commits[new].files.iter().map(|(p, c, _)| (*p, *c)).collect();
        let mut deltas = Vec::new();
        for (path, content) in &after {
            let status = match before.get(path) {
                None => DeltaStatus::Added,
                Some(was) if was != content => DeltaStatus::Modified,
                Some(_) => continue,
            };
            deltas.push(Delta {
                status,
                old_path: before.get(path).map(|_| RepoPath::from_str(path)),
                new_path: Some(RepoPath::from_str(path)),
                old_oid: None,
                new_oid: None,
            });
        }
        for path in before.keys() {
            if !after.contains_key(path) {
                deltas.push(Delta {
                    status: DeltaStatus::Deleted,
                    old_path: Some(RepoPath::from_str(path)),
                    new_path: None,
                    old_oid: None,
                    new_oid: None,
                });
            }
        }
        deltas
    }

    fn find_commit(&self, id: &str) -> GitCommit {
        let snapshot = &self.commits[id];
        let who = GitSignature {
            name: Some("Ada".to_string()),
            email: Some("ada@example.org".to_string()),
        };
        GitCommit {
            id: id.to_string(),
            parents: snapshot.parents.iter().map(|p| p.to_string()).collect(),
            author: GitSignature { name: who.name.clone(), email: who.email.clone() },
            committer: who,
            time: GitTime { seconds: snapshot.seconds, offset_minutes: 120 },
            message: Some(format!("commit {}", id)),
        }
    }

    fn find_blob(&self, id: &str, path: &[u8]) -> Event {
        let snapshot = &self.commits[id];
        for (name, content, binary) in &snapshot.files {
            if name.as_bytes() == path {
                return Event::Blob {
                    blob: Blob { binary: *binary, content: content.to_vec() },
                    changed: GitTime { seconds: snapshot.seconds, offset_minutes: 120 },
                };
            }
        }
        Event::Failed(RepoError::GitError("no such path".to_string()))
    }
}

/// What the pretended search service was asked to do.
#[derive(Debug, PartialEq, Eq)]
enum Sent {
    Commit(String, Commit),
    File(String, IndexedFile),
    Delete(String),
}

struct Host {
    remote: Remote,
    sent: Vec<Sent>,
    durable: Db,
    /// Stop the run, as a crash would, when this many documents have been
    /// sent.
    crash_after: Option<usize>,
}

impl Host {
    fn new(remote: Remote) -> Host {
        let mut durable = Db::open_in_memory().unwrap();
        durable.migrate();
        durable.take_writes();
        Host { remote, sent: Vec::new(), durable, crash_after: None }
    }

    /// Answers a request. `None` means that the host crashed.
    fn perform(&mut self, request: Request) -> Option<Result<Event, Result<(), RepoError>>> {
        let event = match request {
            Request::ExistsAt { .. } => Event::Exists(self.remote.cloned),
            Request::Clone { uri, .. } => {
                assert_eq!(uri, REMOTE);
                self.remote.cloned = true;
                Event::Done
            },
            Request::Open { .. } => Event::Done,
            Request::Fetch { .. } => Event::Done,
            Request::SetLocalBranchToRemote { .. } => Event::Done,
            Request::ResolveRef { name } => {
                let branch = name.strip_prefix("refs/heads/").unwrap();
                match self.remote.tips.get(branch) {
                    Some(tip) => Event::Oid(tip.to_string()),
                    None => Event::Failed(RepoError::GitError("no such ref".to_string())),
                }
            },
            Request::MergeBases { one, two } => Event::Oids(self.remote.merge_bases(&one, &two)),
            Request::Revwalk(walk) => Event::Oids(self.remote.revwalk(&walk.pushed, &walk.hidden)),
            Request::WalkTree { commit_id } => Event::Tree(self.remote.walk_tree(&commit_id)),
            Request::TreeDiff { old_commit_id, new_commit_id, ignore_whitespace, ignore_filemode } => {
                assert!(ignore_whitespace && ignore_filemode);
                Event::Deltas(self.remote.diff(&old_commit_id, &new_commit_id))
            },
            Request::FindCommit { commit_id } => Event::Commit(self.remote.find_commit(&commit_id)),
            Request::FindBlob { commit_id, path } => self.remote.find_blob(&commit_id, &path.bytes),
            Request::PutCommit { id, commit } => {
                self.sent.push(Sent::Commit(id, commit));
                if self.crash_after == Some(self.sent.len()) {
                    return None;
                }
                Event::Done
            },
            Request::PutFile { id, file } => {
                self.sent.push(Sent::File(id, file));
                if self.crash_after == Some(self.sent.len()) {
                    return None;
                }
                Event::Done
            },
            Request::DeleteFile { id } => {
                self.sent.push(Sent::Delete(id));
                Event::Done
            },
            Request::Done => return Some(Err(Ok(()))),
            Request::Failed(error) => return Some(Err(Err(error))),
        };
        Some(Ok(event))
    }

    /// Drives a run to its end. The writes of every step are repeated on
    /// the durable catalog, which the next run starts from.
    fn run(&mut self, mut session: Session) -> Option<Result<(), RepoError>> {
        let mut request = session.begin();
        loop {
            let event = match self.perform(request)? {
                Ok(event) => event,
                Err(end) => {
                    assert!(session.is_finished());
                    assert_same_content(&session.into_db(), &self.durable);
                    return Some(end);
                },
            };
            let step = session.step(event);
            for write in &step.writes {
                self.durable.apply(write).unwrap();
            }
            self.durable.take_writes();
            request = step.request;
        }
    }

    fn index(&mut self, branches: &[&str]) -> Option<Result<(), RepoError>> {
        let session = index_repo(&config(branches), copy_of(&self.durable)).unwrap();
        self.run(session)
    }

    fn watermark(&self, branch: &str) -> Option<String> {
        self.durable.find_branch(&repo_id(REMOTE), branch).unwrap().unwrap().indexed_commit_id
    }

    fn sent_commits(&self) -> Vec<String> {
        self.sent
            .iter()
            .filter_map(|s| match s {
                Sent::Commit(id, _) => Some(id.clone()),
                _ => None,
            })
            .collect()
    }

    fn sent_files(&self) -> Vec<(String, String, String)> {
        self.sent
            .iter()
            .filter_map(|s| match s {
                Sent::File(id, file) => Some((
                    id.clone(),
                    file.text.clone().unwrap(),
                    file.changed_commit_id.clone().unwrap(),
                )),
                _ => None,
            })
            .collect()
    }
}

/// A catalog with the same content, rebuilt from its rows as a host
/// rebuilds it from durable storage.
fn copy_of(db: &Db) -> Db {
    Db::from_rows(
        db.schema_version(),
        db.repositories(),
        db.branches(),
        db.commits(),
        db.files(),
    )
    .unwrap()
}

fn assert_same_content(one: &Db, other: &Db) {
    assert_eq!(one.schema_version(), other.schema_version());
    assert_eq!(one.repositories(), other.repositories());
    assert_eq!(one.branches(), other.branches());
    assert_eq!(one.commits(), other.commits());
    assert_eq!(one.files(), other.files());
}

fn config(branches: &[&str]) -> Config {
    let mut config = Config::new();
    config.data_dir = "/var/lib/codelauf".to_string();
    config.elasticsearch = Some("localhost:9200".to_string());
    let mut location = RepoLocation::new();
    location.remote = Some(REMOTE.to_string());
    location.branches = branches.iter().map(|b| b.to_string()).collect();
    config.repo_location = Some(location);
    config
}

fn doc_id(path: &str) -> String {
    file_id(&repo_id(REMOTE), path.as_bytes())
}

fn two_commits() -> Remote {
    let mut remote = Remote::new();
    remote.commit("c1", &[], &[("a.txt", b"one", false), ("b.txt", b"bee", false)]);
    remote.commit("c2", &["c1"], &[("a.txt", b"two", false), ("b.txt", b"bee", false)]);
    remote.tips.insert("master", "c2");
    remote
}

fn indexed_two_commits() -> Host {
    let mut host = Host::new(two_commits());
    assert_eq!(host.index(&["master"]), Some(Ok(())));
    host.sent.clear();
    host
}

#[test]
fn first_time_index_ships_every_commit_and_file() {
    let mut host = Host::new(two_commits());
    assert_eq!(host.index(&["master"]), Some(Ok(())));
    assert_eq!(host.sent_commits(), vec!["c1".to_string(), "c2".to_string()]);
    assert_eq!(
        host.sent_files(),
        vec![
            (doc_id("a.txt"), "two".to_string(), "c2".to_string()),
            (doc_id("b.txt"), "bee".to_string(), "c2".to_string()),
        ]
    );
    assert_eq!(host.watermark("master"), Some("c2".to_string()));
    let repo = host.durable.find_repo(&repo_id(REMOTE)).unwrap().unwrap();
    assert_eq!(repo.sync_state, SyncState::Cloned);
    assert_eq!(repo.uri, REMOTE);
}

#[test]
fn fast_forward_ships_only_what_is_new() {
    let mut host = indexed_two_commits();
    host.remote.commit("c3", &["c2"], &[("a.txt", b"three", false), ("b.txt", b"bee", false)]);
    host.remote.tips.insert("master", "c3");
    assert_eq!(host.index(&["master"]), Some(Ok(())));
    assert_eq!(host.sent_commits(), vec!["c3".to_string()]);
    assert_eq!(host.sent_files(), vec![(doc_id("a.txt"), "three".to_string(), "c3".to_string())]);
    assert_eq!(host.watermark("master"), Some("c3".to_string()));
}

#[test]
fn divergent_rewrite_ships_the_new_side() {
    let mut host = indexed_two_commits();
    host.remote.commit("c2x", &["c1"], &[("a.txt", b"other", false), ("b.txt", b"bee", false)]);
    host.remote.tips.insert("master", "c2x");
    assert_eq!(host.remote.merge_bases("c2x", "c2"), vec!["c1".to_string()]);
    assert_eq!(host.index(&["master"]), Some(Ok(())));
    assert_eq!(host.sent_commits(), vec!["c2x".to_string()]);
    assert_eq!(host.sent_files(), vec![(doc_id("a.txt"), "other".to_string(), "c2x".to_string())]);
    assert_eq!(host.watermark("master"), Some("c2x".to_string()));
}

#[test]
fn binary_file_is_marked_without_being_shipped() {
    let mut host = indexed_two_commits();
    host.remote.commit(
        "c3",
        &["c2"],
        &[("a.txt", b"two", false), ("b.txt", b"bee", false), ("logo.png", b"\x89PNG\x00", true)],
    );
    host.remote.tips.insert("master", "c3");
    assert_eq!(host.index(&["master"]), Some(Ok(())));
    assert_eq!(host.sent_files(), vec![]);
    let logo = host
        .durable
        .files()
        .into_iter()
        .find(|f| f.path == RepoPath::from_str("logo.png"))
        .unwrap();
    assert_eq!(logo.changed_commit_id, "c3");
    assert_eq!(logo.indexed_commit_id, Some("c3".to_string()));
    assert_eq!(host.watermark("master"), Some("c3".to_string()));
}

#[test]
fn crash_between_put_and_mark_repeats_the_put() {
    let mut crashed = indexed_two_commits();
    crashed.remote.commit("c3", &["c2"], &[("a.txt", b"three", false), ("b.txt", b"bee", false)]);
    crashed.remote.tips.insert("master", "c3");
    crashed.crash_after = Some(1);
    assert_eq!(crashed.index(&["master"]), None);
    assert_eq!(crashed.sent_commits(), vec!["c3".to_string()]);
    assert_eq!(crashed.watermark("master"), Some("c2".to_string()));
    let first = crashed.sent.remove(0);

    crashed.crash_after = None;
    assert_eq!(crashed.index(&["master"]), Some(Ok(())));
    assert_eq!(crashed.sent[0], first);

    let mut smooth = indexed_two_commits();
    smooth.remote.commit("c3", &["c2"], &[("a.txt", b"three", false), ("b.txt", b"bee", false)]);
    smooth.remote.tips.insert("master", "c3");
    assert_eq!(smooth.index(&["master"]), Some(Ok(())));
    assert_eq!(crashed.sent, smooth.sent);
    assert_eq!(crashed.watermark("master"), Some("c3".to_string()));
    assert_eq!(crashed.durable.commits(), smooth.durable.commits());
    assert_eq!(crashed.durable.files(), smooth.durable.files());
}

#[test]
fn two_branches_are_indexed_each_to_its_tip() {
    let mut remote = two_commits();
    remote.commit(
        "d1",
        &["c1"],
        &[("a.txt", b"one", false), ("b.txt", b"bee", false), ("dev.txt", b"dev", false)],
    );
    remote.tips.insert("dev", "d1");
    let mut host = Host::new(remote);
    assert_eq!(host.index(&["master", "dev"]), Some(Ok(())));
    let mut commits = host.sent_commits();
    commits.sort();
    assert_eq!(commits, vec!["c1".to_string(), "c2".to_string(), "d1".to_string()]);
    let ids: BTreeSet<String> = host.sent_files().into_iter().map(|(id, _, _)| id).collect();
    let expected: BTreeSet<String> =
        ["a.txt", "b.txt", "dev.txt"].iter().map(|p| doc_id(p)).collect();
    assert_eq!(ids, expected);
    assert_eq!(host.watermark("master"), Some("c2".to_string()));
    assert_eq!(host.watermark("dev"), Some("d1".to_string()));
}

#[test]
fn second_index_without_changes_sends_nothing() {
    let mut host = indexed_two_commits();
    assert_eq!(host.index(&["master"]), Some(Ok(())));
    assert_eq!(host.sent, vec![]);
    assert_eq!(host.watermark("master"), Some("c2".to_string()));
}

#[test]
fn deleted_file_has_its_document_removed() {
    let mut host = indexed_two_commits();
    host.remote.commit("c3", &["c2"], &[("a.txt", b"two", false)]);
    host.remote.tips.insert("master", "c3");
    assert_eq!(host.index(&["master"]), Some(Ok(())));
    assert_eq!(
        host.sent.iter().filter(|s| matches!(s, Sent::Delete(_))).collect::<Vec<_>>(),
        vec![&Sent::Delete(doc_id("b.txt"))]
    );
    assert_eq!(host.sent_files(), vec![]);
    assert_eq!(host.watermark("master"), Some("c3".to_string()));
}

#[test]
fn fetch_records_commits_and_sends_nothing() {
    let mut host = Host::new(two_commits());
    let session = fetch_repo(&config(&["master"]), copy_of(&host.durable)).unwrap();
    assert_eq!(host.run(session), Some(Ok(())));
    assert_eq!(host.sent, vec![]);
    assert_eq!(
        host.durable.find_commits_not_indexed(&repo_id(REMOTE)).unwrap(),
        vec!["c1".to_string(), "c2".to_string()]
    );
    assert_eq!(host.durable.files(), vec![]);
    assert_eq!(host.watermark("master"), None);
}

#[test]
fn non_utf8_path_keeps_its_bytes_through_a_run() {
    let mut remote = Remote::new();
    remote.commit("c1", &[], &[]);
    remote.tips.insert("master", "c1");
    let mut host = Host::new(remote);
    let mut session = index_repo(&config(&["master"]), copy_of(&host.durable)).unwrap();
    let odd = vec![0x66, 0xff, 0xfe, 0x2f, 0x80];
    let mut request = session.begin();
    loop {
        let event = match request {
            Request::WalkTree { .. } => Event::Tree(vec![RepoTreeEntry::new(
                TreeEntry { name: Some(odd.clone()), kind: Some(ObjectType::Blob), id: "b".to_string() },
                RepoPath { bytes: odd.clone() },
            )]),
            Request::FindBlob { path, .. } => {
                assert_eq!(path.bytes, odd);
                Event::Blob {
                    blob: Blob { binary: false, content: b"x\xffy".to_vec() },
                    changed: GitTime { seconds: 0, offset_minutes: 0 },
                }
            },
            Request::PutFile { id, file } => {
                assert_eq!(id, file_id(&repo_id(REMOTE), &odd));
                assert_eq!(file.path.bytes, odd);
                assert_eq!(file.text, Some("x\u{fffd}y".to_string()));
                assert_eq!(file.changed_date, Some("1970-01-01T00:00:00+00:00".to_string()));
                Event::Done
            },
            other => match host.perform(other).unwrap() {
                Ok(event) => event,
                Err(end) => {
                    assert_eq!(end, Ok(()));
                    break;
                },
            },
        };
        request = session.step(event).request;
    }
    let db = session.into_db();
    assert_eq!(db.files().len(), 1);
    assert_eq!(db.files()[0].path.bytes, odd);
}

#[test]
fn test_open_in_memory() {
    let mut db = Db::open_in_memory().unwrap();
    db.migrate();
    assert_eq!(db.schema_version(), 4);
    let mut again = Db::open_in_memory().unwrap();
    assert_eq!(init(&Config::new(), &mut again), Ok(()));
    assert_eq!(again.schema_version(), 4);
}

#[test]
fn a_path_that_two_branches_hold_is_shipped_for_each_in_turn() {
    let mut remote = two_commits();
    remote.commit(
        "d1",
        &["c1"],
        &[("a.txt", b"one", false), ("b.txt", b"bee", false), ("dev.txt", b"dev", false)],
    );
    remote.tips.insert("dev", "d1");
    let mut host = Host::new(remote);
    assert_eq!(host.index(&["master", "dev"]), Some(Ok(())));
    let left: Vec<(String, RepoPath)> = host
        .durable
        .find_files_not_indexed(&repo_id(REMOTE))
        .unwrap()
        .into_iter()
        .map(|f| (f.branch, f.path))
        .collect();
    assert_eq!(
        left,
        vec![
            ("master".to_string(), RepoPath::from_str("a.txt")),
            ("master".to_string(), RepoPath::from_str("b.txt")),
        ]
    );
    host.sent.clear();
    assert_eq!(host.index(&["master", "dev"]), Some(Ok(())));
    assert_eq!(host.sent_commits(), Vec::<String>::new());
    assert_eq!(
        host.sent_files(),
        vec![
            (doc_id("a.txt"), "two".to_string(), "c2".to_string()),
            (doc_id("b.txt"), "bee".to_string(), "c2".to_string()),
            (doc_id("a.txt"), "one".to_string(), "d1".to_string()),
            (doc_id("b.txt"), "bee".to_string(), "d1".to_string()),
        ]
    );
    assert_eq!(host.watermark("master"), Some("c2".to_string()));
    assert_eq!(host.watermark("dev"), Some("d1".to_string()));
}

#[test]
fn branches_with_paths_of_their_own_are_quiet_after_one_run() {
    let mut remote = Remote::new();
    remote.commit("c1", &[], &[("a.txt", b"one", false)]);
    remote.commit("d1", &[], &[("dev.txt", b"dev", false)]);
    remote.tips.insert("master", "c1");
    remote.tips.insert("dev", "d1");
    let mut host = Host::new(remote);
    assert_eq!(host.index(&["master", "dev"]), Some(Ok(())));
    assert_eq!(host.sent_files().len(), 2);
    assert_eq!(host.durable.find_files_not_indexed(&repo_id(REMOTE)).unwrap(), vec![]);
    host.sent.clear();
    assert_eq!(host.index(&["master", "dev"]), Some(Ok(())));
    assert_eq!(host.sent, vec![]);
}

#[test]
fn branches_that_hold_a_path_at_one_commit_are_quiet_after_one_run() {
    let mut remote = two_commits();
    remote.tips.insert("dev", "c2");
    let mut host = Host::new(remote);
    assert_eq!(host.index(&["master", "dev"]), Some(Ok(())));
    assert_eq!(host.sent_commits(), vec!["c1".to_string(), "c2".to_string()]);
    assert_eq!(
        host.sent_files(),
        vec![
            (doc_id("a.txt"), "two".to_string(), "c2".to_string()),
            (doc_id("b.txt"), "bee".to_string(), "c2".to_string()),
        ]
    );
    assert_eq!(host.durable.files().len(), 4);
    assert_eq!(host.durable.find_files_not_indexed(&repo_id(REMOTE)).unwrap(), vec![]);
    assert_eq!(host.watermark("master"), Some("c2".to_string()));
    assert_eq!(host.watermark("dev"), Some("c2".to_string()));
    host.sent.clear();
    assert_eq!(host.index(&["master", "dev"]), Some(Ok(())));
    assert_eq!(host.sent, vec![]);
}

#[test]
fn a_failed_put_ends_the_run_and_moves_no_watermark() {
    let mut host = indexed_two_commits();
    host.remote.commit("c3", &["c2"], &[("a.txt", b"three", false), ("b.txt", b"bee", false)]);
    host.remote.tips.insert("master", "c3");
    let mut session = index_repo(&config(&["master"]), copy_of(&host.durable)).unwrap();
    let mut request = session.begin();
    let outcome = loop {
        let event = match request {
            Request::PutCommit { .. } => {
                Event::Failed(RepoError::ElasticSearchError("503".to_string()))
            },
            other => match host.perform(other).unwrap() {
                Ok(event) => event,
                Err(end) => break end,
            },
        };
        request = session.step(event).request;
    };
    assert_eq!(outcome, Err(RepoError::ElasticSearchError("503".to_string())));
    let db = session.into_db();
    assert_eq!(db.find_commits_not_indexed(&repo_id(REMOTE)).unwrap(), vec!["c3".to_string()]);
    assert_eq!(
        db.find_branch(&repo_id(REMOTE), "master").unwrap().unwrap().indexed_commit_id,
        Some("c2".to_string())
    );
    assert_eq!(host.sent, vec![]);
    assert_eq!(db.find_files_not_indexed(&repo_id(REMOTE)).unwrap().len(), 1);
}
