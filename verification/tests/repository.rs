use codelauf::config::{Config, RepoLocation};
use codelauf::db::{Db, DbWrite};
use codelauf::digest::{file_id, repo_id};
use codelauf::git::{ObjectType, Revwalk, TreeEntry};
use codelauf::models::repo_branch::RepoBranch;
use codelauf::models::types::RepoPath;
use codelauf::repo::{Branch, RefUpdate, Repo, RepoTreeEntry, SyncState};
use codelauf::result::RepoError;
use codelauf::session::Request;

const REMOTE: &str = "git@example.org:team/project.git";

fn config(remote: Option<&str>, branches: &[&str]) -> Config {
    let mut config = Config::new();
    config.data_dir = "/var/data".to_string();
    let mut location = RepoLocation::new();
    location.remote = remote.map(|r| r.to_string());
    location.branches = branches.iter().map(|b| b.to_string()).collect();
    config.repo_location = Some(location);
    config
}

fn repo(branches: &[&str]) -> Repo {
    Repo::new_for_config(&config(Some(REMOTE), branches)).unwrap()
}

fn opened(branches: &[&str]) -> Repo {
    let mut repo = repo(branches);
    repo.open_repo().unwrap();
    repo
}

fn migrated() -> Db {
    let mut db = Db::open_in_memory().unwrap();
    db.migrate();
    db.take_writes();
    db
}

fn entry(name: &str, kind: ObjectType) -> TreeEntry {
    TreeEntry { name: Some(name.as_bytes().to_vec()), kind: Some(kind), id: format!("id-{}", name) }
}

#[test]
fn ids_are_sha1_digests_in_hex() {
    assert_eq!(repo_id("Hello World!"), "2ef7bde608ce5404e97d5f042f95f89f1c232871");
    assert_eq!(repo_id(""), "da39a3ee5e6b4b0d3255bfef95601890afd80709");
    assert_eq!(Repo::id("abc"), "a9993e364706816aba3e25717850c26c9cd0d89d");
    assert_eq!(Repo::id(REMOTE), Repo::id(REMOTE));
    assert_ne!(Repo::id(REMOTE), Repo::id("git@example.org:team/project"));
    assert_eq!(Repo::id(REMOTE).len(), 40);
    assert_eq!(Repo::id("").len(), 40);
    assert!(Repo::id(REMOTE).chars().all(|c| c.is_ascii_digit() || ('a'..='f').contains(&c)));
}

#[test]
fn a_file_id_digests_the_repository_id_and_then_the_path() {
    assert_eq!(file_id("ab", b"c"), "a9993e364706816aba3e25717850c26c9cd0d89d");
    assert_eq!(file_id("", b"abc"), "a9993e364706816aba3e25717850c26c9cd0d89d");
    assert_eq!(file_id("Hello ", b"World!"), repo_id("Hello World!"));
    assert_ne!(file_id("r", b"a.txt"), file_id("r", b"b.txt"));
    assert_ne!(file_id("r", b"\xff"), file_id("r", b"\xfe"));
}

#[test]
fn the_configured_repository_lives_under_repos_by_its_id() {
    let repo = repo(&["master", "dev"]);
    let id = Repo::id(REMOTE);
    assert_eq!(repo.id, id);
    assert_eq!(repo.uri, REMOTE);
    assert_eq!(repo.path, RepoPath::from_str(&format!("/var/data/repos/{}", id)));
    assert_eq!(repo.dot_git_path(), RepoPath::from_str(&format!("/var/data/repos/{}/.git", id)));
    assert_eq!(repo.sync_state, SyncState::NotCloned);
    assert!(!repo.opened);
    assert_eq!(
        repo.branches,
        vec![Branch::new("master".into(), None), Branch::new("dev".into(), None)]
    );
    assert_eq!(repo.branch_names(), vec!["master".to_string(), "dev".to_string()]);
    let location = config(Some(REMOTE), &[]).repo_location.unwrap();
    assert_eq!(Repo::get_repo_path(&config(None, &[]), &location), Ok(repo.path.clone()));
}

#[test]
fn settings_without_a_remote_name_no_repository() {
    assert_eq!(Repo::new_for_config(&Config::new()), Err(RepoError::NoRemote));
    assert_eq!(Repo::new_for_config(&config(None, &["master"])), Err(RepoError::NoRemote));
    let location = config(None, &[]).repo_location.unwrap();
    assert_eq!(Repo::get_repo_path(&Config::new(), &location), Err(RepoError::NoRemote));
}

#[test]
fn the_probe_follows_the_disk() {
    let mut repo = repo(&["master"]);
    assert!(!repo.is_cloned());
    assert_eq!(repo.probe_fs(true), Ok(()));
    assert_eq!(repo.sync_state, SyncState::Cloned);
    assert!(repo.is_cloned());
    assert_eq!(repo.probe_fs(true), Ok(()));
    assert_eq!(repo.sync_state, SyncState::Cloned);
    repo.set_state(SyncState::Corrupted);
    assert_eq!(repo.probe_fs(true), Ok(()));
    assert_eq!(repo.sync_state, SyncState::Corrupted);
    assert!(repo.is_cloned());
    assert_eq!(repo.probe_fs(false), Ok(()));
    assert_eq!(repo.sync_state, SyncState::NotCloned);
}

#[test]
fn git_requests_need_an_open_clone() {
    let closed = repo(&["master"]);
    assert!(matches!(closed.git_repo(), Err(RepoError::InvalidState(_))));
    assert!(matches!(closed.find_branch("master"), Err(RepoError::InvalidState(_))));
    assert!(matches!(closed.fetch_repo(), Err(RepoError::InvalidState(_))));
    assert!(matches!(closed.pull_repo(), Err(RepoError::InvalidState(_))));
    assert!(matches!(closed.branch_commit_id("master"), Err(RepoError::InvalidState(_))));
    assert!(matches!(closed.get_commit("c"), Err(RepoError::InvalidState(_))));
    assert!(matches!(
        closed.repoint_branch_to_origin("master", "origin"),
        Err(RepoError::InvalidState(_))
    ));
    let mut db = migrated();
    assert!(matches!(closed.revwalk(&mut db, &vec!["c".to_string()]), Err(RepoError::InvalidState(_))));
    assert_eq!(db.commits(), vec![]);
    let mut walk = Revwalk::new();
    assert!(matches!(
        closed.revwalk_add_branch(&mut walk, "tip", &Some("old".to_string()), &vec!["b".to_string()]),
        Err(RepoError::InvalidState(_))
    ));
    assert_eq!(walk, Revwalk::new());
    db.insert_branch(&RepoBranch::new(closed.id.clone(), "master".into(), None)).unwrap();
    assert!(matches!(closed.treewalks(&db, "master", "t"), Err(RepoError::InvalidState(_))));
    let entries =
        vec![RepoTreeEntry::new(entry("a", ObjectType::Blob), RepoPath::from_str("a"))];
    assert!(matches!(
        closed.treewalk(&mut db, "master", "t", &entries),
        Err(RepoError::InvalidState(_))
    ));
    assert_eq!(db.files(), vec![]);
    assert_eq!(db.pending_count(), 1);

    let mut cloned = repo(&["master"]);
    assert_eq!(cloned.clone_repo(), Ok(()));
    assert_eq!(cloned.sync_state, SyncState::Cloned);
    assert_eq!(cloned.git_repo(), Ok(()));
}

#[test]
fn requests_name_refs_and_commits() {
    let repo = opened(&["master", "dev"]);
    assert_eq!(repo.sync_state, SyncState::NotCloned);
    assert_eq!(repo.find_branch("dev"), Ok("refs/heads/dev".to_string()));
    assert_eq!(
        repo.branch_commit_id("master"),
        Ok(Request::ResolveRef { name: "refs/heads/master".to_string() })
    );
    assert_eq!(repo.get_commit("abc"), Ok(Request::FindCommit { commit_id: "abc".to_string() }));
    assert_eq!(
        repo.fetch_repo(),
        Ok(Request::Fetch { branches: vec!["master".to_string(), "dev".to_string()] })
    );
    assert_eq!(
        repo.pull_repo(),
        Ok(vec![
            Request::Fetch { branches: vec!["master".to_string(), "dev".to_string()] },
            Request::SetLocalBranchToRemote { branch: "master".to_string() },
            Request::SetLocalBranchToRemote { branch: "dev".to_string() },
        ])
    );
    assert_eq!(
        repo.treediff("old", "new"),
        Ok(Request::TreeDiff {
            old_commit_id: "old".to_string(),
            new_commit_id: "new".to_string(),
            ignore_whitespace: true,
            ignore_filemode: true,
        })
    );
}

#[test]
fn repointing_names_both_refs_and_the_reflog_message() {
    let update = opened(&["master"]).repoint_branch_to_origin("master", "origin").unwrap();
    assert_eq!(
        update,
        RefUpdate {
            local_ref: "refs/heads/master".to_string(),
            remote_ref: "refs/remotes/origin/master".to_string()
        }
    );
    assert_eq!(
        update.reflog_message("1111", "2222"),
        "update-ref: moving refs/heads/master from 1111 to 2222"
    );
}

#[test]
fn a_walk_stops_at_the_merge_bases_of_an_indexed_branch() {
    let repo = opened(&["master"]);
    let mut walk = Revwalk::new();
    let bases = vec!["b1".to_string(), "b2".to_string()];
    assert_eq!(repo.revwalk_add_branch(&mut walk, "tip", &Some("old".to_string()), &bases), Ok(()));
    assert_eq!(walk.pushed, vec!["tip".to_string()]);
    assert_eq!(walk.hidden, bases);

    let mut whole = Revwalk::new();
    assert_eq!(repo.revwalk_add_branch(&mut whole, "tip", &None, &bases), Ok(()));
    assert_eq!(whole.pushed, vec!["tip".to_string()]);
    assert_eq!(whole.hidden, Vec::<String>::new());

    assert_eq!(repo.revwalk_add_branch(&mut walk, "tip2", &Some("old".to_string()), &vec![]), Ok(()));
    assert_eq!(walk.pushed, vec!["tip".to_string(), "tip2".to_string()]);
    assert_eq!(walk.hidden, bases);
    walk.exclude("x");
    walk.push("y");
    assert_eq!(walk.hidden.last(), Some(&"x".to_string()));
    assert_eq!(walk.pushed.last(), Some(&"y".to_string()));
}

#[test]
fn walked_commits_are_recorded_once() {
    let repo = opened(&["master"]);
    let mut db = migrated();
    let commits = vec!["c2".to_string(), "c1".to_string(), "c2".to_string()];
    assert_eq!(repo.revwalk(&mut db, &commits), Ok(()));
    assert_eq!(db.find_commits_not_indexed(&repo.id).unwrap(), vec!["c2".to_string(), "c1".to_string()]);
    db.mark_commit_as_indexed(&repo.id, "c1").unwrap();
    assert_eq!(repo.add_commit(&mut db, "c1"), Ok(()));
    assert_eq!(repo.add_commit(&mut db, "c3"), Ok(()));
    assert_eq!(db.find_commits_not_indexed(&repo.id).unwrap(), vec!["c2".to_string(), "c3".to_string()]);
    let mut bare = Db::open_in_memory().unwrap();
    assert!(matches!(repo.revwalk(&mut bare, &commits), Err(RepoError::SqlError(_))));
    assert_eq!(repo.revwalk(&mut bare, &vec![]), Ok(()));
}

#[test]
fn a_tree_walk_records_files_and_only_files() {
    let repo = opened(&["master"]);
    let mut db = migrated();
    let entries = vec![
        RepoTreeEntry::new(entry("src", ObjectType::Tree), RepoPath::from_str("src")),
        RepoTreeEntry::new(entry("main.rs", ObjectType::Blob), RepoPath::from_str("src/main.rs")),
        RepoTreeEntry::new(entry("sub", ObjectType::Commit), RepoPath::from_str("sub")),
        RepoTreeEntry::new(
            TreeEntry { name: Some(b"odd".to_vec()), kind: None, id: "x".into() },
            RepoPath::from_str("odd"),
        ),
        RepoTreeEntry::new(entry("README", ObjectType::Blob), RepoPath::from_str("README")),
    ];
    assert_eq!(repo.treewalk(&mut db, "master", "c9", &entries), Ok(()));
    let recorded: Vec<(RepoPath, String, Option<String>)> =
        db.files().into_iter().map(|f| (f.path, f.changed_commit_id, f.indexed_commit_id)).collect();
    assert_eq!(
        recorded,
        vec![
            (RepoPath::from_str("src/main.rs"), "c9".to_string(), None),
            (RepoPath::from_str("README"), "c9".to_string(), None),
        ]
    );
    assert_eq!(db.files()[0].branch, "master");
    assert_eq!(db.files()[0].repo_id, repo.id);
}

#[test]
fn the_planner_diffs_an_indexed_branch_and_walks_a_new_one() {
    let repo = opened(&["master", "dev"]);
    let mut db = migrated();
    assert_eq!(repo.treewalks(&db, "master", "t"), Err(RepoError::BranchNotFound));
    db.insert_branch(&RepoBranch::new(repo.id.clone(), "master".into(), None)).unwrap();
    db.insert_branch(&RepoBranch::new(repo.id.clone(), "dev".into(), Some("old".into()))).unwrap();
    assert_eq!(
        repo.treewalks(&db, "master", "t"),
        Ok(Request::WalkTree { commit_id: "t".to_string() })
    );
    assert_eq!(
        repo.treewalks(&db, "dev", "t"),
        Ok(Request::TreeDiff {
            old_commit_id: "old".to_string(),
            new_commit_id: "t".to_string(),
            ignore_whitespace: true,
            ignore_filemode: true,
        })
    );
    let bare = Db::open_in_memory().unwrap();
    assert!(matches!(repo.treewalks(&bare, "dev", "t"), Err(RepoError::SqlError(_))));
}

#[test]
fn the_tree_iterator_walks_breadth_first_with_paths() {
    let repo = opened(&["master"]);
    let root = vec![
        entry("b.txt", ObjectType::Blob),
        entry("src", ObjectType::Tree),
        TreeEntry { name: None, kind: Some(ObjectType::Blob), id: "nameless".into() },
        entry("a.txt", ObjectType::Blob),
    ];
    let mut walk = repo.tree_iter(&root);
    let unused = vec![entry("never", ObjectType::Blob)];
    let src = vec![entry("lib.rs", ObjectType::Blob), entry("bin", ObjectType::Tree)];
    let bin = vec![entry("main.rs", ObjectType::Blob)];
    let mut seen = Vec::new();
    loop {
        let listing = match walk.front() {
            None => break,
            Some(front) if front.path == RepoPath::from_str("src") => &src,
            Some(front) if front.path == RepoPath::from_str("src/bin") => &bin,
            Some(front) => {
                assert!(!front.is_tree());
                &unused
            },
        };
        let next = walk.next(listing).unwrap();
        seen.push((String::from_utf8(next.path.bytes.clone()).unwrap(), next.is_blob()));
    }
    assert_eq!(
        seen,
        vec![
            ("b.txt".to_string(), true),
            ("src".to_string(), false),
            ("a.txt".to_string(), true),
            ("src/lib.rs".to_string(), true),
            ("src/bin".to_string(), false),
            ("src/bin/main.rs".to_string(), true),
        ]
    );
    assert_eq!(walk.next(&unused), None);
    assert_eq!(walk.entries, vec![]);
}

#[test]
fn an_entry_without_a_name_has_no_path() {
    let nameless = TreeEntry { name: None, kind: Some(ObjectType::Blob), id: "x".into() };
    assert_eq!(RepoTreeEntry::from_ref(&nameless, &RepoPath::from_str("src")), None);
    let named = entry("a", ObjectType::Blob);
    let found = RepoTreeEntry::from_ref(&named, &RepoPath::from_str("src")).unwrap();
    assert_eq!(found.path, RepoPath::from_str("src/a"));
    assert_eq!(found.entry, named);
    assert_eq!(found.clone(), found);
    assert!(found.is_blob() && !found.is_tree());
}

#[test]
fn a_new_repository_enters_the_catalog_with_its_branches() {
    let mut repo = repo(&["master", "dev"]);
    let mut db = migrated();
    assert_eq!(repo.find_in_db(&db), Ok(None));
    let created = repo.create_in_db(&mut db).unwrap();
    assert_eq!(created.id, repo.id);
    assert_eq!(created.uri, REMOTE);
    assert_eq!(created.path, repo.path);
    assert_eq!(created.sync_state, SyncState::NotCloned);
    assert!(created.added_datetime.is_some());
    assert_eq!(repo.find_in_db(&db), Ok(Some(created.clone())));
    assert_eq!(
        db.branches(),
        vec![
            RepoBranch::new(repo.id.clone(), "master".into(), None),
            RepoBranch::new(repo.id.clone(), "dev".into(), None)
        ]
    );
    assert!(matches!(repo.create_in_db(&mut db), Err(RepoError::SqlError(_))));
    assert_eq!(repo.find_or_create_in_db(&mut db), Ok(created));
    assert_eq!(db.repositories().len(), 1);
    assert!(matches!(db.take_writes()[0], DbWrite::InsertRepo(_)));
}

#[test]
fn a_branch_named_twice_stops_the_creation_midway() {
    let repo = repo(&["master", "master", "dev"]);
    let mut db = migrated();
    assert!(matches!(repo.create_in_db(&mut db), Err(RepoError::SqlError(_))));
    assert_eq!(db.repositories().len(), 1);
    assert_eq!(db.branches(), vec![RepoBranch::new(repo.id.clone(), "master".into(), None)]);
}

#[test]
fn the_catalog_takes_the_state_found_on_disk_unless_corrupted() {
    let mut repo = repo(&["master"]);
    let mut db = migrated();
    repo.probe_fs(true).unwrap();
    assert_eq!(repo.update_repo_in_db(&mut db), Ok(()));
    assert_eq!(db.find_repo(&repo.id).unwrap().unwrap().sync_state, SyncState::Cloned);
    assert_eq!(db.branches().len(), 1);

    repo.probe_fs(false).unwrap();
    assert_eq!(repo.update_repo_in_db(&mut db), Ok(()));
    assert_eq!(db.find_repo(&repo.id).unwrap().unwrap().sync_state, SyncState::NotCloned);

    let mut stored = db.find_repo(&repo.id).unwrap().unwrap();
    stored.sync_state = SyncState::Corrupted;
    db.update_repo(&stored).unwrap();
    repo.probe_fs(true).unwrap();
    assert_eq!(repo.sync_state, SyncState::Cloned);
    assert_eq!(repo.update_repo_in_db(&mut db), Ok(()));
    assert_eq!(repo.sync_state, SyncState::Corrupted);
    assert_eq!(db.find_repo(&repo.id).unwrap().unwrap().sync_state, SyncState::Corrupted);

    let mut bare = Db::open_in_memory().unwrap();
    let before = repo.sync_state;
    assert!(matches!(repo.update_repo_in_db(&mut bare), Err(RepoError::SqlError(_))));
    assert_eq!(repo.sync_state, before);
    assert!(matches!(repo.find_or_create_in_db(&mut bare), Err(RepoError::SqlError(_))));
}
