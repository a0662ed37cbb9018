use codelauf::commands::{db_path, fetch_repo, index_repo, init, run_sync};
use codelauf::config::{Config, RepoLocation};
use codelauf::db::{Db, DbWrite};
use codelauf::digest::repo_id;
use codelauf::git::{Blob, GitTime};
use codelauf::index::Index;
use codelauf::models::repo_branch::RepoBranch;
use codelauf::models::types::RepoPath;
use codelauf::repo::{Repo, SyncState};
use codelauf::result::RepoError;
use codelauf::session::{Command, Event, Request, Session};

const REMOTE: &str = "ssh://host/repo";

fn config(branches: &[&str]) -> Config {
    let mut config = Config::new();
    config.data_dir = "data".to_string();
    config.elasticsearch = Some("es:9200".to_string());
    let mut location = RepoLocation::new();
    location.remote = Some(REMOTE.to_string());
    location.branches = branches.iter().map(|b| b.to_string()).collect();
    config.repo_location = Some(location);
    config
}

fn migrated() -> Db {
    let mut db = Db::open_in_memory().unwrap();
    db.migrate();
    db.take_writes();
    db
}

fn invalid_state(request: &Request) -> bool {
    matches!(request, Request::Failed(RepoError::InvalidState(_)))
}

/// Takes a fresh indexing run up to the request for the tip of the first
/// branch.
fn up_to_first_tip(branches: &[&str]) -> Session {
    let mut session = index_repo(&config(branches), migrated()).unwrap();
    assert!(matches!(session.step(Event::Exists(false)).request, Request::Clone { .. }));
    assert!(matches!(session.step(Event::Done).request, Request::ResolveRef { .. }));
    session
}

#[test]
fn a_run_begins_by_asking_for_the_clone() {
    let session = fetch_repo(&config(&["master"]), migrated()).unwrap();
    let id = repo_id(REMOTE);
    assert_eq!(
        session.begin(),
        Request::ExistsAt { path: RepoPath::from_str(&format!("data/repos/{}/.git", id)) }
    );
    assert!(!session.is_finished());
    assert_eq!(session.repository().uri, REMOTE);
    assert_eq!(session.db().schema_version(), 4);
}

#[test]
fn a_run_needs_a_remote_and_an_index_run_a_search_service() {
    assert!(matches!(fetch_repo(&Config::new(), migrated()), Err(RepoError::NoRemote)));
    assert!(matches!(index_repo(&Config::new(), migrated()), Err(RepoError::NoRemote)));
    let mut no_es = config(&["master"]);
    no_es.elasticsearch = None;
    assert!(matches!(index_repo(&no_es, migrated()), Err(RepoError::NoElasticSearch)));
    assert!(fetch_repo(&no_es, migrated()).is_ok());
    let mut bad_port = config(&["master"]);
    bad_port.elasticsearch = Some("es:http".to_string());
    assert!(matches!(index_repo(&bad_port, migrated()), Err(RepoError::ParseIntError(_))));
    let repo = Repo::new_for_config(&config(&["master"])).unwrap();
    assert!(matches!(
        Session::new(Command::Index, repo, None, migrated()),
        Err(RepoError::NoElasticSearch)
    ));
    let repo = Repo::new_for_config(&config(&["master"])).unwrap();
    let index = Index::new_for_config(&config(&["master"])).unwrap();
    assert!(Session::new(Command::Fetch, repo, Some(index), migrated()).is_ok());
}

#[test]
fn a_missing_clone_is_cloned_and_an_existing_one_is_fetched() {
    let mut fresh = fetch_repo(&config(&["master", "dev"]), migrated()).unwrap();
    let step = fresh.step(Event::Exists(false));
    assert_eq!(
        step.request,
        Request::Clone {
            uri: REMOTE.to_string(),
            path: RepoPath::from_str(&format!("data/repos/{}", repo_id(REMOTE)))
        }
    );
    assert_eq!(step.writes.len(), 4);
    assert!(matches!(step.writes[0], DbWrite::InsertRepo(_)));
    assert!(matches!(step.writes[3], DbWrite::UpdateRepo(_)));
    assert_eq!(fresh.repository().sync_state, SyncState::NotCloned);
    let step = fresh.step(Event::Done);
    assert_eq!(step.request, Request::ResolveRef { name: "refs/heads/master".to_string() });
    assert_eq!(fresh.repository().sync_state, SyncState::Cloned);
    assert!(fresh.repository().opened);

    let mut existing = fetch_repo(&config(&["master", "dev"]), migrated()).unwrap();
    let step = existing.step(Event::Exists(true));
    assert_eq!(
        step.request,
        Request::Open { path: RepoPath::from_str(&format!("data/repos/{}", repo_id(REMOTE))) }
    );
    assert_eq!(
        existing.db().find_repo(&repo_id(REMOTE)).unwrap().unwrap().sync_state,
        SyncState::Cloned
    );
    assert_eq!(
        existing.step(Event::Done).request,
        Request::Fetch { branches: vec!["master".to_string(), "dev".to_string()] }
    );
    assert_eq!(
        existing.step(Event::Done).request,
        Request::SetLocalBranchToRemote { branch: "master".to_string() }
    );
    assert_eq!(
        existing.step(Event::Done).request,
        Request::SetLocalBranchToRemote { branch: "dev".to_string() }
    );
    assert_eq!(
        existing.step(Event::Done).request,
        Request::ResolveRef { name: "refs/heads/master".to_string() }
    );
}

#[test]
fn a_corrupted_clone_ends_the_run() {
    let mut db = migrated();
    let mut repo = Repo::new_for_config(&config(&["master"])).unwrap();
    repo.update_repo_in_db(&mut db).unwrap();
    let mut stored = db.find_repo(&repo.id).unwrap().unwrap();
    stored.sync_state = SyncState::Corrupted;
    db.update_repo(&stored).unwrap();
    db.take_writes();
    let mut session = fetch_repo(&config(&["master"]), db).unwrap();
    let step = session.step(Event::Exists(true));
    assert!(invalid_state(&step.request));
    assert!(session.is_finished());
    assert_eq!(session.repository().sync_state, SyncState::Corrupted);
}

#[test]
fn a_reported_failure_ends_the_run_with_that_error() {
    let mut session = up_to_first_tip(&["master"]);
    let step = session.step(Event::Failed(RepoError::GitError("ref not found".to_string())));
    assert_eq!(step.request, Request::Failed(RepoError::GitError("ref not found".to_string())));
    assert_eq!(step.writes, vec![]);
    assert!(session.is_finished());
    assert!(invalid_state(&session.step(Event::Done).request));
}

#[test]
fn an_event_that_answers_another_request_ends_the_run() {
    let events: Vec<fn() -> Event> = vec![
        || Event::Exists(true),
        || Event::Done,
        || Event::Oids(vec![]),
        || Event::Tree(vec![]),
        || Event::Deltas(vec![]),
        || Event::Blob { blob: Blob { binary: true, content: vec![] }, changed: GitTime { seconds: 0, offset_minutes: 0 } },
    ];
    for event in events {
        let mut session = up_to_first_tip(&["master"]);
        assert!(invalid_state(&session.step(event()).request));
        assert!(session.is_finished());
    }
    let mut probing = fetch_repo(&config(&["master"]), migrated()).unwrap();
    assert!(invalid_state(&probing.step(Event::Oid("c".to_string())).request));
}

#[test]
fn a_tree_is_refused_where_a_diff_was_asked_for() {
    let mut db = migrated();
    let mut repo = Repo::new_for_config(&config(&["master"])).unwrap();
    repo.update_repo_in_db(&mut db).unwrap();
    db.mark_branch_as_indexed(&repo.id, "master", "c1").unwrap();
    db.take_writes();
    let mut session = index_repo(&config(&["master"]), db).unwrap();
    session.step(Event::Exists(true));
    session.step(Event::Done);
    session.step(Event::Done);
    assert!(matches!(session.step(Event::Done).request, Request::ResolveRef { .. }));
    assert_eq!(
        session.step(Event::Oid("c2".to_string())).request,
        Request::MergeBases { one: "c2".to_string(), two: "c1".to_string() }
    );
    match session.step(Event::Oids(vec!["c1".to_string()])).request {
        Request::Revwalk(walk) => {
            assert_eq!(walk.pushed, vec!["c2".to_string()]);
            assert_eq!(walk.hidden, vec!["c1".to_string()]);
        },
        other => panic!("{:?}", other),
    }
    assert_eq!(
        session.step(Event::Oids(vec!["c2".to_string()])).request,
        Request::TreeDiff {
            old_commit_id: "c1".to_string(),
            new_commit_id: "c2".to_string(),
            ignore_whitespace: true,
            ignore_filemode: true
        }
    );
    assert!(invalid_state(&session.step(Event::Tree(vec![])).request));
}

#[test]
fn a_diff_is_refused_where_a_tree_was_asked_for() {
    let mut session = up_to_first_tip(&["master"]);
    match session.step(Event::Oid("c1".to_string())).request {
        Request::Revwalk(walk) => {
            assert_eq!(walk.pushed, vec!["c1".to_string()]);
            assert_eq!(walk.hidden, Vec::<String>::new());
        },
        other => panic!("{:?}", other),
    }
    assert_eq!(
        session.step(Event::Oids(vec!["c1".to_string()])).request,
        Request::WalkTree { commit_id: "c1".to_string() }
    );
    assert!(invalid_state(&session.step(Event::Deltas(vec![])).request));
}

#[test]
fn a_branch_the_catalog_does_not_know_ends_the_run() {
    let mut db = migrated();
    let mut repo = Repo::new_for_config(&config(&["master"])).unwrap();
    repo.update_repo_in_db(&mut db).unwrap();
    db.take_writes();
    let mut session = fetch_repo(&config(&["master", "late"]), db).unwrap();
    session.step(Event::Exists(false));
    session.step(Event::Done);
    session.step(Event::Oid("c1".to_string()));
    assert_eq!(
        session.step(Event::Oids(vec![])).request,
        Request::ResolveRef { name: "refs/heads/late".to_string() }
    );
    assert_eq!(
        session.step(Event::Oid("c1".to_string())).request,
        Request::Failed(RepoError::BranchNotFound)
    );
}

#[test]
fn a_catalog_without_tables_ends_the_run_at_the_first_write() {
    let mut session = fetch_repo(&config(&["master"]), Db::open_in_memory().unwrap()).unwrap();
    let step = session.step(Event::Exists(true));
    assert!(matches!(step.request, Request::Failed(RepoError::SqlError(_))));
    assert_eq!(step.writes, vec![]);
    assert!(session.is_finished());
}

#[test]
fn a_commit_whose_time_cannot_be_written_ends_the_run() {
    let mut session = up_to_first_tip(&["master"]);
    session.step(Event::Oid("c1".to_string()));
    session.step(Event::Oids(vec!["c1".to_string()]));
    assert_eq!(
        session.step(Event::Tree(vec![])).request,
        Request::FindCommit { commit_id: "c1".to_string() }
    );
    let commit = codelauf::git::GitCommit {
        id: "c1".to_string(),
        parents: vec![],
        author: codelauf::git::GitSignature { name: None, email: None },
        committer: codelauf::git::GitSignature { name: None, email: None },
        time: GitTime { seconds: 0, offset_minutes: 9999 },
        message: None,
    };
    assert!(matches!(
        session.step(Event::Commit(commit)).request,
        Request::Failed(RepoError::GitError(_))
    ));
}

#[test]
fn a_run_without_branches_plans_nothing() {
    let mut session = index_repo(&config(&[]), migrated()).unwrap();
    session.step(Event::Exists(false));
    let step = session.step(Event::Done);
    assert_eq!(step.request, Request::Done);
    assert!(session.is_finished());
    assert_eq!(session.db().find_repo(&repo_id(REMOTE)).unwrap().unwrap().sync_state, SyncState::Cloned);
}

#[test]
fn the_catalog_lives_in_the_data_directory() {
    assert_eq!(db_path(&config(&[])), RepoPath::from_str("data/db.sqlite"));
    assert_eq!(db_path(&Config::new()), RepoPath::from_str("./db.sqlite"));
}

#[test]
fn init_migrates_and_sync_does_nothing() {
    let mut db = Db::open_in_memory().unwrap();
    assert_eq!(init(&Config::new(), &mut db), Ok(()));
    assert_eq!(db.schema_version(), 4);
    assert_eq!(db.pending_count(), 4);
    db.insert_branch(&RepoBranch::new("r".into(), "m".into(), None)).unwrap();
    assert_eq!(init(&Config::new(), &mut db), Ok(()));
    assert_eq!(db.branches().len(), 1);
    assert_eq!(run_sync(&Config::new()), Ok(()));
}
