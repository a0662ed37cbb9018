use codelauf::db::{Db, DbWrite};
use codelauf::models::repo_branch::{CreateBranchesTable, RepoBranch};
use codelauf::models::repo_commit::{CommitState, CreateCommitsTable, RepoCommit};
use codelauf::models::repo_file::{CreateFilesTable, RepoFile};
use codelauf::models::repository::{CreateRepositoriesTable, Repository, Timespec};
use codelauf::models::types::RepoPath;
use codelauf::repo::SyncState;
use codelauf::result::RepoError;

fn migrated() -> Db {
    let mut db = Db::open_in_memory().unwrap();
    db.migrate();
    db.take_writes();
    db
}

fn repository(id: &str, uri: &str) -> Repository {
    Repository::new_at(
        id.to_string(),
        uri.to_string(),
        RepoPath::from_str("/data/repos/x"),
        Timespec { sec: 1_400_000_000, nsec: 5 },
    )
}

fn is_sql_error<T: std::fmt::Debug>(result: Result<T, RepoError>) -> bool {
    matches!(result, Err(RepoError::SqlError(_)))
}

#[test]
fn a_new_catalog_has_no_tables() {
    let mut db = Db::open_in_memory().unwrap();
    assert_eq!(db.schema_version(), 0);
    assert!(is_sql_error(db.find_repo("r")));
    assert!(is_sql_error(db.find_repo_by_remote(&"u".to_string())));
    assert!(is_sql_error(db.find_branch("r", "master")));
    assert!(is_sql_error(db.find_commits_not_indexed("r")));
    assert!(is_sql_error(db.find_files_not_indexed("r")));
    assert!(is_sql_error(db.insert_repo(&repository("r", "u"))));
    assert!(is_sql_error(db.update_repo(&repository("r", "u"))));
    assert!(is_sql_error(db.insert_branch(&RepoBranch::new("r".into(), "m".into(), None))));
    assert!(is_sql_error(db.mark_branch_as_indexed("r", "m", "c")));
    assert!(is_sql_error(db.create_commit_unless_exists("c", "r")));
    assert!(is_sql_error(db.mark_commit_as_indexed("r", "c")));
    assert!(is_sql_error(db.clear_commits("r")));
    assert!(is_sql_error(db.upsert_file("r", "m", &RepoPath::from_str("a"), "c")));
    assert!(is_sql_error(db.mark_file_as_indexed("r", &RepoPath::from_str("a"), "c")));
    assert_eq!(db.pending_count(), 0);
}

#[test]
fn migrations_apply_in_order_only() {
    let mut db = Db::open_in_memory().unwrap();
    assert!(is_sql_error(CreateBranchesTable.up(&mut db)));
    assert_eq!(CreateRepositoriesTable.up(&mut db), Ok(()));
    assert!(is_sql_error(CreateRepositoriesTable.up(&mut db)));
    assert!(is_sql_error(CreateFilesTable.up(&mut db)));
    assert_eq!(CreateBranchesTable.up(&mut db), Ok(()));
    assert_eq!(CreateCommitsTable.up(&mut db), Ok(()));
    assert_eq!(CreateFilesTable.up(&mut db), Ok(()));
    assert_eq!(db.schema_version(), 4);
    assert_eq!(
        db.take_writes(),
        vec![DbWrite::Up(1), DbWrite::Up(2), DbWrite::Up(3), DbWrite::Up(4)]
    );
    assert_eq!(
        (
            CreateRepositoriesTable.version(),
            CreateBranchesTable.version(),
            CreateCommitsTable.version(),
            CreateFilesTable.version()
        ),
        (1, 2, 3, 4)
    );
    assert_eq!(CreateRepositoriesTable.description(), "create repositories table");
    assert_eq!(CreateBranchesTable.description(), "create branches table");
    assert_eq!(CreateCommitsTable.description(), "create commits table");
    assert_eq!(CreateFilesTable.description(), "create files table");
}

#[test]
fn migrate_keeps_rows_and_finishes_a_partial_schema() {
    let mut db = Db::open_in_memory().unwrap();
    CreateRepositoriesTable.up(&mut db).unwrap();
    db.insert_repo(&repository("r", "u")).unwrap();
    db.migrate();
    assert_eq!(db.schema_version(), 4);
    assert_eq!(db.repositories(), vec![repository("r", "u")]);
    db.migrate();
    assert_eq!(db.schema_version(), 4);
}

#[test]
fn down_drops_the_newest_table_with_its_rows() {
    let mut db = migrated();
    db.upsert_file("r", "m", &RepoPath::from_str("a"), "c").unwrap();
    db.create_commit_unless_exists("c", "r").unwrap();
    assert!(is_sql_error(CreateCommitsTable.down(&mut db)));
    assert_eq!(CreateFilesTable.down(&mut db), Ok(()));
    assert_eq!(db.schema_version(), 3);
    assert_eq!(db.files(), vec![]);
    assert_eq!(db.commits().len(), 1);
    assert_eq!(CreateCommitsTable.down(&mut db), Ok(()));
    assert_eq!(db.commits(), vec![]);
    assert_eq!(CreateBranchesTable.down(&mut db), Ok(()));
    assert_eq!(CreateRepositoriesTable.down(&mut db), Ok(()));
    assert_eq!(db.schema_version(), 0);
    assert!(is_sql_error(CreateRepositoriesTable.down(&mut db)));
}

#[test]
fn repositories_are_unique_by_id_and_by_uri() {
    let mut db = migrated();
    assert_eq!(db.insert_repo(&repository("r1", "u1")), Ok(()));
    assert!(is_sql_error(db.insert_repo(&repository("r1", "u2"))));
    assert!(is_sql_error(db.insert_repo(&repository("r2", "u1"))));
    assert_eq!(db.insert_repo(&repository("r2", "u2")), Ok(()));
    assert_eq!(db.find_repo("r2").unwrap(), Some(repository("r2", "u2")));
    assert_eq!(db.find_repo_by_remote(&"u1".to_string()).unwrap(), Some(repository("r1", "u1")));
    assert_eq!(db.find_repo("r3").unwrap(), None);
    assert_eq!(db.find_repo_by_remote(&"u3".to_string()).unwrap(), None);
    assert_eq!(db.pending_count(), 2);
}

#[test]
fn update_repo_writes_state_path_and_times_but_not_identity() {
    let mut db = migrated();
    db.insert_repo(&repository("r1", "u1")).unwrap();
    db.insert_repo(&repository("r2", "u2")).unwrap();
    let mut changed = repository("r1", "another-uri");
    changed.path = RepoPath::from_str("/elsewhere");
    changed.sync_state = SyncState::Corrupted;
    changed.added_datetime = None;
    changed.fetched_datetime = Some(Timespec { sec: 7, nsec: 0 });
    changed.indexed_datetime = Some(Timespec { sec: 8, nsec: 1 });
    assert_eq!(db.update_repo(&changed), Ok(()));
    let stored = db.find_repo("r1").unwrap().unwrap();
    assert_eq!(stored.uri, "u1");
    assert_eq!(stored.added_datetime, Some(Timespec { sec: 1_400_000_000, nsec: 5 }));
    assert_eq!(stored.path, RepoPath::from_str("/elsewhere"));
    assert_eq!(stored.sync_state, SyncState::Corrupted);
    assert_eq!(stored.fetched_datetime, Some(Timespec { sec: 7, nsec: 0 }));
    assert_eq!(stored.indexed_datetime, Some(Timespec { sec: 8, nsec: 1 }));
    assert_eq!(db.find_repo("r2").unwrap(), Some(repository("r2", "u2")));
    assert_eq!(db.update_repo(&repository("unknown", "u9")), Ok(()));
    assert_eq!(db.repositories().len(), 2);
}

#[test]
fn branches_are_unique_by_repository_and_name() {
    let mut db = migrated();
    let master = RepoBranch::new("r".into(), "master".into(), None);
    assert_eq!(db.insert_branch(&master), Ok(()));
    assert!(is_sql_error(db.insert_branch(&RepoBranch::new(
        "r".into(),
        "master".into(),
        Some("c".into())
    ))));
    assert_eq!(db.insert_branch(&RepoBranch::new("r".into(), "dev".into(), None)), Ok(()));
    assert_eq!(db.insert_branch(&RepoBranch::new("other".into(), "master".into(), None)), Ok(()));
    assert_eq!(db.find_branch("r", "master").unwrap(), Some(master));
    assert_eq!(db.find_branch("r", "gone").unwrap(), None);
}

#[test]
fn marking_a_branch_sets_the_commit_of_that_branch_only() {
    let mut db = migrated();
    db.insert_branch(&RepoBranch::new("r".into(), "master".into(), None)).unwrap();
    db.insert_branch(&RepoBranch::new("r".into(), "dev".into(), None)).unwrap();
    db.insert_branch(&RepoBranch::new("q".into(), "master".into(), None)).unwrap();
    assert_eq!(db.mark_branch_as_indexed("r", "master", "c2"), Ok(()));
    assert_eq!(
        db.branches(),
        vec![
            RepoBranch::new("r".into(), "master".into(), Some("c2".into())),
            RepoBranch::new("r".into(), "dev".into(), None),
            RepoBranch::new("q".into(), "master".into(), None),
        ]
    );
}

#[test]
fn a_discovered_commit_enters_once_and_is_never_reset() {
    let mut db = migrated();
    assert_eq!(db.create_commit_unless_exists("c1", "r"), Ok(()));
    assert_eq!(db.create_commit_unless_exists("c1", "r"), Ok(()));
    assert_eq!(db.create_commit_unless_exists("c2", "r"), Ok(()));
    assert_eq!(db.create_commit_unless_exists("c1", "q"), Ok(()));
    assert_eq!(db.commits().len(), 3);
    assert_eq!(db.find_commits_not_indexed("r").unwrap(), vec!["c1".to_string(), "c2".to_string()]);
    assert_eq!(db.mark_commit_as_indexed("r", "c1"), Ok(()));
    assert_eq!(db.find_commits_not_indexed("r").unwrap(), vec!["c2".to_string()]);
    assert_eq!(db.find_commits_not_indexed("q").unwrap(), vec!["c1".to_string()]);
    assert_eq!(db.create_commit_unless_exists("c1", "r"), Ok(()));
    assert_eq!(
        db.commits()[0],
        RepoCommit::new("c1".into(), "r".into(), CommitState::Indexed)
    );
    assert_eq!(db.find_commits_not_indexed("r").unwrap(), vec!["c2".to_string()]);
}

#[test]
fn clear_commits_forgets_one_repository() {
    let mut db = migrated();
    db.create_commit_unless_exists("c1", "r").unwrap();
    db.create_commit_unless_exists("c1", "q").unwrap();
    db.create_commit_unless_exists("c2", "r").unwrap();
    assert_eq!(db.clear_commits("r"), Ok(()));
    assert_eq!(db.commits(), vec![RepoCommit::new("c1".into(), "q".into(), CommitState::NotIndexed)]);
}

#[test]
fn upsert_resets_the_indexed_commit_of_a_changed_file() {
    let mut db = migrated();
    let a = RepoPath::from_str("a.txt");
    assert_eq!(db.upsert_file("r", "master", &a, "c1"), Ok(()));
    assert_eq!(
        db.files(),
        vec![RepoFile::new("r".into(), "master".into(), RepoPath::from_str("a.txt"), "c1".into(), None)]
    );
    assert_eq!(db.find_files_not_indexed("r").unwrap().len(), 1);
    assert_eq!(db.mark_file_as_indexed("r", &a, "c1"), Ok(()));
    assert_eq!(db.find_files_not_indexed("r").unwrap(), vec![]);
    assert_eq!(db.upsert_file("r", "master", &a, "c2"), Ok(()));
    assert_eq!(
        db.find_files_not_indexed("r").unwrap(),
        vec![RepoFile::new("r".into(), "master".into(), RepoPath::from_str("a.txt"), "c2".into(), None)]
    );
    assert_eq!(db.files().len(), 1);
}

#[test]
fn a_file_indexed_at_another_commit_needs_indexing() {
    let mut db = migrated();
    let a = RepoPath::from_str("a.txt");
    db.upsert_file("r", "master", &a, "c2").unwrap();
    db.mark_file_as_indexed("r", &a, "c1").unwrap();
    let pending = db.find_files_not_indexed("r").unwrap();
    assert_eq!(pending.len(), 1);
    assert_eq!(pending[0].indexed_commit_id, Some("c1".to_string()));
    assert!(pending[0].needs_index());
    assert_eq!(db.find_files_not_indexed("q").unwrap(), vec![]);
}

#[test]
fn marking_a_file_reaches_every_branch_with_that_path() {
    let mut db = migrated();
    let a = RepoPath::from_str("a.txt");
    db.upsert_file("r", "master", &a, "c2").unwrap();
    db.upsert_file("r", "dev", &a, "d1").unwrap();
    db.upsert_file("r", "dev", &RepoPath::from_str("b.txt"), "d1").unwrap();
    db.upsert_file("q", "master", &a, "c2").unwrap();
    db.mark_file_as_indexed("r", &a, "c2").unwrap();
    let indexed: Vec<Option<String>> = db.files().into_iter().map(|f| f.indexed_commit_id).collect();
    assert_eq!(indexed, vec![Some("c2".to_string()), Some("c2".to_string()), None, None]);
    let pending: Vec<(String, RepoPath)> =
        db.find_files_not_indexed("r").unwrap().into_iter().map(|f| (f.branch, f.path)).collect();
    assert_eq!(
        pending,
        vec![
            ("dev".to_string(), RepoPath::from_str("a.txt")),
            ("dev".to_string(), RepoPath::from_str("b.txt"))
        ]
    );
}

#[test]
fn a_path_that_is_not_text_comes_back_byte_for_byte() {
    let mut db = migrated();
    let odd = RepoPath { bytes: vec![0xff, 0x00, 0x2f, 0xc3, 0x28] };
    db.upsert_file("r", "master", &odd, "c1").unwrap();
    let pending = db.find_files_not_indexed("r").unwrap();
    assert_eq!(pending[0].path.bytes, vec![0xff, 0x00, 0x2f, 0xc3, 0x28]);
    db.mark_file_as_indexed("r", &odd, "c1").unwrap();
    assert_eq!(db.find_files_not_indexed("r").unwrap(), vec![]);
}

#[test]
fn the_journal_replays_to_the_same_content() {
    let mut db = migrated();
    db.insert_repo(&repository("r", "u")).unwrap();
    db.insert_branch(&RepoBranch::new("r".into(), "master".into(), None)).unwrap();
    db.create_commit_unless_exists("c1", "r").unwrap();
    db.create_commit_unless_exists("c1", "r").unwrap();
    db.upsert_file("r", "master", &RepoPath::from_str("a"), "c1").unwrap();
    db.mark_commit_as_indexed("r", "c1").unwrap();
    db.mark_file_as_indexed("r", &RepoPath::from_str("a"), "c1").unwrap();
    db.mark_branch_as_indexed("r", "master", "c1").unwrap();
    assert!(is_sql_error(db.insert_repo(&repository("r", "u"))));
    assert_eq!(db.pending_count(), 8);
    let journal = db.take_writes();
    assert_eq!(journal.len(), 8);
    assert_eq!(db.pending_count(), 0);
    let mut mirror = migrated();
    assert_eq!(mirror.apply_all(&journal), Ok(()));
    assert_eq!(mirror.repositories(), db.repositories());
    assert_eq!(mirror.branches(), db.branches());
    assert_eq!(mirror.commits(), db.commits());
    assert_eq!(mirror.files(), db.files());
}

#[test]
fn apply_all_stops_at_the_first_refused_write() {
    let mut db = migrated();
    let writes = vec![
        DbWrite::CreateCommit { id: "c1".into(), repo_id: "r".into() },
        DbWrite::InsertBranch(RepoBranch::new("r".into(), "m".into(), None)),
        DbWrite::InsertBranch(RepoBranch::new("r".into(), "m".into(), None)),
        DbWrite::CreateCommit { id: "c2".into(), repo_id: "r".into() },
    ];
    assert!(is_sql_error(db.apply_all(&writes)));
    assert_eq!(db.commits().len(), 1);
    assert_eq!(db.branches().len(), 1);
    assert_eq!(db.pending_count(), 2);
    assert_eq!(db.apply(&DbWrite::ClearCommits { repo_id: "r".into() }), Ok(()));
    assert_eq!(db.commits(), vec![]);
}

#[test]
fn from_rows_takes_what_a_catalog_holds() {
    let mut db = migrated();
    db.insert_repo(&repository("r", "u")).unwrap();
    db.upsert_file("r", "master", &RepoPath::from_str("a"), "c2").unwrap();
    db.upsert_file("r", "dev", &RepoPath::from_str("a"), "d1").unwrap();
    db.mark_file_as_indexed("r", &RepoPath::from_str("a"), "d1").unwrap();
    db.upsert_file("r", "master", &RepoPath::from_str("a"), "c3").unwrap();
    let copy = Db::from_rows(4, db.repositories(), db.branches(), db.commits(), db.files()).unwrap();
    assert_eq!(copy.files(), db.files());
    assert_eq!(copy.repositories(), db.repositories());
    assert_eq!(copy.pending_count(), 0);
    assert_eq!(copy.schema_version(), 4);
}

#[test]
fn from_rows_refuses_rows_that_break_the_invariant() {
    let file = |branch: &str, path: &str| {
        RepoFile::new("r".into(), branch.into(), RepoPath::from_str(path), "c".into(), None)
    };
    assert!(Db::from_rows(5, vec![], vec![], vec![], vec![]).is_err());
    assert!(Db::from_rows(3, vec![], vec![], vec![], vec![file("m", "a")]).is_err());
    assert!(Db::from_rows(0, vec![repository("r", "u")], vec![], vec![], vec![]).is_err());
    assert!(Db::from_rows(4, vec![], vec![], vec![], vec![file("m", "a"), file("m", "a")]).is_err());
    assert!(Db::from_rows(4, vec![], vec![], vec![], vec![file("m", "a"), file("d", "a")]).is_ok());
    assert!(
        Db::from_rows(4, vec![repository("r", "u"), repository("r", "v")], vec![], vec![], vec![])
            .is_err()
    );
    assert!(
        Db::from_rows(4, vec![repository("r", "u"), repository("q", "u")], vec![], vec![], vec![])
            .is_err()
    );
    let branch = || RepoBranch::new("r".into(), "m".into(), None);
    assert!(Db::from_rows(4, vec![], vec![branch(), branch()], vec![], vec![]).is_err());
    let commit = |state| RepoCommit::new("c".into(), "r".into(), state);
    assert!(Db::from_rows(
        4,
        vec![],
        vec![],
        vec![commit(CommitState::Indexed), commit(CommitState::NotIndexed)],
        vec![]
    )
    .is_err());
    assert!(matches!(
        Db::from_rows(4, vec![], vec![], vec![], vec![file("m", "a"), file("m", "a")]),
        Err(RepoError::SqlError(_))
    ));
}
