use codelauf::models::repo_branch::{BranchRow, RepoBranch};
use codelauf::models::repo_commit::{CommitRow, CommitState, RepoCommit};
use codelauf::models::repo_file::{FileRow, RepoFile};
use codelauf::models::repository::{Repository, RepositoryRow, Timespec};
use codelauf::models::types::{
    bytes_eq, path_buf_from_bytes, path_buf_from_bytes_vec, path_to_bytes, path_to_bytes_vec,
    str_eq, RepoPath,
};
use codelauf::repo::SyncState;
use codelauf::result::{DbError, RepoError};

#[test]
fn sync_state_names_round_trip() {
    for state in [SyncState::NotCloned, SyncState::Cloned, SyncState::Corrupted] {
        assert_eq!(SyncState::from_str(&state.to_string()), Ok(state));
    }
    assert_eq!(SyncState::NotCloned.to_string(), "NotCloned");
    assert_eq!(SyncState::Cloned.to_string(), "Cloned");
    assert_eq!(SyncState::Corrupted.to_string(), "Corrupted");
}

#[test]
fn sync_state_refuses_other_text_and_carries_it() {
    assert_eq!(
        SyncState::from_str("cloned"),
        Err(RepoError::EnumParseError("cloned".to_string()))
    );
    assert_eq!(SyncState::from_str(""), Err(RepoError::EnumParseError(String::new())));
    assert_eq!(
        SyncState::from_str("Cloned "),
        Err(RepoError::EnumParseError("Cloned ".to_string()))
    );
}

#[test]
fn commit_state_names_round_trip() {
    for state in [CommitState::Indexed, CommitState::NotIndexed] {
        assert_eq!(CommitState::from_str(&state.to_string()), Ok(state));
    }
    assert_eq!(CommitState::Indexed.to_string(), "Indexed");
    assert_eq!(CommitState::NotIndexed.to_string(), "NotIndexed");
    assert_eq!(
        CommitState::from_str("notindexed"),
        Err(RepoError::EnumParseError("notindexed".to_string()))
    );
}

#[test]
fn paths_are_bytes_both_ways() {
    let odd = vec![0x80, 0xff, 0x2f, 0x61];
    let path = path_buf_from_bytes_vec(odd.clone());
    assert_eq!(path.bytes, odd);
    assert_eq!(path_to_bytes(&path), Ok(&odd[..]));
    assert_eq!(path_to_bytes_vec(&path), Ok(odd.clone()));
    assert_eq!(path_buf_from_bytes(&path_to_bytes_vec(&path).unwrap()), path);
    assert_eq!(path_buf_from_bytes(b"src/main.rs"), RepoPath::from_str("src/main.rs"));
    assert_eq!(RepoPath::new().bytes, Vec::<u8>::new());
    assert_eq!(path.clone(), path);
}

#[test]
fn join_puts_one_separator_between_components() {
    let join = |base: &str, name: &str| RepoPath::from_str(base).join(name.as_bytes());
    assert_eq!(join("", "a"), RepoPath::from_str("a"));
    assert_eq!(join("src", "main.rs"), RepoPath::from_str("src/main.rs"));
    assert_eq!(join("src/", "main.rs"), RepoPath::from_str("src/main.rs"));
    assert_eq!(join("/", "data"), RepoPath::from_str("/data"));
    assert_eq!(join("data", "/etc"), RepoPath::from_str("/etc"));
    assert_eq!(join("data", ""), RepoPath::from_str("data/"));
    assert_eq!(join("", ""), RepoPath::from_str(""));
    assert!(RepoPath::from_str("a").same_as(&RepoPath::from_str("a")));
    assert!(!RepoPath::from_str("a").same_as(&RepoPath::from_str("a/")));
}

#[test]
fn text_and_bytes_compare_by_content() {
    assert!(str_eq("master", "master"));
    assert!(!str_eq("master", "Master"));
    assert!(!str_eq("master", "master "));
    assert!(str_eq("", ""));
    assert!(bytes_eq(b"", b""));
    assert!(bytes_eq(b"\xff\x00", b"\xff\x00"));
    assert!(!bytes_eq(b"\xff\x00", b"\xff"));
    assert!(!bytes_eq(b"ab", b"ac"));
}

#[test]
fn a_repository_row_is_read_with_its_state() {
    let row = RepositoryRow {
        id: "r".to_string(),
        uri: "u".to_string(),
        path: vec![0x2f, 0xff],
        sync_state: "Corrupted".to_string(),
        added_datetime: Some(Timespec { sec: 1, nsec: 2 }),
        fetched_datetime: None,
        indexed_datetime: Some(Timespec { sec: 3, nsec: 4 }),
    };
    let repo = Repository::new_from_sql_row(&row).unwrap();
    assert_eq!(repo.id, "r");
    assert_eq!(repo.uri, "u");
    assert_eq!(repo.path.bytes, vec![0x2f, 0xff]);
    assert_eq!(repo.sync_state, SyncState::Corrupted);
    assert_eq!(repo.added_datetime, Some(Timespec { sec: 1, nsec: 2 }));
    assert_eq!(repo.fetched_datetime, None);
    assert_eq!(repo.indexed_datetime, Some(Timespec { sec: 3, nsec: 4 }));
    let bad = RepositoryRow { sync_state: "Broken".to_string(), ..row };
    assert_eq!(
        Repository::new_from_sql_row(&bad),
        Err(RepoError::EnumParseError("Broken".to_string()))
    );
}

#[test]
fn a_new_repository_is_not_cloned_and_dated() {
    let at = Repository::new_at(
        "r".to_string(),
        "u".to_string(),
        RepoPath::from_str("p"),
        Timespec { sec: 9, nsec: 8 },
    );
    assert_eq!(at.sync_state, SyncState::NotCloned);
    assert_eq!(at.added_datetime, Some(Timespec { sec: 9, nsec: 8 }));
    assert_eq!((at.fetched_datetime, at.indexed_datetime), (None, None));
    let now = Repository::new_from_remote("r".to_string(), "u".to_string(), RepoPath::from_str("p"));
    let added = now.added_datetime.unwrap();
    assert!(added.sec > 1_400_000_000);
    assert_eq!(Repository { added_datetime: Some(Timespec { sec: 9, nsec: 8 }), ..now }, at);
}

#[test]
fn branch_commit_and_file_rows_are_read() {
    let branch = RepoBranch::new_from_sql_row(&BranchRow {
        repo_id: "r".to_string(),
        name: "master".to_string(),
        indexed_commit_id: Some("c".to_string()),
    });
    assert_eq!(branch, Ok(RepoBranch::new("r".into(), "master".into(), Some("c".into()))));
    let commit = RepoCommit::new_from_sql_row(&CommitRow {
        id: "c".to_string(),
        repo_id: "r".to_string(),
        state: "NotIndexed".to_string(),
    });
    assert_eq!(commit, Ok(RepoCommit::new("c".into(), "r".into(), CommitState::NotIndexed)));
    let bad = RepoCommit::new_from_sql_row(&CommitRow {
        id: "c".to_string(),
        repo_id: "r".to_string(),
        state: "Done".to_string(),
    });
    assert_eq!(bad, Err(RepoError::EnumParseError("Done".to_string())));
    let file = RepoFile::new_from_sql_row(&FileRow {
        repo_id: "r".to_string(),
        branch: "dev".to_string(),
        path: vec![0xfe, 0x61],
        changed_commit_id: "c2".to_string(),
        indexed_commit_id: None,
    })
    .unwrap();
    assert_eq!(
        file,
        RepoFile::new("r".into(), "dev".into(), RepoPath { bytes: vec![0xfe, 0x61] }, "c2".into(), None)
    );
    assert!(file.needs_index());
    assert!(!RepoFile { indexed_commit_id: Some("c2".into()), ..file.clone() }.needs_index());
    assert!(RepoFile { indexed_commit_id: Some("c1".into()), ..file }.needs_index());
}

#[test]
fn a_row_error_is_wrapped() {
    assert_eq!(
        RepoError::from(DbError::EnumParseError("x".to_string())),
        RepoError::DbError(DbError::EnumParseError("x".to_string()))
    );
}
