use codelauf::config::{Config, RepoLocation};
use codelauf::db::Db;
use codelauf::digest::file_id;
use codelauf::git::{Blob, Delta, DeltaStatus, GitCommit, GitSignature, GitTime};
use codelauf::index::{parse_port, Commit, CommitId, Index, IndexedFile, Signature};
use codelauf::models::repo_branch::RepoBranch;
use codelauf::models::repo_file::RepoFile;
use codelauf::models::types::RepoPath;
use codelauf::repo::Repo;
use codelauf::result::RepoError;
use codelauf::session::Request;

fn config(elasticsearch: Option<&str>) -> Config {
    let mut config = Config::new();
    config.elasticsearch = elasticsearch.map(|e| e.to_string());
    let mut location = RepoLocation::new();
    location.remote = Some("remote".to_string());
    location.branches = vec!["master".to_string(), "dev".to_string()];
    config.repo_location = Some(location);
    config
}

fn index() -> Index {
    Index::new_for_config(&config(Some("localhost"))).unwrap()
}

fn repo() -> Repo {
    let mut repo = Repo::new_for_config(&config(None)).unwrap();
    repo.open_repo().unwrap();
    repo
}

fn migrated() -> Db {
    let mut db = Db::open_in_memory().unwrap();
    db.migrate();
    db.take_writes();
    db
}

fn commit(seconds: i64, offset_minutes: i32) -> GitCommit {
    GitCommit {
        id: "c2".to_string(),
        parents: vec!["c1".to_string(), "c0".to_string()],
        author: GitSignature { name: Some("Ada".to_string()), email: None },
        committer: GitSignature { name: None, email: Some("bot@example.org".to_string()) },
        time: GitTime { seconds, offset_minutes },
        message: Some("fix".to_string()),
    }
}

fn delta(status: DeltaStatus, old_path: Option<&str>, new_path: Option<&str>) -> Delta {
    Delta {
        status,
        old_path: old_path.map(RepoPath::from_str),
        new_path: new_path.map(RepoPath::from_str),
        old_oid: None,
        new_oid: None,
    }
}

#[test]
fn the_address_is_a_host_and_an_optional_port() {
    let parse = |address: &str| {
        Index::new_for_config(&config(Some(address))).map(|i| (i.es_host, i.es_port))
    };
    assert_eq!(parse("localhost"), Ok(("localhost".to_string(), 9200)));
    assert_eq!(parse("es.example.org:9300"), Ok(("es.example.org".to_string(), 9300)));
    assert_eq!(parse("host:1:ignored:parts"), Ok(("host".to_string(), 1)));
    assert_eq!(parse(":80"), Ok((String::new(), 80)));
    assert_eq!(parse(""), Ok((String::new(), 9200)));
    assert_eq!(parse("h:+443"), Ok(("h".to_string(), 443)));
    assert_eq!(parse("h:0009"), Ok(("h".to_string(), 9)));
    assert_eq!(parse("h:4294967295"), Ok(("h".to_string(), 4294967295)));
    assert_eq!(parse("hôte:12"), Ok(("hôte".to_string(), 12)));
}

#[test]
fn a_port_that_is_no_number_is_refused() {
    for address in ["h:", "h::9200", "h:92o0", "h:-1", "h:+", "h: 80", "h:4294967296", "h:99999999999999999999"] {
        assert!(
            matches!(Index::new_for_config(&config(Some(address))), Err(RepoError::ParseIntError(_))),
            "{}",
            address
        );
    }
    assert_eq!(Index::new_for_config(&config(None)), Err(RepoError::NoElasticSearch));
}

#[test]
fn numbers_are_read_as_the_standard_library_reads_them() {
    for text in ["0", "7", "+7", "007", "9200", "4294967295", "4294967296", "", "+", "-", "-0", "1 ", " 1", "１", "1_000", "0x10", "+-1", "++1"] {
        assert_eq!(parse_port(text), text.parse::<u32>().ok(), "{:?}", text);
    }
}

#[test]
fn commit_dates_are_rfc3339_in_the_zone_of_the_commit() {
    let date = |seconds, offset_minutes| {
        Index::datetime_convert_git_to_chrono(&GitTime { seconds, offset_minutes })
    };
    assert_eq!(date(1_400_000_000, 120), Some("2014-05-13T18:53:20+02:00".to_string()));
    assert_eq!(date(1_400_000_000, 0), Some("2014-05-13T16:53:20+00:00".to_string()));
    assert_eq!(date(0, -300), Some("1969-12-31T19:00:00-05:00".to_string()));
    assert_eq!(date(-1, 330), Some("1970-01-01T05:29:59+05:30".to_string()));
    assert_eq!(date(4_294_967_295, 1439), Some("2106-02-08T06:27:15+23:59".to_string()));
    assert_eq!(date(-2_147_483_648, 0), Some("1901-12-13T20:45:52+00:00".to_string()));
    assert!(date(-2_147_483_648, -1439).is_some());
    assert!(date(-2_147_483_648, 1439).is_some());
    assert!(date(4_294_967_295, -1439).is_some());
    assert_eq!(date(0, 1440), None);
    assert_eq!(date(0, -1440), None);
    assert_eq!(date(0, i32::MAX), None);
    assert_eq!(date(0, i32::MIN), None);
    assert_eq!(date(i64::MAX, 0), None);
    assert_eq!(date(i64::MIN, 0), None);
}

#[test]
fn blob_text_replaces_what_is_not_utf8() {
    assert_eq!(Index::blob_text(b"plain"), "plain");
    assert_eq!(Index::blob_text("gr\u{fc}n".as_bytes()), "gr\u{fc}n");
    assert_eq!(Index::blob_text(b"a\xffb"), "a\u{fffd}b");
    assert_eq!(Index::blob_text(b""), "");
    assert_eq!(Index::blob_text(b"\xe2\x82"), "\u{fffd}");
}

#[test]
fn a_commit_document_carries_what_the_commit_says() {
    let doc = Commit::new_for_git_commit("repo", &commit(1_400_000_000, -60)).unwrap();
    assert_eq!(
        doc,
        Commit {
            parents: vec![CommitId { id: "c1".to_string() }, CommitId { id: "c0".to_string() }],
            repo_id: "repo".to_string(),
            author: Signature { name: Some("Ada".to_string()), email: None },
            committer: Signature { name: None, email: Some("bot@example.org".to_string()) },
            commit_date: "2014-05-13T15:53:20-01:00".to_string(),
            message: Some("fix".to_string()),
        }
    );
    assert_eq!(CommitId::new_for_git_commit(&commit(0, 0)), CommitId { id: "c2".to_string() });
    assert_eq!(
        Signature::new_for_git_signature(&GitSignature { name: None, email: None }),
        Signature { name: None, email: None }
    );
    assert!(matches!(
        Commit::new_for_git_commit("repo", &commit(0, 100_000)),
        Err(RepoError::GitError(_))
    ));
}

#[test]
fn a_commit_is_shipped_under_its_id() {
    let repo = repo();
    let request = index().index_commit(&repo, "c2", &commit(0, 0)).unwrap();
    assert_eq!(
        request,
        Request::PutCommit {
            id: "c2".to_string(),
            commit: Commit::new_for_git_commit(&repo.id, &commit(0, 0)).unwrap()
        }
    );
    assert!(matches!(
        index().index_commit(&repo, "c2", &commit(i64::MAX, 0)),
        Err(RepoError::GitError(_))
    ));
}

#[test]
fn a_file_document_starts_empty_and_is_named_by_repository_and_path() {
    let file = IndexedFile::new("r".to_string(), RepoPath::from_str("a.txt"));
    assert_eq!(
        (file.text.clone(), file.keywords.clone(), file.changed_commit_id.clone(), file.changed_date.clone()),
        (None, None, None, None)
    );
    assert_eq!(file.id(), file_id("r", b"a.txt"));
    let other = IndexedFile { text: Some("x".to_string()), ..IndexedFile::new("r".into(), RepoPath::from_str("a.txt")) };
    assert_eq!(other.id(), file.id());
    assert_ne!(IndexedFile::new("q".into(), RepoPath::from_str("a.txt")).id(), file.id());
}

#[test]
fn text_is_shipped_and_binary_is_marked() {
    let repo = repo();
    let mut db = migrated();
    let path = RepoPath::from_str("a.txt");
    db.upsert_file(&repo.id, "master", &path, "c2").unwrap();
    let changed = GitTime { seconds: 0, offset_minutes: 60 };

    let text = Blob { binary: false, content: b"hi\xff".to_vec() };
    let request = index().index_blob(&mut db, &repo, &path, "c2", &text, &changed).unwrap();
    assert_eq!(
        request,
        Some(Request::PutFile {
            id: file_id(&repo.id, b"a.txt"),
            file: IndexedFile {
                repo_id: repo.id.clone(),
                path: RepoPath::from_str("a.txt"),
                text: Some("hi\u{fffd}".to_string()),
                keywords: None,
                changed_commit_id: Some("c2".to_string()),
                changed_date: Some("1970-01-01T01:00:00+01:00".to_string()),
            }
        })
    );
    assert_eq!(db.find_files_not_indexed(&repo.id).unwrap().len(), 1);

    let binary = Blob { binary: true, content: b"hi".to_vec() };
    assert_eq!(index().index_blob(&mut db, &repo, &path, "c2", &binary, &changed), Ok(None));
    assert_eq!(db.find_files_not_indexed(&repo.id).unwrap(), vec![]);
    assert_eq!(db.files()[0].indexed_commit_id, Some("c2".to_string()));

    let undated = GitTime { seconds: 0, offset_minutes: 5000 };
    match index().index_blob(&mut db, &repo, &path, "c2", &text, &undated).unwrap() {
        Some(Request::PutFile { file, .. }) => assert_eq!(file.changed_date, None),
        other => panic!("{:?}", other),
    }
    let mut bare = Db::open_in_memory().unwrap();
    assert!(matches!(
        index().index_blob(&mut bare, &repo, &path, "c2", &binary, &changed),
        Err(RepoError::SqlError(_))
    ));
}

#[test]
fn the_content_of_a_pending_file_is_asked_for_at_its_commit() {
    let file = RepoFile::new("r".into(), "master".into(), RepoPath::from_str("a"), "c7".into(), None);
    assert_eq!(
        index().index_file(&repo(), &file),
        Ok(Request::FindBlob { commit_id: "c7".to_string(), path: RepoPath::from_str("a") })
    );
    let closed = Repo::new_for_config(&config(None)).unwrap();
    assert!(matches!(index().index_file(&closed, &file), Err(RepoError::InvalidState(_))));
}

#[test]
fn a_diff_records_what_it_brings_and_reports_what_it_takes() {
    let repo = repo();
    let mut db = migrated();
    db.upsert_file(&repo.id, "master", &RepoPath::from_str("kept"), "c1").unwrap();
    db.mark_file_as_indexed(&repo.id, &RepoPath::from_str("kept"), "c1").unwrap();
    db.upsert_file(&repo.id, "master", &RepoPath::from_str("mod"), "c1").unwrap();
    db.mark_file_as_indexed(&repo.id, &RepoPath::from_str("mod"), "c1").unwrap();
    let deltas = vec![
        delta(DeltaStatus::Added, None, Some("new")),
        delta(DeltaStatus::Modified, Some("mod"), Some("mod")),
        delta(DeltaStatus::Deleted, Some("gone"), None),
        delta(DeltaStatus::Renamed, Some("from"), Some("to")),
        delta(DeltaStatus::Copied, Some("src"), Some("copy")),
        delta(DeltaStatus::Typechange, Some("t"), Some("t")),
        delta(DeltaStatus::Unmodified, Some("kept"), Some("kept")),
        delta(DeltaStatus::Added, None, None),
        delta(DeltaStatus::Deleted, None, Some("odd")),
    ];
    let removed = index().index_diff(&mut db, &repo, "master", "c2", &deltas).unwrap();
    assert_eq!(removed, vec![RepoPath::from_str("gone")]);
    let pending: Vec<(RepoPath, String)> = db
        .find_files_not_indexed(&repo.id)
        .unwrap()
        .into_iter()
        .map(|f| (f.path, f.changed_commit_id))
        .collect();
    assert_eq!(
        pending,
        vec![
            (RepoPath::from_str("mod"), "c2".to_string()),
            (RepoPath::from_str("new"), "c2".to_string()),
            (RepoPath::from_str("to"), "c2".to_string()),
        ]
    );
    assert_eq!(db.files().len(), 4);
    assert_eq!(deltas[0].content_path(), Some(&RepoPath::from_str("new")));
    assert_eq!(deltas[2].content_path(), None);
    assert_eq!(deltas[2].removed_path(), Some(&RepoPath::from_str("gone")));
    assert_eq!(deltas[3].removed_path(), None);
}

#[test]
fn pending_work_is_listed_by_repository_and_by_branch() {
    let repo = repo();
    let mut db = migrated();
    db.create_commit_unless_exists("c1", &repo.id).unwrap();
    db.create_commit_unless_exists("c1", "other").unwrap();
    db.upsert_file(&repo.id, "master", &RepoPath::from_str("a"), "c1").unwrap();
    db.upsert_file(&repo.id, "dev", &RepoPath::from_str("b"), "c1").unwrap();
    db.upsert_file("other", "master", &RepoPath::from_str("c"), "c1").unwrap();
    assert_eq!(index().index_commits(&db, &repo), Ok(vec!["c1".to_string()]));
    let paths = |files: Vec<RepoFile>| files.into_iter().map(|f| f.path).collect::<Vec<_>>();
    assert_eq!(paths(index().index_tree(&db, &repo, "master").unwrap()), vec![RepoPath::from_str("a")]);
    assert_eq!(paths(index().index_tree(&db, &repo, "dev").unwrap()), vec![RepoPath::from_str("b")]);
    assert_eq!(paths(index().index_tree(&db, &repo, "gone").unwrap()), vec![]);
    let work = index().index_repo(&db, &repo).unwrap();
    assert_eq!(work.commits, vec!["c1".to_string()]);
    assert_eq!(paths(work.files), vec![RepoPath::from_str("a"), RepoPath::from_str("b")]);
    let bare = Db::open_in_memory().unwrap();
    assert!(matches!(index().index_repo(&bare, &repo), Err(RepoError::SqlError(_))));
    assert!(matches!(index().index_tree(&bare, &repo, "master"), Err(RepoError::SqlError(_))));
    assert!(matches!(index().index_commits(&bare, &repo), Err(RepoError::SqlError(_))));
}

#[test]
fn a_branch_is_marked_only_when_nothing_of_it_is_left() {
    let repo = repo();
    let mut db = migrated();
    db.insert_branch(&RepoBranch::new(repo.id.clone(), "master".into(), None)).unwrap();
    db.insert_branch(&RepoBranch::new(repo.id.clone(), "dev".into(), None)).unwrap();
    let watermark = |db: &Db, branch: &str| db.find_branch(&repo.id, branch).unwrap().unwrap().indexed_commit_id;

    db.create_commit_unless_exists("c1", &repo.id).unwrap();
    assert_eq!(index().index_branches(&mut db, &repo, "master", "c1"), Ok(false));
    assert_eq!(watermark(&db, "master"), None);
    db.mark_commit_as_indexed(&repo.id, "c1").unwrap();

    db.upsert_file(&repo.id, "dev", &RepoPath::from_str("b"), "c1").unwrap();
    assert_eq!(index().index_branches(&mut db, &repo, "dev", "c1"), Ok(false));
    assert_eq!(watermark(&db, "dev"), None);
    assert_eq!(index().index_branches(&mut db, &repo, "master", "c1"), Ok(true));
    assert_eq!(watermark(&db, "master"), Some("c1".to_string()));

    db.mark_file_as_indexed(&repo.id, &RepoPath::from_str("b"), "c1").unwrap();
    assert_eq!(index().index_branches(&mut db, &repo, "dev", "c1"), Ok(true));
    assert_eq!(watermark(&db, "dev"), Some("c1".to_string()));

    let mut bare = Db::open_in_memory().unwrap();
    assert!(matches!(
        index().index_branches(&mut bare, &repo, "master", "c1"),
        Err(RepoError::SqlError(_))
    ));
}

#[test]
fn nothing_is_recorded_or_closed_before_the_clone_is_open() {
    let closed = Repo::new_for_config(&config(None)).unwrap();
    let mut db = migrated();
    db.insert_branch(&RepoBranch::new(closed.id.clone(), "master".into(), None)).unwrap();
    db.take_writes();
    assert!(matches!(
        index().index_branches(&mut db, &closed, "master", "c1"),
        Err(RepoError::InvalidState(_))
    ));
    assert_eq!(db.find_branch(&closed.id, "master").unwrap().unwrap().indexed_commit_id, None);
    let deltas = vec![delta(DeltaStatus::Added, None, Some("new"))];
    assert!(matches!(
        index().index_diff(&mut db, &closed, "master", "c2", &deltas),
        Err(RepoError::InvalidState(_))
    ));
    assert_eq!(db.files(), vec![]);
    assert_eq!(db.pending_count(), 0);
    let mut bare = Db::open_in_memory().unwrap();
    assert!(matches!(
        index().index_branches(&mut bare, &closed, "master", "c1"),
        Err(RepoError::InvalidState(_))
    ));
    assert_eq!(index().index_branches(&mut db, &repo(), "master", "c1"), Ok(true));
}
