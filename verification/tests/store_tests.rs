use gitstatus::codec::RecordShape;
use gitstatus::git_database::{GitDatabase, GitDatabaseError, GitRepoInfo};
use gitstatus::version::SchemaVersion;

fn test_db_path(tag: &str) -> String {
    let nanos = std::time::SystemTime::now()
        .duration_since(std::time::UNIX_EPOCH)
        .expect("clock before epoch")
        .as_nanos();
    format!("/tmp/gitstatus-test-{}-{}", tag, nanos)
}

fn sample(path: &str, status: &str, unpushed: &str, updates: &str) -> GitRepoInfo {
    GitRepoInfo::new(
        path.to_string(),
        Some("https://github.com/user/repo.git".to_string()),
        status.to_string(),
        unpushed.to_string(),
        updates.to_string(),
        None,
        None,
        None,
    )
}

#[test]
fn test_gitdatabase_version() {
    let repo = GitRepoInfo::new(
        "/path/to/repo".to_string(),
        Some("https://github.com/user/repo.git".to_string()),
        "status".to_string(),
        "unpushed_commits".to_string(),
        "remote_updates".to_string(),
        None,
        None,
        None,
    );
    assert_eq!(repo.app_version, SchemaVersion::new(0, 6, 2));
}

#[test]
fn test_gitdatabase() {
    let mut db = GitDatabase::new(&test_db_path("gitdatabase")).unwrap();

    let repo = sample("/path/to/repo", "status", "unpushed_commits", "remote_updates");
    db.save_to_db(&repo).unwrap();

    let repos = db.load_from_db().unwrap();
    assert_eq!(repos.len(), 1, "1::Expected 1 repo, but found {}", repos.len());
    assert!(repos[0].is_equal(&repo), "1::Saved repo does not match loaded repo");

    let repo = sample("/path/to/repo", "status-2", "unpushed_commits-2", "remote_updates-2");
    db.save_to_db(&repo).unwrap();

    let repos = db.load_from_db().unwrap();
    assert_eq!(repos.len(), 1, "2::Expected 1 repo, but found {}", repos.len());
    assert!(repos[0].is_equal(&repo), "2::Saved repo does not match loaded repo");

    let repo = sample("/path/to/repo-2", "status-2", "unpushed_commits-2", "remote_updates-2");
    db.save_to_db(&repo).unwrap();

    let repos = db.load_from_db().unwrap();
    assert_eq!(repos.len(), 2, "3::Expected 2 repo, but found {}", repos.len());
    assert!(repos[1].is_equal(&repo), "3::Saved repo does not match loaded repo");
}

#[test]
fn put_then_get_returns_the_snapshot() {
    let mut db = GitDatabase::new(&test_db_path("roundtrip")).unwrap();
    let repo = sample("/repos/alpha/", "A a.txt\n", "c1\n", "u1\nu2\n");
    db.save_to_db(&repo).unwrap();
    // The stored path lost its trailing separator.
    let loaded = db.get_repo_details(&"/repos/alpha".to_string()).unwrap();
    assert!(loaded.is_equal(&repo));
    assert!(loaded.commits.is_none());
    assert!(loaded.languages.is_none());
}

#[test]
fn get_of_unknown_path_is_key_not_exist() {
    let db = GitDatabase::new(&test_db_path("missing")).unwrap();
    match db.get_repo_details(&"/no/such/path".to_string()) {
        Err(GitDatabaseError::KeyNotExist) => {},
        other => panic!("expected KeyNotExist, got {:?}", other.map(|r| r.path)),
    }
}

#[test]
fn summary_rollup_counts_status_lines() {
    let mut db = GitDatabase::new(&test_db_path("rollup")).unwrap();
    let repo = sample(
        "/repos/beta",
        "A a.txt\nM b.txt\nM c.txt\n?? d.txt\n",
        "one\n",
        "u1\nu2\nu3\n",
    );
    db.save_to_db(&repo).unwrap();
    db.summary_repos_table().unwrap();
    let summaries = db.get_summary_stats().unwrap();
    assert_eq!(summaries.len(), 1);
    assert_eq!(summaries[0].path, "/repos/beta");
    assert_eq!(summaries[0].status_lines, 4);
    assert_eq!(summaries[0].unpushed_commits_lines, 1);
    assert_eq!(summaries[0].remote_updates_lines, 3);
    assert_eq!(summaries[0].origin_url, "https://github.com/user/repo.git");
}

#[test]
fn rollup_overwrites_prior_summaries() {
    let mut db = GitDatabase::new(&test_db_path("rollup2")).unwrap();
    let repo = sample("/repos/gamma", "A a.txt\n", "", "");
    db.save_to_db(&repo).unwrap();
    db.summary_repos_table().unwrap();
    let repo = sample("/repos/gamma", "A a.txt\nM b.txt\n", "", "");
    db.save_to_db(&repo).unwrap();
    db.summary_repos_table().unwrap();
    let summaries = db.get_summary_stats().unwrap();
    assert_eq!(summaries.len(), 1);
    assert_eq!(summaries[0].status_lines, 2);
}

#[test]
fn record_walk_lists_every_outcome_in_key_order() {
    let mut db = GitDatabase::new(&test_db_path("records")).unwrap();
    db.save_to_db(&sample("/repos/b", "s", "", "")).unwrap();
    db.save_to_db(&sample("/repos/a", "s", "", "")).unwrap();
    let records = db.snapshot_records().unwrap();
    assert_eq!(records.len(), 2);
    assert_eq!(records[0].0, b"/repos/a".to_vec());
    assert_eq!(records[1].0, b"/repos/b".to_vec());
    for (_, outcome) in records {
        let (repo, shape) = outcome.expect("freshly written records decode");
        assert_eq!(shape, RecordShape::Current);
        assert_eq!(repo.status, "s");
    }
}
