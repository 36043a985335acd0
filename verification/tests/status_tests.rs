use gitstatus::git_database::{
    count_newlines, trim_trailing_slashes, GitCommit, GitDatabase, GitRepoInfo, SerializableTime,
};
use gitstatus::git_status::{
    build_snapshot, check_git_paths, collect_from_facts, is_auth_failure, is_http_url, parse_u8,
    proceed_after_fetch, slowest_units, soft_fetch_fact, validate_detail_level, FetchOutcome,
    FsTree, GitStatusError, RepoFacts,
};
use gitstatus::version::{render_u64, SchemaVersion};

fn test_db_path(tag: &str) -> String {
    let nanos = std::time::SystemTime::now()
        .duration_since(std::time::UNIX_EPOCH)
        .expect("clock before epoch")
        .as_nanos();
    format!("/tmp/gitstatus-test-{}-{}", tag, nanos)
}

fn facts(status: &str, fetch: FetchOutcome, unpushed: &str, updates: &str) -> RepoFacts {
    RepoFacts {
        status: status.to_string(),
        origin_url: "https://example.com/r.git".to_string(),
        fetch,
        unpushed_listing: unpushed.to_string(),
        updates_listing: updates.to_string(),
        fresh_commits: Some(Vec::new()),
        fresh_languages: Some(Vec::new()),
    }
}

#[test]
fn discovery_stops_at_the_first_root() {
    // root/{repoA/.git, repoA/nested/.git, repoB/.git, plainDir/file.txt}
    let tree = FsTree::Dir(vec![
        (
            "repoA".to_string(),
            // A repository root: what nests below it is never walked.
            FsTree::Repo(vec![("nested".to_string(), FsTree::Repo(Vec::new()))]),
        ),
        ("repoB".to_string(), FsTree::Repo(Vec::new())),
        (
            "plainDir".to_string(),
            FsTree::Dir(vec![("file.txt".to_string(), FsTree::File)]),
        ),
    ]);
    let roots = check_git_paths(&tree, &"root".to_string()).expect("no roots found");
    assert_eq!(roots, vec!["root/repoA".to_string(), "root/repoB".to_string()]);
}

#[test]
fn discovery_skips_unreadable_directories() {
    let tree = FsTree::Dir(vec![
        ("locked".to_string(), FsTree::Unreadable),
        ("ok".to_string(), FsTree::Dir(vec![("inner".to_string(), FsTree::Repo(Vec::new()))])),
    ]);
    let roots = check_git_paths(&tree, &"/base".to_string()).expect("no roots found");
    assert_eq!(roots, vec!["/base/ok/inner".to_string()]);
}

#[test]
fn discovery_reports_no_repo_found() {
    let tree = FsTree::Dir(vec![("file.txt".to_string(), FsTree::File)]);
    match check_git_paths(&tree, &"/base".to_string()) {
        Err(GitStatusError::NoGitRepoFound) => {},
        other => panic!("expected NoGitRepoFound, got {:?}", other.is_ok()),
    }
}

#[test]
fn detail_level_validation() {
    assert!(validate_detail_level("0".to_string()).is_ok());
    assert!(validate_detail_level("1".to_string()).is_ok());
    assert!(validate_detail_level("+1".to_string()).is_ok());
    assert!(validate_detail_level("2".to_string()).is_err());
    assert!(validate_detail_level("256".to_string()).is_err());
    assert!(validate_detail_level("".to_string()).is_err());
    assert!(validate_detail_level("one".to_string()).is_err());
    assert!(validate_detail_level("-1".to_string()).is_err());
    assert_eq!(
        validate_detail_level("2".to_string()).unwrap_err(),
        "Detail level must be a number between 0 and 1"
    );
    assert_eq!(
        validate_detail_level("one".to_string()).unwrap_err(),
        "Detail level must be a number between 0 and 1"
    );
}

#[test]
fn parse_u8_handles_bounds() {
    assert_eq!(parse_u8(&"0".to_string()), Some(0));
    assert_eq!(parse_u8(&"255".to_string()), Some(255));
    assert_eq!(parse_u8(&"000000001".to_string()), Some(1));
    assert_eq!(parse_u8(&"256".to_string()), None);
    assert_eq!(parse_u8(&"+".to_string()), None);
    assert_eq!(parse_u8(&" 1".to_string()), None);
}

#[test]
fn http_and_auth_checks() {
    assert!(is_http_url(&"https://example.com/r.git".to_string()));
    assert!(is_http_url(&"http://example.com/r.git".to_string()));
    assert!(!is_http_url(&"git@example.com:r.git".to_string()));
    assert!(!is_http_url(&"ssh".to_string()));
    assert!(is_auth_failure(
        &"remote authentication required but no callback set".to_string()
    ));
    assert!(!is_auth_failure(&"connection reset by peer".to_string()));
}

#[test]
fn failed_fetch_empties_the_fact_only_on_auth_refusal() {
    let refused = FetchOutcome::Failed("authentication required".to_string());
    assert!(!proceed_after_fetch(&refused));
    assert_eq!(soft_fetch_fact(&refused, "stale listing\n".to_string()), "");
    let other = FetchOutcome::Failed("connection reset by peer".to_string());
    assert!(proceed_after_fetch(&other));
    assert_eq!(soft_fetch_fact(&other, "stale listing\n".to_string()), "stale listing\n");
    let ok = FetchOutcome::Succeeded;
    assert!(proceed_after_fetch(&ok));
    assert_eq!(soft_fetch_fact(&ok, "listing\n".to_string()), "listing\n");
    assert!(proceed_after_fetch(&FetchOutcome::NotAttempted));
}

#[test]
fn other_fetch_failure_proceeds_with_stale_listings() {
    let db = GitDatabase::new(&test_db_path("stale")).unwrap();
    let f = facts(
        "M a.txt\n",
        FetchOutcome::Failed("connection reset by peer".to_string()),
        "stale-unpushed\n",
        "stale-updates\n",
    );
    let repo = build_snapshot(&"/repos/net".to_string(), f, 1, &db).expect("must succeed");
    assert_eq!(repo.unpushed_commits, "stale-unpushed\n");
    assert_eq!(repo.remote_updates, "stale-updates\n");
}

#[test]
fn soft_failure_still_yields_a_snapshot() {
    let db = GitDatabase::new(&test_db_path("soft")).unwrap();
    let f = facts(
        "M a.txt\n",
        FetchOutcome::Failed("authentication required".to_string()),
        "would be stale\n",
        "would be stale\n",
    );
    let repo = build_snapshot(&"/repos/auth".to_string(), f, 1, &db).expect("must succeed");
    assert_eq!(repo.unpushed_commits, "");
    assert_eq!(repo.remote_updates, "");
    assert_eq!(repo.status, "M a.txt\n");
}

#[test]
fn invalid_detail_level_is_rejected_before_work() {
    let db = GitDatabase::new(&test_db_path("level")).unwrap();
    let f = facts("", FetchOutcome::NotAttempted, "", "");
    match build_snapshot(&"/repos/x".to_string(), f, 2, &db) {
        Err(GitStatusError::InvalidDetailLevel) => {},
        other => panic!("expected InvalidDetailLevel, got ok={}", other.is_ok()),
    }
}

#[test]
fn cached_level_with_empty_cache_leaves_extras_absent() {
    let db = GitDatabase::new(&test_db_path("cached")).unwrap();
    let f = facts("S\n", FetchOutcome::NotAttempted, "u\n", "r\n");
    let repo = build_snapshot(&"/repos/fresh".to_string(), f, 0, &db).expect("must succeed");
    assert!(repo.commits.is_none());
    assert!(repo.languages.is_none());
}

#[test]
fn cached_level_reads_back_the_stored_extras() {
    let mut db = GitDatabase::new(&test_db_path("cached2")).unwrap();
    let stored = GitRepoInfo::new(
        "/repos/seen".to_string(),
        None,
        "old status".to_string(),
        String::new(),
        String::new(),
        None,
        Some(Vec::new()),
        Some(Vec::new()),
    );
    db.save_to_db(&stored).unwrap();
    let f = facts("new status\n", FetchOutcome::NotAttempted, "", "");
    let repo = build_snapshot(&"/repos/seen".to_string(), f, 0, &db).expect("must succeed");
    // Collected, zero results: present and empty, not absent.
    assert!(matches!(repo.commits.as_deref(), Some([])));
    assert!(matches!(repo.languages.as_deref(), Some([])));
    assert_eq!(repo.status, "new status\n");
}

#[test]
fn one_outcome_per_root_with_stripped_paths() {
    let db = GitDatabase::new(&test_db_path("collect")).unwrap();
    let roots = vec!["/repos/a/".to_string(), "/repos/b".to_string()];
    let gathered = vec![
        Ok(facts("A x\n", FetchOutcome::NotAttempted, "", "")),
        Ok(facts("", FetchOutcome::NotAttempted, "", "")),
    ];
    let out = collect_from_facts(&roots, gathered, 1, &db).expect("level 1 is valid");
    assert_eq!(out.len(), 2);
    assert_eq!(out[0].as_ref().expect("first root must succeed").path, "/repos/a");
    assert_eq!(out[1].as_ref().expect("second root must succeed").path, "/repos/b");
}

#[test]
fn partial_failure_keeps_the_siblings() {
    let db = GitDatabase::new(&test_db_path("partial")).unwrap();
    let roots = vec!["/repos/a".to_string(), "/repos/bad".to_string(), "/repos/c".to_string()];
    let gathered = vec![
        Ok(facts("", FetchOutcome::NotAttempted, "", "")),
        Err("corrupted object database".to_string()),
        Ok(facts("", FetchOutcome::NotAttempted, "", "")),
    ];
    let out = collect_from_facts(&roots, gathered, 1, &db).expect("level 1 is valid");
    assert_eq!(out.len(), 3);
    assert!(out[0].is_ok());
    assert!(out[2].is_ok());
    match &out[1] {
        Err(GitStatusError::Git2(msg)) => assert_eq!(msg, "corrupted object database"),
        _ => panic!("the failed root must keep its own explicit error"),
    }
}

#[test]
fn whole_run_rejects_a_bad_level() {
    let db = GitDatabase::new(&test_db_path("badlevel")).unwrap();
    let roots = vec!["/repos/a".to_string()];
    let gathered = vec![Ok(facts("", FetchOutcome::NotAttempted, "", ""))];
    match collect_from_facts(&roots, gathered, 7, &db) {
        Err(GitStatusError::InvalidDetailLevel) => {},
        _ => panic!("expected InvalidDetailLevel"),
    }
}

#[test]
fn slowest_units_are_the_three_largest() {
    let durations = vec![
        ("a".to_string(), 5u64),
        ("b".to_string(), 50u64),
        ("c".to_string(), 1u64),
        ("d".to_string(), 30u64),
        ("e".to_string(), 40u64),
    ];
    let top = slowest_units(durations);
    assert_eq!(
        top,
        vec![("b".to_string(), 50u64), ("e".to_string(), 40u64), ("d".to_string(), 30u64)]
    );

    let two = slowest_units(vec![("x".to_string(), 2u64), ("y".to_string(), 9u64)]);
    assert_eq!(two, vec![("y".to_string(), 9u64), ("x".to_string(), 2u64)]);

    let none = slowest_units(Vec::new());
    assert!(none.is_empty());
}

#[test]
fn text_helpers_count_and_trim() {
    assert_eq!(count_newlines(&"A a.txt\nM b.txt\nM c.txt\n?? d.txt\n".to_string()), 4);
    assert_eq!(count_newlines(&String::new()), 0);
    assert_eq!(count_newlines(&"no newline".to_string()), 0);
    assert_eq!(trim_trailing_slashes(&"/a/b///".to_string()), "/a/b");
    assert_eq!(trim_trailing_slashes(&"/a/b".to_string()), "/a/b");
    assert_eq!(trim_trailing_slashes(&"///".to_string()), "");
}

#[test]
fn version_renders_as_dotted_decimal() {
    assert_eq!(SchemaVersion::new(0, 6, 2).to_text(), "0.6.2");
    assert_eq!(SchemaVersion::new(12, 0, 345).to_text(), "12.0.345");
    assert_eq!(render_u64(0), "0");
    assert_eq!(render_u64(1234567890), "1234567890");
}

#[test]
fn version_order_is_lexicographic() {
    let v060 = SchemaVersion::new(0, 6, 0);
    assert!(SchemaVersion::new(0, 6, 2).is_at_least(&v060));
    assert!(SchemaVersion::new(1, 0, 0).is_at_least(&v060));
    assert!(SchemaVersion::new(0, 6, 0).is_at_least(&v060));
    assert!(!SchemaVersion::new(0, 5, 9).is_at_least(&v060));
}

#[test]
fn commit_description_is_exact() {
    let c = GitCommit::new(
        "abc".to_string(),
        "a@b.c".to_string(),
        SerializableTime(7),
        "hello".to_string(),
        1,
        2,
        3,
    );
    assert_eq!(c.describe(), "Hash: abc, Author Email: a@b.c, Message: hello");
}
