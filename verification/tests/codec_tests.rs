use gitstatus::codec::{
    decode_repo, decode_summary, encode_repo, encode_repo_v030, encode_repo_v051, encode_summary,
    DecodeError, RecordShape,
};
use gitstatus::git_database::{
    GitCommit, GitDatabase, GitRepoInfo, GitRepoInfoV030, GitRepoInfoV051, GitRepoSummary,
    LanguageStat, SerializableTime,
};
use gitstatus::version::SchemaVersion;

fn sample_commit() -> GitCommit {
    GitCommit::new(
        "0123456789abcdef0123456789abcdef01234567".to_string(),
        "dev@example.com".to_string(),
        SerializableTime(1_700_000_000),
        "first commit".to_string(),
        3,
        120,
        4,
    )
}

fn sample_repo() -> GitRepoInfo {
    GitRepoInfo::new(
        "/home/dev/project".to_string(),
        Some("https://example.com/dev/project.git".to_string()),
        "M src/lib.rs\n".to_string(),
        "abc123\n".to_string(),
        "def456\n".to_string(),
        Some(SchemaVersion::new(0, 6, 2)),
        Some(vec![sample_commit()]),
        Some(vec![LanguageStat {
            name: "Rust".to_string(),
            lines: 100,
            code: 80,
            comments: 15,
            blanks: 5,
        }]),
    )
}

#[test]
fn current_shape_round_trips() {
    let repo = sample_repo();
    let bytes = encode_repo(&repo);
    let (decoded, shape) = decode_repo(&bytes).expect("decode failed");
    assert_eq!(shape, RecordShape::Current);
    assert!(decoded.is_equal(&repo));
    let commits = decoded.commits.expect("history must be present");
    assert_eq!(commits.len(), 1);
    assert_eq!(commits[0].hash, "0123456789abcdef0123456789abcdef01234567");
    assert_eq!(commits[0].time, SerializableTime(1_700_000_000));
    assert_eq!(commits[0].file_changes, 3);
    assert_eq!(commits[0].insertions, 120);
    assert_eq!(commits[0].deletion, 4);
    let langs = decoded.languages.expect("languages must be present");
    assert_eq!(langs.len(), 1);
    assert_eq!(langs[0].name, "Rust");
    assert_eq!(langs[0].lines, 100);
}

#[test]
fn absent_and_empty_collections_stay_distinct() {
    let absent = GitRepoInfo::new(
        "/r".to_string(),
        None,
        String::new(),
        String::new(),
        String::new(),
        None,
        None,
        None,
    );
    let bytes = encode_repo(&absent);
    let (decoded, shape) = decode_repo(&bytes).expect("decode failed");
    assert_eq!(shape, RecordShape::Current);
    assert!(decoded.commits.is_none());
    assert!(decoded.languages.is_none());

    let empty = GitRepoInfo::new(
        "/r".to_string(),
        None,
        String::new(),
        String::new(),
        String::new(),
        None,
        Some(Vec::new()),
        Some(Vec::new()),
    );
    let bytes = encode_repo(&empty);
    let (decoded, _) = decode_repo(&bytes).expect("decode failed");
    assert!(matches!(decoded.commits.as_deref(), Some([])));
    assert!(matches!(decoded.languages.as_deref(), Some([])));
}

#[test]
fn oldest_shape_upgrades_with_absent_fields() {
    let legacy = GitRepoInfoV030 {
        path: "/path/to/repo".to_string(),
        status: "status".to_string(),
        origin_url: "https://github.com/user/repo.git".to_string(),
        unpushed_commits: "unpushed_commits".to_string(),
        remote_updates: "remote_updates".to_string(),
        app_version: SchemaVersion::new(0, 3, 0),
    };
    let bytes = encode_repo_v030(&legacy);
    let (decoded, shape) = decode_repo(&bytes).expect("decode failed");
    assert_eq!(shape, RecordShape::V030);
    assert_eq!(decoded.path, "/path/to/repo");
    assert_eq!(decoded.status, "status");
    assert_eq!(decoded.origin_url, "https://github.com/user/repo.git");
    assert_eq!(decoded.app_version, SchemaVersion::new(0, 3, 0));
    assert!(decoded.commits.is_none());
    assert!(decoded.languages.is_none());
    // The store's own decode path sees the same record.
    let via_store = GitDatabase::deserialize_git_repo_info(&bytes).expect("decode failed");
    assert!(via_store.is_equal(&decoded));
    assert!(via_store.commits.is_none());
    assert!(via_store.languages.is_none());
}

#[test]
fn middle_shape_upgrades_with_absent_languages() {
    let legacy = GitRepoInfoV051 {
        path: "/path/to/repo".to_string(),
        status: "status".to_string(),
        origin_url: "https://github.com/user/repo.git".to_string(),
        unpushed_commits: "unpushed_commits".to_string(),
        remote_updates: "remote_updates".to_string(),
        app_version: SchemaVersion::new(0, 5, 1),
        commits: Some(vec![sample_commit()]),
    };
    let bytes = encode_repo_v051(&legacy);
    let (decoded, shape) = decode_repo(&bytes).expect("decode failed");
    assert_eq!(shape, RecordShape::V051);
    assert_eq!(decoded.path, "/path/to/repo");
    assert_eq!(decoded.app_version, SchemaVersion::new(0, 5, 1));
    assert!(decoded.commits.is_some());
    assert!(decoded.languages.is_none());
}

#[test]
fn corrupt_record_is_never_retried_as_older_shape() {
    let repo = sample_repo();
    let mut bytes = encode_repo(&repo);
    // The path is the first field: its first byte sits right after the
    // eight-byte length prefix. 0xff never starts valid UTF-8.
    bytes[8] = 0xff;
    match decode_repo(&bytes) {
        Err(e) => assert_eq!(e, DecodeError::Corrupt),
        Ok(_) => panic!("a corrupt record must not decode"),
    }
}

#[test]
fn empty_record_is_truncated() {
    let bytes: Vec<u8> = Vec::new();
    match decode_repo(&bytes) {
        Err(e) => assert_eq!(e, DecodeError::Truncated),
        Ok(_) => panic!("an empty record must not decode"),
    }
}

#[test]
fn summary_round_trips() {
    let summary = GitRepoSummary::new(
        "/home/dev/project/".to_string(),
        Some("https://example.com/p.git".to_string()),
        4,
        1,
        523,
    );
    let bytes = encode_summary(&summary);
    let decoded = decode_summary(&bytes).expect("decode failed");
    assert_eq!(decoded.path, "/home/dev/project");
    assert_eq!(decoded.origin_url, "https://example.com/p.git");
    assert_eq!(decoded.status_lines, 4);
    assert_eq!(decoded.unpushed_commits_lines, 1);
    assert_eq!(decoded.remote_updates_lines, 523);
}
