//! The records held in the cache: per-repository snapshots in three
//! historical shapes, derived per-repository summaries, and the store
//! itself.

use crate::codec::{
    decode_repo, decode_summary, encode_repo, encode_summary, spec_decode_repo,
    spec_decode_summary, spec_encode_repo, spec_encode_summary, DecodeError, RecordShape,
    repo_fits, lemma_decode_encode_repo,
};
use crate::version::{current_version, spec_current_version, SchemaVersion};
use vstd::prelude::*;
use vstd::slice::slice_to_vec;
use vstd::utf8::encode_utf8;

verus! {

// ---------------------------------------------------------------------
// Mathematical models of the records. Contracts speak of these; each
// executable record type has a view into its model.
// ---------------------------------------------------------------------

/// Model of one commit record.
pub struct CommitModel {
    pub hash: Seq<char>,
    pub author_email: Seq<char>,
    pub time: i64,
    pub message: Seq<char>,
    pub file_changes: usize,
    pub insertions: usize,
    pub deletion: usize,
}

/// Model of the line statistics of one language.
pub struct LanguageStatModel {
    pub name: Seq<char>,
    pub lines: u64,
    pub code: u64,
    pub comments: u64,
    pub blanks: u64,
}

/// Model of a snapshot in the current shape.
pub struct RepoModel {
    pub path: Seq<char>,
    pub status: Seq<char>,
    pub origin_url: Seq<char>,
    pub unpushed_commits: Seq<char>,
    pub remote_updates: Seq<char>,
    pub app_version: SchemaVersion,
    pub commits: Option<Seq<CommitModel>>,
    pub languages: Option<Seq<LanguageStatModel>>,
}

/// Model of a snapshot in the middle historical shape: no language
/// statistics yet.
pub struct RepoModelV051 {
    pub path: Seq<char>,
    pub status: Seq<char>,
    pub origin_url: Seq<char>,
    pub unpushed_commits: Seq<char>,
    pub remote_updates: Seq<char>,
    pub app_version: SchemaVersion,
    pub commits: Option<Seq<CommitModel>>,
}

/// Model of a snapshot in the oldest historical shape: neither commit
/// history nor language statistics.
pub struct RepoModelV030 {
    pub path: Seq<char>,
    pub status: Seq<char>,
    pub origin_url: Seq<char>,
    pub unpushed_commits: Seq<char>,
    pub remote_updates: Seq<char>,
    pub app_version: SchemaVersion,
}

/// Model of a derived summary record.
pub struct SummaryModel {
    pub path: Seq<char>,
    pub origin_url: Seq<char>,
    pub status_lines: int,
    pub unpushed_commits_lines: int,
    pub remote_updates_lines: int,
    pub app_version: SchemaVersion,
}

// ---------------------------------------------------------------------
// Executable record types.
// ---------------------------------------------------------------------

/// A commit timestamp, in seconds since the epoch.
#[derive(Clone, Copy, Debug, PartialEq, Eq, Structural)]
pub struct SerializableTime(pub i64);

/// One commit: identity, author, timestamp, message and diff counts
/// against the first parent. Immutable once produced.
#[derive(Debug)]
pub struct GitCommit {
    pub hash: String,
    pub author_email: String,
    pub time: SerializableTime,
    pub message: String,
    pub file_changes: usize,
    pub insertions: usize,
    pub deletion: usize,
}

impl View for GitCommit {
    type V = CommitModel;

    open spec fn view(&self) -> CommitModel {
        CommitModel {
            hash: self.hash@,
            author_email: self.author_email@,
            time: self.time.0,
            message: self.message@,
            file_changes: self.file_changes,
            insertions: self.insertions,
            deletion: self.deletion,
        }
    }
}

impl DeepView for GitCommit {
    type V = CommitModel;

    open spec fn deep_view(&self) -> CommitModel {
        self.view()
    }
}

/// Line statistics for one language of a working copy.
#[derive(Debug)]
pub struct LanguageStat {
    pub name: String,
    pub lines: u64,
    pub code: u64,
    pub comments: u64,
    pub blanks: u64,
}

impl View for LanguageStat {
    type V = LanguageStatModel;

    open spec fn view(&self) -> LanguageStatModel {
        LanguageStatModel {
            name: self.name@,
            lines: self.lines,
            code: self.code,
            comments: self.comments,
            blanks: self.blanks,
        }
    }
}

impl DeepView for LanguageStat {
    type V = LanguageStatModel;

    open spec fn deep_view(&self) -> LanguageStatModel {
        self.view()
    }
}

/// View of an optional commit history. Absent is not the same fact as
/// present and empty.
pub open spec fn commits_view(c: &Option<Vec<GitCommit>>) -> Option<Seq<CommitModel>> {
    match c {
        Some(v) => Some(v.deep_view()),
        None => None,
    }
}

/// View of optional language statistics.
pub open spec fn languages_view(l: &Option<Vec<LanguageStat>>) -> Option<Seq<LanguageStatModel>> {
    match l {
        Some(v) => Some(v.deep_view()),
        None => None,
    }
}

/// The full per-repository record, in the current shape.
#[derive(Debug)]
pub struct GitRepoInfo {
    pub path: String,
    pub status: String,
    pub origin_url: String,
    pub unpushed_commits: String,
    pub remote_updates: String,
    pub app_version: SchemaVersion,
    pub commits: Option<Vec<GitCommit>>,
    pub languages: Option<Vec<LanguageStat>>,
}

impl View for GitRepoInfo {
    type V = RepoModel;

    open spec fn view(&self) -> RepoModel {
        RepoModel {
            path: self.path@,
            status: self.status@,
            origin_url: self.origin_url@,
            unpushed_commits: self.unpushed_commits@,
            remote_updates: self.remote_updates@,
            app_version: self.app_version,
            commits: commits_view(&self.commits),
            languages: languages_view(&self.languages),
        }
    }
}

impl DeepView for GitRepoInfo {
    type V = RepoModel;

    open spec fn deep_view(&self) -> RepoModel {
        self.view()
    }
}

/// The middle historical shape: everything but language statistics.
#[derive(Debug)]
pub struct GitRepoInfoV051 {
    pub path: String,
    pub status: String,
    pub origin_url: String,
    pub unpushed_commits: String,
    pub remote_updates: String,
    pub app_version: SchemaVersion,
    pub commits: Option<Vec<GitCommit>>,
}

impl View for GitRepoInfoV051 {
    type V = RepoModelV051;

    open spec fn view(&self) -> RepoModelV051 {
        RepoModelV051 {
            path: self.path@,
            status: self.status@,
            origin_url: self.origin_url@,
            unpushed_commits: self.unpushed_commits@,
            remote_updates: self.remote_updates@,
            app_version: self.app_version,
            commits: commits_view(&self.commits),
        }
    }
}

/// The oldest historical shape: the five text facts and the version.
#[derive(Debug)]
pub struct GitRepoInfoV030 {
    pub path: String,
    pub status: String,
    pub origin_url: String,
    pub unpushed_commits: String,
    pub remote_updates: String,
    pub app_version: SchemaVersion,
}

impl View for GitRepoInfoV030 {
    type V = RepoModelV030;

    open spec fn view(&self) -> RepoModelV030 {
        RepoModelV030 {
            path: self.path@,
            status: self.status@,
            origin_url: self.origin_url@,
            unpushed_commits: self.unpushed_commits@,
            remote_updates: self.remote_updates@,
            app_version: self.app_version,
        }
    }
}

/// The compact derived record: line counts of the three text blobs.
#[derive(Debug)]
pub struct GitRepoSummary {
    pub path: String,
    pub origin_url: String,
    pub status_lines: i32,
    pub unpushed_commits_lines: i32,
    pub remote_updates_lines: i32,
    pub app_version: SchemaVersion,
}

impl View for GitRepoSummary {
    type V = SummaryModel;

    open spec fn view(&self) -> SummaryModel {
        SummaryModel {
            path: self.path@,
            origin_url: self.origin_url@,
            status_lines: self.status_lines as int,
            unpushed_commits_lines: self.unpushed_commits_lines as int,
            remote_updates_lines: self.remote_updates_lines as int,
            app_version: self.app_version,
        }
    }
}

// ---------------------------------------------------------------------
// Pure text facts used by the constructors and the rollup.
// ---------------------------------------------------------------------

/// `s` with every trailing `/` removed.
pub open spec fn strip_trailing_slashes(s: Seq<char>) -> Seq<char>
    decreases s.len(),
{
    if s.len() > 0 && s.last() == '/' {
        strip_trailing_slashes(s.drop_last())
    } else {
        s
    }
}

/// How many newline characters `s` holds.
pub open spec fn spec_count_newlines(s: Seq<char>) -> int
    decreases s.len(),
{
    if s.len() == 0 {
        0
    } else {
        spec_count_newlines(s.drop_last()) + if s.last() == '\n' {
            1int
        } else {
            0int
        }
    }
}

/// The line count stored in a summary: the newline count, held at the
/// field's upper bound for blobs too large to count there.
pub open spec fn spec_lines_of(s: Seq<char>) -> int {
    if spec_count_newlines(s) <= i32::MAX as int {
        spec_count_newlines(s)
    } else {
        i32::MAX as int
    }
}

/// Removes every trailing `/` from a path.
pub fn trim_trailing_slashes(s: &String) -> (r: String)
    ensures
        r@ == strip_trailing_slashes(s@),
{
    let st: &str = s.as_str();
    let len = st.unicode_len();
    let mut n = len;
    proof {
        assert(s@.subrange(0, len as int) =~= s@);
    }
    while n > 0 && st.get_char(n - 1) == '/'
        invariant
            n <= len,
            len == s@.len(),
            st@ == s@,
            strip_trailing_slashes(s@) == strip_trailing_slashes(s@.subrange(0, n as int)),
        decreases n,
    {
        proof {
            let prefix = s@.subrange(0, n as int);
            assert(prefix.last() == '/');
            assert(prefix.drop_last() =~= s@.subrange(0, n - 1));
        }
        n = n - 1;
    }
    proof {
        let prefix = s@.subrange(0, n as int);
        if n > 0 {
            assert(prefix.last() == s@[n - 1]);
        }
        assert(strip_trailing_slashes(prefix) == prefix);
    }
    let r = String::from_str(st.substring_char(0, n));
    proof {
        assert(r@ =~= strip_trailing_slashes(s@));
    }
    r
}

/// Counts the newline characters in a text blob.
pub fn count_newlines(s: &String) -> (n: usize)
    ensures
        n == spec_count_newlines(s@),
{
    let st: &str = s.as_str();
    let len = st.unicode_len();
    let mut n: usize = 0;
    let mut i: usize = 0;
    while i < len
        invariant
            i <= len,
            len == s@.len(),
            st@ == s@,
            n <= i,
            n == spec_count_newlines(s@.subrange(0, i as int)),
        decreases len - i,
    {
        proof {
            let prefix = s@.subrange(0, i + 1);
            assert(prefix.drop_last() =~= s@.subrange(0, i as int));
            assert(prefix.last() == s@[i as int]);
        }
        if st.get_char(i) == '\n' {
            n = n + 1;
        }
        i = i + 1;
    }
    proof {
        assert(s@.subrange(0, len as int) =~= s@);
    }
    n
}

/// The newline count of a blob, held at the summary field's upper bound.
pub fn lines_of(s: &String) -> (n: i32)
    ensures
        n as int == spec_lines_of(s@),
{
    let c = count_newlines(s);
    if c <= i32::MAX as usize {
        c as i32
    } else {
        i32::MAX
    }
}

// ---------------------------------------------------------------------
// Constructors and comparisons.
// ---------------------------------------------------------------------

impl GitCommit {
    pub fn new(
        hash: String,
        author_email: String,
        time: SerializableTime,
        message: String,
        file_changes: usize,
        insertions: usize,
        deletion: usize,
    ) -> (r: Self)
        ensures
            r@ == (CommitModel {
                hash: hash@,
                author_email: author_email@,
                time: time.0,
                message: message@,
                file_changes,
                insertions,
                deletion,
            }),
    {
        Self { hash, author_email, time, message, file_changes, insertions, deletion }
    }

    /// A short rendering of the commit, for display by callers.
    pub fn describe(&self) -> (s: String)
        ensures
            s@ == "Hash: "@ + self@.hash + ", Author Email: "@ + self@.author_email
                + ", Message: "@ + self@.message,
    {
        let mut s = String::from_str("Hash: ");
        s.append(self.hash.as_str());
        s.append(", Author Email: ");
        s.append(self.author_email.as_str());
        s.append(", Message: ");
        s.append(self.message.as_str());
        proof {
            assert(s@ =~= "Hash: "@ + self@.hash + ", Author Email: "@ + self@.author_email
                + ", Message: "@ + self@.message);
        }
        s
    }
}

impl GitRepoInfo {
    /// Builds a snapshot: the path loses its trailing separators, a
    /// missing origin becomes the empty string, and a missing version
    /// becomes the current one.
    pub fn new(
        path: String,
        origin_url: Option<String>,
        status: String,
        unpushed_commits: String,
        remote_updates: String,
        app_version: Option<SchemaVersion>,
        commits: Option<Vec<GitCommit>>,
        languages: Option<Vec<LanguageStat>>,
    ) -> (r: Self)
        ensures
            r@ == (RepoModel {
                path: strip_trailing_slashes(path@),
                status: status@,
                origin_url: match origin_url {
                    Some(u) => u@,
                    None => Seq::<char>::empty(),
                },
                unpushed_commits: unpushed_commits@,
                remote_updates: remote_updates@,
                app_version: match app_version {
                    Some(v) => v,
                    None => spec_current_version(),
                },
                commits: commits_view(&commits),
                languages: languages_view(&languages),
            }),
    {
        let trimmed = trim_trailing_slashes(&path);
        let origin = match origin_url {
            Some(u) => u,
            None => String::new(),
        };
        let version = match app_version {
            Some(v) => v,
            None => current_version(),
        };
        Self {
            path: trimmed,
            status,
            origin_url: origin,
            unpushed_commits,
            remote_updates,
            app_version: version,
            commits,
            languages,
        }
    }

    /// Equality on the five text facts and the version; commit history
    /// and language statistics are left out of the comparison.
    pub fn is_equal(&self, other: &Self) -> (r: bool)
        ensures
            r == (self@.path == other@.path && self@.origin_url == other@.origin_url
                && self@.status == other@.status && self@.unpushed_commits
                == other@.unpushed_commits && self@.remote_updates == other@.remote_updates
                && self@.app_version == other@.app_version),
    {
        self.path == other.path && self.origin_url == other.origin_url && self.status
            == other.status && self.unpushed_commits == other.unpushed_commits
            && self.remote_updates == other.remote_updates && self.app_version == other.app_version
    }
}

/// The summary derived from a snapshot model: same path and origin,
/// newline counts of the three blobs, the version of this crate.
pub open spec fn spec_summary_of(m: RepoModel) -> SummaryModel {
    SummaryModel {
        path: strip_trailing_slashes(m.path),
        origin_url: m.origin_url,
        status_lines: spec_lines_of(m.status),
        unpushed_commits_lines: spec_lines_of(m.unpushed_commits),
        remote_updates_lines: spec_lines_of(m.remote_updates),
        app_version: spec_current_version(),
    }
}

impl DeepView for GitRepoSummary {
    type V = SummaryModel;

    open spec fn deep_view(&self) -> SummaryModel {
        self.view()
    }
}

impl GitRepoSummary {
    /// Builds a summary record: the path loses its trailing separators,
    /// a missing origin becomes the empty string, and the version is the
    /// current one.
    pub fn new(
        path: String,
        origin_url: Option<String>,
        status_lines: i32,
        unpushed_commits_lines: i32,
        remote_updates_lines: i32,
    ) -> (r: Self)
        ensures
            r@ == (SummaryModel {
                path: strip_trailing_slashes(path@),
                origin_url: match origin_url {
                    Some(u) => u@,
                    None => Seq::<char>::empty(),
                },
                status_lines: status_lines as int,
                unpushed_commits_lines: unpushed_commits_lines as int,
                remote_updates_lines: remote_updates_lines as int,
                app_version: spec_current_version(),
            }),
    {
        let trimmed = trim_trailing_slashes(&path);
        let origin = match origin_url {
            Some(u) => u,
            None => String::new(),
        };
        Self {
            path: trimmed,
            origin_url: origin,
            status_lines,
            unpushed_commits_lines,
            remote_updates_lines,
            app_version: current_version(),
        }
    }
}

/// Derives the summary of one snapshot.
pub fn derive_summary(repo: &GitRepoInfo) -> (r: GitRepoSummary)
    ensures
        r@ == spec_summary_of(repo@),
{
    let status_lines = lines_of(&repo.status);
    let unpushed_lines = lines_of(&repo.unpushed_commits);
    let remote_lines = lines_of(&repo.remote_updates);
    let path = clone_string(&repo.path);
    let origin = clone_string(&repo.origin_url);
    GitRepoSummary::new(path, Some(origin), status_lines, unpushed_lines, remote_lines)
}

/// A copy of a string, character for character.
pub fn clone_string(s: &String) -> (r: String)
    ensures
        r@ == s@,
{
    String::from_str(s.as_str())
}


// ---------------------------------------------------------------------
// The durable store: two key-value namespaces of the storage engine,
// one for snapshots, one for summaries, both keyed by the UTF-8 bytes
// of the repository path.
// ---------------------------------------------------------------------

/// The storage engine's error type, carried through unchanged.
#[verifier::external_type_specification]
#[verifier::external_body]
pub struct ExSledError(sled::Error);

/// One key-value namespace of the storage engine. The handle is held in
/// a field the verifier does not look into; everything it knows of the
/// tree goes through `kv_contents` and the contracts below.
#[verifier::external_body]
pub struct KvTree {
    db: sled::Db,
}

/// The full map from key bytes to value bytes that a namespace holds.
pub uninterp spec fn kv_contents(t: KvTree) -> Map<Seq<u8>, Seq<u8>>;

/// Strict lexicographic order on byte strings, the engine's key order.
pub open spec fn bytes_lt(a: Seq<u8>, b: Seq<u8>) -> bool
    decreases a.len(),
{
    if b.len() == 0 {
        false
    } else if a.len() == 0 {
        true
    } else if a[0] < b[0] {
        true
    } else if a[0] > b[0] {
        false
    } else {
        bytes_lt(a.drop_first(), b.drop_first())
    }
}

/// `es` lists exactly the pairs of `m`, in ascending key order.
pub open spec fn entries_match(es: Seq<(Vec<u8>, Vec<u8>)>, m: Map<Seq<u8>, Seq<u8>>) -> bool {
    &&& forall|i: int|
        0 <= i < es.len() ==> m.contains_key(#[trigger] es[i].0@) && m[es[i].0@] == es[i].1@
    &&& forall|k: Seq<u8>|
        #[trigger] m.contains_key(k) ==> exists|i: int| 0 <= i < es.len() && es[i].0@ == k
    &&& forall|i: int, j: int| 0 <= i < j < es.len() ==> bytes_lt(es[i].0@, es[j].0@)
}

impl KvTree {
    /// Relies on `sled::open`: opens, creating it if missing, the tree
    /// rooted at the given directory. What it holds depends on the disk,
    /// so nothing is promised of the fresh handle's contents.
    #[verifier::external_body]
    fn open(path: &String) -> Result<KvTree, sled::Error> {
        match sled::open(path.as_str()) {
            Ok(db) => Ok(KvTree { db }),
            Err(e) => Err(e),
        }
    }

    /// Relies on `sled::Tree::insert`: maps the key to the value,
    /// replacing any prior value for that key.
    #[verifier::external_body]
    fn insert(&mut self, key: &Vec<u8>, value: Vec<u8>) -> (r: Result<(), sled::Error>)
        ensures
            r is Ok ==> kv_contents(*final(self)) == kv_contents(*old(self)).insert(
                key@,
                value@,
            ),
    {
        match self.db.insert(key.as_slice(), value) {
            Ok(_) => Ok(()),
            Err(e) => Err(e),
        }
    }

    /// Relies on `sled::Tree::get`: yields the value the key maps to, or
    /// nothing when the key is unmapped.
    #[verifier::external_body]
    fn get(&self, key: &Vec<u8>) -> (r: Result<Option<Vec<u8>>, sled::Error>)
        ensures
            match r {
                Ok(Some(v)) => kv_contents(*self).contains_key(key@) && v@ == kv_contents(
                    *self,
                )[key@],
                Ok(None) => !kv_contents(*self).contains_key(key@),
                Err(_) => true,
            },
    {
        match self.db.get(key.as_slice()) {
            Ok(Some(v)) => Ok(Some(v.to_vec())),
            Ok(None) => Ok(None),
            Err(e) => Err(e),
        }
    }

    /// Relies on `sled::Tree::iter`: every pair the tree holds, in
    /// ascending byte order of key.
    #[verifier::external_body]
    fn entries(&self) -> (r: Result<Vec<(Vec<u8>, Vec<u8>)>, sled::Error>)
        ensures
            match r {
                Ok(es) => entries_match(es@, kv_contents(*self)),
                Err(_) => true,
            },
    {
        let mut out: Vec<(Vec<u8>, Vec<u8>)> = Vec::new();
        for pair in self.db.iter() {
            match pair {
                Ok((k, v)) => out.push((k.to_vec(), v.to_vec())),
                Err(e) => return Err(e),
            }
        }
        Ok(out)
    }
}

/// What can go wrong at the store: a missing key, an engine failure, or
/// a record that does not decode.
#[derive(Debug)]
pub enum GitDatabaseError {
    KeyNotExist,
    SledError(sled::Error),
    DecodeError(DecodeError),
}

/// The fixed rendering of a store error.
pub open spec fn spec_db_error_text(e: GitDatabaseError) -> Seq<char> {
    match e {
        GitDatabaseError::KeyNotExist => "Key not existed in database."@,
        GitDatabaseError::SledError(_) => "sled error"@,
        GitDatabaseError::DecodeError(DecodeError::Truncated) => "decode error: record truncated"@,
        GitDatabaseError::DecodeError(DecodeError::Corrupt) => "decode error: record corrupt"@,
    }
}

impl GitDatabaseError {
    /// A short rendering of the error, for display by callers; the
    /// engine's own message is carried in the variant.
    pub fn message(&self) -> (s: String)
        ensures
            s@ == spec_db_error_text(*self),
    {
        match self {
            GitDatabaseError::KeyNotExist => String::from_str("Key not existed in database."),
            GitDatabaseError::SledError(_) => String::from_str("sled error"),
            GitDatabaseError::DecodeError(DecodeError::Truncated) => String::from_str(
                "decode error: record truncated",
            ),
            GitDatabaseError::DecodeError(DecodeError::Corrupt) => String::from_str(
                "decode error: record corrupt",
            ),
        }
    }
}

/// The key under which a path's records are stored.
pub open spec fn spec_key_of(path: Seq<char>) -> Seq<u8> {
    encode_utf8(path)
}

/// The snapshots that decode out of a listing of raw entries, in the
/// listing's order; records that fail to decode are passed over.
pub open spec fn spec_decoded_repos(es: Seq<(Vec<u8>, Vec<u8>)>) -> Seq<RepoModel>
    decreases es.len(),
{
    if es.len() == 0 {
        Seq::<RepoModel>::empty()
    } else {
        let rest = spec_decoded_repos(es.drop_first());
        match spec_decode_repo(es.first().1@) {
            Ok(p) => seq![p.0] + rest,
            Err(_) => rest,
        }
    }
}

/// The summaries that decode out of a listing of raw entries.
pub open spec fn spec_decoded_summaries(es: Seq<(Vec<u8>, Vec<u8>)>) -> Seq<SummaryModel>
    decreases es.len(),
{
    if es.len() == 0 {
        Seq::<SummaryModel>::empty()
    } else {
        let rest = spec_decoded_summaries(es.drop_first());
        match spec_decode_summary(es.first().1@) {
            Ok(m) => seq![m] + rest,
            Err(_) => rest,
        }
    }
}

/// The summary namespace after one rollup pass over the raw snapshot
/// entries: each snapshot that decodes has its derived summary written
/// under its path's key; the rest of the namespace keeps its records.
pub open spec fn spec_apply_summaries(
    m0: Map<Seq<u8>, Seq<u8>>,
    es: Seq<(Vec<u8>, Vec<u8>)>,
) -> Map<Seq<u8>, Seq<u8>>
    decreases es.len(),
{
    if es.len() == 0 {
        m0
    } else {
        let m1 = match spec_decode_repo(es.first().1@) {
            Ok(p) => m0.insert(
                spec_key_of(spec_summary_of(p.0).path),
                spec_encode_summary(spec_summary_of(p.0)),
            ),
            Err(_) => m0,
        };
        spec_apply_summaries(m1, es.drop_first())
    }
}

/// One listed record against one raw entry: the same key, and the
/// outcome the versioned decode gives for the entry's bytes.
pub open spec fn record_outcome_matches(
    out: (Vec<u8>, Result<(GitRepoInfo, RecordShape), DecodeError>),
    entry: (Vec<u8>, Vec<u8>),
) -> bool {
    &&& out.0@ == entry.0@
    &&& match out.1 {
        Ok(p) => spec_decode_repo(entry.1@) == Ok::<(RepoModel, RecordShape), DecodeError>(
            (p.0@, p.1),
        ),
        Err(e) => spec_decode_repo(entry.1@) == Err::<(RepoModel, RecordShape), DecodeError>(e),
    }
}

/// The durable cache: snapshots and derived summaries, path-keyed.
pub struct GitDatabase {
    db: KvTree,
    summary_db: KvTree,
}

/// The snapshot namespace's contents: key bytes to record bytes.
pub closed spec fn snapshot_contents(d: GitDatabase) -> Map<Seq<u8>, Seq<u8>> {
    kv_contents(d.db)
}

/// The summary namespace's contents: key bytes to record bytes.
pub closed spec fn summary_contents(d: GitDatabase) -> Map<Seq<u8>, Seq<u8>> {
    kv_contents(d.summary_db)
}

impl GitDatabase {
    /// Opens, creating them if missing, the two namespaces under the
    /// given base directory; what they hold depends on the disk. Only a
    /// failure of the storage engine itself is an error.
    pub fn new(path: &String) -> (r: Result<GitDatabase, GitDatabaseError>)
        ensures
            r is Err ==> r->Err_0 is SledError,
    {
        let mut repo_path = clone_string(path);
        repo_path.append("/repo_db");
        let mut summary_path = clone_string(path);
        summary_path.append("/summary_db");
        let db = match KvTree::open(&repo_path) {
            Ok(t) => t,
            Err(e) => {
                return Err(GitDatabaseError::SledError(e));
            },
        };
        let summary_db = match KvTree::open(&summary_path) {
            Ok(t) => t,
            Err(e) => {
                return Err(GitDatabaseError::SledError(e));
            },
        };
        Ok(GitDatabase { db, summary_db })
    }

    /// Writes the snapshot under its path's key, wholly replacing any
    /// prior record there; the summary namespace is untouched.
    pub fn save_to_db(&mut self, repo: &GitRepoInfo) -> (r: Result<(), GitDatabaseError>)
        ensures
            r is Ok ==> snapshot_contents(*final(self)) == snapshot_contents(
                *old(self),
            ).insert(spec_key_of(repo@.path), spec_encode_repo(repo@)),
            summary_contents(*final(self)) == summary_contents(*old(self)),
    {
        let key = repo.path.as_str().as_bytes_vec();
        let value = encode_repo(repo);
        match self.db.insert(&key, value) {
            Ok(()) => Ok(()),
            Err(e) => Err(GitDatabaseError::SledError(e)),
        }
    }

    /// Decodes one stored record, through the versioned fallback chain.
    pub fn deserialize_git_repo_info(data: &Vec<u8>) -> (r: Result<GitRepoInfo, DecodeError>)
        ensures
            match r {
                Ok(repo) => exists|sh: RecordShape|
                    spec_decode_repo(data@) == Ok::<(RepoModel, RecordShape), DecodeError>(
                        (repo@, sh),
                    ),
                Err(e) => spec_decode_repo(data@) == Err::<(RepoModel, RecordShape), DecodeError>(
                    e,
                ),
            },
    {
        match decode_repo(data) {
            Ok((repo, shape)) => {
                proof {
                    let sh = shape;
                    assert(spec_decode_repo(data@) == Ok::<(RepoModel, RecordShape), DecodeError>(
                        (repo@, sh),
                    ));
                }
                Ok(repo)
            },
            Err(e) => Err(e),
        }
    }

    /// Every snapshot the store holds that decodes, in key order;
    /// records that fail to decode are passed over, never aborting the
    /// walk — `snapshot_records` lists them for per-record reporting.
    /// An engine failure ends the walk with its error.
    pub fn load_from_db(&self) -> (r: Result<Vec<GitRepoInfo>, GitDatabaseError>)
        ensures
            match r {
                Ok(v) => exists|es: Seq<(Vec<u8>, Vec<u8>)>|
                    #[trigger] entries_match(es, snapshot_contents(*self)) && v.deep_view()
                        == spec_decoded_repos(es),
                Err(e) => e is SledError,
            },
    {
        let entries = match self.db.entries() {
            Ok(es) => es,
            Err(e) => {
                return Err(GitDatabaseError::SledError(e));
            },
        };
        let mut repos: Vec<GitRepoInfo> = Vec::new();
        let mut i: usize = 0;
        proof {
            assert(repos.deep_view() =~= Seq::<RepoModel>::empty());
            assert(spec_decoded_repos(entries@.take(0)) =~= Seq::<RepoModel>::empty());
        }
        while i < entries.len()
            invariant
                i <= entries@.len(),
                repos.deep_view() == spec_decoded_repos(entries@.take(i as int)),
                entries_match(entries@, kv_contents(self.db)),
            decreases entries@.len() - i,
        {
            let ghost pre = repos.deep_view();
            proof {
                lemma_decoded_repos_take_step(entries@, i as int);
            }
            match Self::deserialize_git_repo_info(&entries[i].1) {
                Ok(repo) => {
                    repos.push(repo);
                    proof {
                        assert(repos.deep_view() =~= pre.push(
                            spec_decode_repo(entries@[i as int].1@)->Ok_0.0,
                        ));
                        assert(pre.push(spec_decode_repo(entries@[i as int].1@)->Ok_0.0) =~= pre
                            + seq![spec_decode_repo(entries@[i as int].1@)->Ok_0.0]);
                    }
                },
                Err(_) => {},
            }
            i = i + 1;
        }
        proof {
            assert(entries@.take(entries@.len() as int) =~= entries@);
            assert(entries_match(entries@, snapshot_contents(*self)));
            assert(repos.deep_view() == spec_decoded_repos(entries@));
        }
        Ok(repos)
    }

    /// The stored record for one path: the snapshot it decodes to, a
    /// missing-key condition, or the record's own decode failure.
    pub fn get_repo_details(&self, path: &String) -> (r: Result<GitRepoInfo, GitDatabaseError>)
        ensures
            match r {
                Ok(repo) => snapshot_contents(*self).contains_key(spec_key_of(path@)) && (
                exists|sh: RecordShape|
                    spec_decode_repo(snapshot_contents(*self)[spec_key_of(path@)]) == Ok::<
                        (RepoModel, RecordShape),
                        DecodeError,
                    >((repo@, sh))),
                Err(GitDatabaseError::KeyNotExist) => !snapshot_contents(*self).contains_key(
                    spec_key_of(path@),
                ),
                Err(GitDatabaseError::DecodeError(e)) => snapshot_contents(*self).contains_key(
                    spec_key_of(path@),
                ) && spec_decode_repo(snapshot_contents(*self)[spec_key_of(path@)]) == Err::<
                    (RepoModel, RecordShape),
                    DecodeError,
                >(e),
                Err(GitDatabaseError::SledError(_)) => true,
            },
    {
        let key = path.as_str().as_bytes_vec();
        match self.db.get(&key) {
            Ok(Some(value)) => match Self::deserialize_git_repo_info(&value) {
                Ok(repo) => Ok(repo),
                Err(e) => Err(GitDatabaseError::DecodeError(e)),
            },
            Ok(None) => Err(GitDatabaseError::KeyNotExist),
            Err(e) => Err(GitDatabaseError::SledError(e)),
        }
    }

    /// Recomputes every summary from every current snapshot, writing
    /// each under its path's key and wholly replacing what stood there;
    /// snapshots that fail to decode are passed over. The snapshot
    /// namespace is untouched.
    pub fn summary_repos_table(&mut self) -> (r: Result<(), GitDatabaseError>)
        ensures
            snapshot_contents(*final(self)) == snapshot_contents(*old(self)),
            r is Ok ==> exists|es: Seq<(Vec<u8>, Vec<u8>)>|
                #[trigger] entries_match(es, snapshot_contents(*old(self))) && summary_contents(
                    *final(self),
                ) == spec_apply_summaries(summary_contents(*old(self)), es),
    {
        let entries = match self.db.entries() {
            Ok(es) => es,
            Err(e) => {
                return Err(GitDatabaseError::SledError(e));
            },
        };
        let mut i: usize = 0;
        proof {
            assert(entries@.skip(0) =~= entries@);
        }
        while i < entries.len()
            invariant
                i <= entries@.len(),
                self.db == old(self).db,
                entries_match(entries@, kv_contents(old(self).db)),
                spec_apply_summaries(kv_contents(old(self).summary_db), entries@) ==
                    spec_apply_summaries(
                    kv_contents(self.summary_db),
                    entries@.skip(i as int),
                ),
            decreases entries@.len() - i,
        {
            proof {
                lemma_apply_summaries_skip_step(
                    kv_contents(self.summary_db),
                    entries@,
                    i as int,
                );
            }
            match Self::deserialize_git_repo_info(&entries[i].1) {
                Ok(repo) => {
                    let summary = derive_summary(&repo);
                    let key = summary.path.as_str().as_bytes_vec();
                    let value = encode_summary(&summary);
                    match self.summary_db.insert(&key, value) {
                        Ok(()) => {},
                        Err(e) => {
                            return Err(GitDatabaseError::SledError(e));
                        },
                    }
                },
                Err(_) => {},
            }
            i = i + 1;
        }
        proof {
            assert(entries@.skip(entries@.len() as int) =~= Seq::<(Vec<u8>, Vec<u8>)>::empty());
            assert(entries_match(entries@, snapshot_contents(*old(self))));
            assert(summary_contents(*self) == spec_apply_summaries(
                summary_contents(*old(self)),
                entries@,
            ));
        }
        Ok(())
    }

    /// Every stored record's key and decode outcome, in key order: for
    /// each record, the snapshot with the shape it decoded from, or that
    /// record's own decode failure; a failing record never stops the
    /// walk. Callers report per-record failures and warn of records
    /// found in a stale shape from this listing.
    pub fn snapshot_records(&self) -> (r: Result<
        Vec<(Vec<u8>, Result<(GitRepoInfo, RecordShape), DecodeError>)>,
        GitDatabaseError,
    >)
        ensures
            match r {
                Ok(v) => exists|es: Seq<(Vec<u8>, Vec<u8>)>|
                    #[trigger] entries_match(es, snapshot_contents(*self)) && v@.len() == es.len()
                        && (forall|i: int|
                        0 <= i < es.len() ==> record_outcome_matches(#[trigger] v@[i], es[i])),
                Err(e) => e is SledError,
            },
    {
        let entries = match self.db.entries() {
            Ok(es) => es,
            Err(e) => {
                return Err(GitDatabaseError::SledError(e));
            },
        };
        let mut out: Vec<(Vec<u8>, Result<(GitRepoInfo, RecordShape), DecodeError>)> = Vec::new();
        let mut i: usize = 0;
        while i < entries.len()
            invariant
                i <= entries@.len(),
                out@.len() == i as nat,
                entries_match(entries@, kv_contents(self.db)),
                forall|k: int|
                    0 <= k < i ==> record_outcome_matches(#[trigger] out@[k], entries@[k]),
            decreases entries@.len() - i,
        {
            let key = slice_to_vec(entries[i].0.as_slice());
            let outcome = decode_repo(&entries[i].1);
            out.push((key, outcome));
            i = i + 1;
        }
        proof {
            assert(entries_match(entries@, snapshot_contents(*self)));
        }
        Ok(out)
    }

    /// Every summary the store holds that decodes, in key order.
    pub fn get_summary_stats(&self) -> (r: Result<Vec<GitRepoSummary>, GitDatabaseError>)
        ensures
            match r {
                Ok(v) => exists|es: Seq<(Vec<u8>, Vec<u8>)>|
                    #[trigger] entries_match(es, summary_contents(*self)) && v.deep_view()
                        == spec_decoded_summaries(es),
                Err(e) => e is SledError,
            },
    {
        let entries = match self.summary_db.entries() {
            Ok(es) => es,
            Err(e) => {
                return Err(GitDatabaseError::SledError(e));
            },
        };
        let mut repos: Vec<GitRepoSummary> = Vec::new();
        let mut i: usize = 0;
        proof {
            assert(repos.deep_view() =~= Seq::<SummaryModel>::empty());
            assert(spec_decoded_summaries(entries@.take(0)) =~= Seq::<SummaryModel>::empty());
        }
        while i < entries.len()
            invariant
                i <= entries@.len(),
                repos.deep_view() == spec_decoded_summaries(entries@.take(i as int)),
                entries_match(entries@, kv_contents(self.summary_db)),
            decreases entries@.len() - i,
        {
            let ghost pre = repos.deep_view();
            proof {
                lemma_decoded_summaries_take_step(entries@, i as int);
            }
            match decode_summary(&entries[i].1) {
                Ok(summary) => {
                    repos.push(summary);
                    proof {
                        assert(repos.deep_view() =~= pre.push(
                            spec_decode_summary(entries@[i as int].1@)->Ok_0,
                        ));
                        assert(pre.push(spec_decode_summary(entries@[i as int].1@)->Ok_0) =~= pre
                            + seq![spec_decode_summary(entries@[i as int].1@)->Ok_0]);
                    }
                },
                Err(_) => {},
            }
            i = i + 1;
        }
        proof {
            assert(entries@.take(entries@.len() as int) =~= entries@);
            assert(entries_match(entries@, summary_contents(*self)));
            assert(repos.deep_view() == spec_decoded_summaries(entries@));
        }
        Ok(repos)
    }
}

proof fn lemma_decoded_repos_take_step(es: Seq<(Vec<u8>, Vec<u8>)>, i: int)
    requires
        0 <= i < es.len(),
    ensures
        spec_decoded_repos(es.take(i + 1)) == (match spec_decode_repo(es[i].1@) {
            Ok(p) => spec_decoded_repos(es.take(i)) + seq![p.0],
            Err(e) => spec_decoded_repos(es.take(i)),
        }),
    decreases i,
{
    if i == 0 {
        assert(es.take(1).first() == es[0]);
        assert(es.take(1).drop_first() =~= Seq::<(Vec<u8>, Vec<u8>)>::empty());
        assert(es.take(0) =~= Seq::<(Vec<u8>, Vec<u8>)>::empty());
        match spec_decode_repo(es[0].1@) {
            Ok(p) => {
                assert(seq![p.0] + Seq::<RepoModel>::empty() =~= Seq::<RepoModel>::empty()
                    + seq![p.0]);
            },
            Err(_) => {},
        }
    } else {
        lemma_decoded_repos_take_step(es.drop_first(), i - 1);
        assert(es.take(i + 1).first() == es[0]);
        assert(es.take(i + 1).drop_first() =~= es.drop_first().take(i));
        assert(es.take(i).first() == es[0]);
        assert(es.take(i).drop_first() =~= es.drop_first().take(i - 1));
        assert(es.drop_first()[i - 1] == es[i]);
        match spec_decode_repo(es[0].1@) {
            Ok(p0) => {
                match spec_decode_repo(es[i].1@) {
                    Ok(p) => {
                        assert(seq![p0.0] + (spec_decoded_repos(es.drop_first().take(i - 1))
                            + seq![p.0]) =~= (seq![p0.0] + spec_decoded_repos(
                            es.drop_first().take(i - 1),
                        )) + seq![p.0]);
                    },
                    Err(_) => {},
                }
            },
            Err(_) => {},
        }
    }
}

proof fn lemma_decoded_summaries_take_step(es: Seq<(Vec<u8>, Vec<u8>)>, i: int)
    requires
        0 <= i < es.len(),
    ensures
        spec_decoded_summaries(es.take(i + 1)) == (match spec_decode_summary(es[i].1@) {
            Ok(m) => spec_decoded_summaries(es.take(i)) + seq![m],
            Err(e) => spec_decoded_summaries(es.take(i)),
        }),
    decreases i,
{
    if i == 0 {
        assert(es.take(1).first() == es[0]);
        assert(es.take(1).drop_first() =~= Seq::<(Vec<u8>, Vec<u8>)>::empty());
        assert(es.take(0) =~= Seq::<(Vec<u8>, Vec<u8>)>::empty());
        match spec_decode_summary(es[0].1@) {
            Ok(m) => {
                assert(seq![m] + Seq::<SummaryModel>::empty() =~= Seq::<SummaryModel>::empty()
                    + seq![m]);
            },
            Err(_) => {},
        }
    } else {
        lemma_decoded_summaries_take_step(es.drop_first(), i - 1);
        assert(es.take(i + 1).first() == es[0]);
        assert(es.take(i + 1).drop_first() =~= es.drop_first().take(i));
        assert(es.take(i).first() == es[0]);
        assert(es.take(i).drop_first() =~= es.drop_first().take(i - 1));
        assert(es.drop_first()[i - 1] == es[i]);
        match spec_decode_summary(es[0].1@) {
            Ok(m0) => {
                match spec_decode_summary(es[i].1@) {
                    Ok(m) => {
                        assert(seq![m0] + (spec_decoded_summaries(es.drop_first().take(i - 1))
                            + seq![m]) =~= (seq![m0] + spec_decoded_summaries(
                            es.drop_first().take(i - 1),
                        )) + seq![m]);
                    },
                    Err(_) => {},
                }
            },
            Err(_) => {},
        }
    }
}

proof fn lemma_apply_summaries_skip_step(m: Map<Seq<u8>, Seq<u8>>, es: Seq<(Vec<u8>, Vec<u8>)>, i: int)
    requires
        0 <= i < es.len(),
    ensures
        spec_apply_summaries(m, es.skip(i)) == (match spec_decode_repo(es[i].1@) {
            Ok(p) => spec_apply_summaries(
                m.insert(
                    spec_key_of(spec_summary_of(p.0).path),
                    spec_encode_summary(spec_summary_of(p.0)),
                ),
                es.skip(i + 1),
            ),
            Err(e) => spec_apply_summaries(m, es.skip(i + 1)),
        }),
{
    assert(es.skip(i).first() == es[i]);
    assert(es.skip(i).drop_first() =~= es.skip(i + 1));
}

/// Round trip through the store: writing a valid current-shape snapshot
/// under its path's key and reading that key back decodes to exactly the
/// snapshot written, recognized as current-shape.
pub proof fn lemma_put_get_round_trip(m: Map<Seq<u8>, Seq<u8>>, r: RepoModel)
    requires
        repo_fits(r),
    ensures
        m.insert(spec_key_of(r.path), spec_encode_repo(r)).contains_key(spec_key_of(r.path)),
        spec_decode_repo(m.insert(spec_key_of(r.path), spec_encode_repo(r))[spec_key_of(r.path)])
            == Ok::<(RepoModel, RecordShape), DecodeError>((r, RecordShape::Current)),
{
    lemma_decode_encode_repo(r);
}

} // verus!
