//! Discovery of repository roots, the per-repository fact collector's
//! decisions, and the aggregation the concurrent fan-out relies on.
//!
//! The filesystem and the version-control collaborator live with the
//! caller: discovery walks a tree the caller has already classified, and
//! the collector assembles snapshots out of facts the caller gathered.

use crate::git_database::{
    commits_view, languages_view, snapshot_contents, spec_key_of, strip_trailing_slashes,
    trim_trailing_slashes, clone_string, GitCommit, GitDatabase, GitDatabaseError, GitRepoInfo,
    LanguageStat, RepoModel,
};
use crate::codec::{spec_decode_repo, DecodeError, RecordShape};
use crate::version::{
    current_version, languages_since, spec_current_version, spec_languages_since, version_le,
};
use vstd::multiset::Multiset;
use vstd::prelude::*;

verus! {

/// What can go wrong while discovering and collecting: a bad detail
/// level, a hard failure of the version-control collaborator (its
/// message), no repository under the asked path, or a cache failure.
#[derive(Debug)]
pub enum GitStatusError {
    InvalidDetailLevel,
    Git2(String),
    NoGitRepoFound,
    GitDatabaseError(GitDatabaseError),
}

/// The fixed rendering of a collection error; the collaborator's or the
/// store's own text follows the prefix.
pub open spec fn spec_status_error_text(e: GitStatusError) -> Seq<char> {
    match e {
        GitStatusError::InvalidDetailLevel => "GitStatus:: Details level must be between 0, 1"@,
        GitStatusError::NoGitRepoFound => "GitStatus:: No git repo found"@,
        GitStatusError::Git2(msg) => "GitStatus:: git error: "@ + msg@,
        GitStatusError::GitDatabaseError(e) => "GitStatus:: database access error: "@
            + crate::git_database::spec_db_error_text(e),
    }
}

impl GitStatusError {
    /// A short rendering of the error, for display by callers.
    pub fn message(&self) -> (s: String)
        ensures
            s@ == spec_status_error_text(*self),
    {
        match self {
            GitStatusError::InvalidDetailLevel => String::from_str(
                "GitStatus:: Details level must be between 0, 1",
            ),
            GitStatusError::NoGitRepoFound => String::from_str("GitStatus:: No git repo found"),
            GitStatusError::Git2(msg) => {
                let mut s = String::from_str("GitStatus:: git error: ");
                s.append(msg.as_str());
                s
            },
            GitStatusError::GitDatabaseError(e) => {
                let mut s = String::from_str("GitStatus:: database access error: ");
                let inner = e.message();
                s.append(inner.as_str());
                s
            },
        }
    }
}

// ---------------------------------------------------------------------
// Discovery: a pure walk over an already-classified tree.
// ---------------------------------------------------------------------

/// A filesystem subtree as discovery sees it: a repository root (with
/// whatever nests below it), a plain directory with named entries, a
/// non-directory, or a directory whose entries cannot be read (skipped
/// with a warning, never fatal).
pub enum FsTree {
    Repo(Vec<(String, FsTree)>),
    Dir(Vec<(String, FsTree)>),
    File,
    Unreadable,
}

/// The path of an entry under its parent.
pub open spec fn spec_child_path(parent: Seq<char>, name: Seq<char>) -> Seq<char> {
    parent + seq!['/'] + name
}

/// The repository roots reachable from `t` at `path`: a root is taken
/// alone and never descended into, a directory contributes its entries'
/// roots in order, anything else contributes nothing.
pub open spec fn spec_roots(t: FsTree, path: Seq<char>) -> Seq<Seq<char>>
    decreases t, 0int,
{
    match t {
        FsTree::Repo(_) => seq![path],
        FsTree::File => Seq::<Seq<char>>::empty(),
        FsTree::Unreadable => Seq::<Seq<char>>::empty(),
        FsTree::Dir(entries) => spec_roots_entries(entries@, 0, path),
    }
}

/// The roots of the entries from index `i` on.
pub open spec fn spec_roots_entries(
    es: Seq<(String, FsTree)>,
    i: int,
    path: Seq<char>,
) -> Seq<Seq<char>>
    decreases es, es.len() - i,
{
    if 0 <= i < es.len() {
        spec_roots(es[i].1, spec_child_path(path, es[i].0@)) + spec_roots_entries(es, i + 1, path)
    } else {
        Seq::<Seq<char>>::empty()
    }
}

/// The roots reachable from `tree` at `path`, in entry order.
fn collect_roots(tree: &FsTree, path: &String) -> (r: Vec<String>)
    ensures
        r.deep_view() == spec_roots(*tree, path@),
    decreases *tree,
{
    match tree {
        FsTree::Repo(_) => {
            let mut out: Vec<String> = Vec::new();
            out.push(clone_string(path));
            proof {
                assert(out.deep_view() =~= spec_roots(*tree, path@));
            }
            out
        },
        FsTree::File => {
            let out: Vec<String> = Vec::new();
            proof {
                assert(out.deep_view() =~= spec_roots(*tree, path@));
            }
            out
        },
        FsTree::Unreadable => {
            let out: Vec<String> = Vec::new();
            proof {
                assert(out.deep_view() =~= spec_roots(*tree, path@));
            }
            out
        },
        FsTree::Dir(entries) => {
            let mut out: Vec<String> = Vec::new();
            let mut i: usize = 0;
            proof {
                assert(out.deep_view() =~= Seq::<Seq<char>>::empty());
            }
            while i < entries.len()
                invariant
                    i <= entries@.len(),
                    *tree == FsTree::Dir(*entries),
                    spec_roots_entries(entries@, 0, path@) == out.deep_view()
                        + spec_roots_entries(entries@, i as int, path@),
                decreases entries@.len() - i,
            {
                let ghost pre = out.deep_view();
                let mut child_path = clone_string(path);
                child_path.append("/");
                child_path.append(entries[i].0.as_str());
                proof {
                    reveal_strlit("/");
                    assert(child_path@ =~= spec_child_path(path@, entries@[i as int].0@));
                    assert(decreases_to!(*tree => tree->Dir_0));
                    assert(decreases_to!(tree->Dir_0 => tree->Dir_0@));
                    assert(decreases_to!(tree->Dir_0@ => tree->Dir_0@[i as int]));
                    assert(decreases_to!(tree->Dir_0@[i as int] => tree->Dir_0@[i as int].1));
                    assert(tree->Dir_0 == *entries);
                }
                let mut sub = collect_roots(&entries[i].1, &child_path);
                let ghost sub_view = sub.deep_view();
                out.append(&mut sub);
                i = i + 1;
                proof {
                    assert(out.deep_view() =~= pre + sub_view);
                    assert(pre + (sub_view + spec_roots_entries(entries@, i as int, path@)) =~= (
                    pre + sub_view) + spec_roots_entries(entries@, i as int, path@));
                }
            }
            proof {
                assert(out.deep_view() + Seq::<Seq<char>>::empty() =~= out.deep_view());
            }
            out
        },
    }
}

/// Discovery: the repository roots reachable from `tree` at `path`, or
/// the distinct no-repository-found condition when there is none. An
/// empty outcome and a failed one are never conflated.
pub fn check_git_paths(tree: &FsTree, path: &String) -> (r: Result<Vec<String>, GitStatusError>)
    ensures
        match r {
            Ok(v) => v.deep_view() == spec_roots(*tree, path@) && v@.len() > 0,
            Err(e) => e is NoGitRepoFound && spec_roots(*tree, path@).len() == 0,
        },
{
    let roots = collect_roots(tree, path);
    if roots.len() == 0 {
        Err(GitStatusError::NoGitRepoFound)
    } else {
        Ok(roots)
    }
}

/// Discovery stops at the first found root: a tree that is itself a
/// repository root yields exactly that one path, whatever stands below
/// it; in particular a repository nested under it is never reported.
pub proof fn lemma_roots_stop_at_repo(entries: Vec<(String, FsTree)>, path: Seq<char>)
    ensures
        spec_roots(FsTree::Repo(entries), path) == seq![path],
{
}

// ---------------------------------------------------------------------
// The collector's decisions.
// ---------------------------------------------------------------------

/// Whether `s` is a decimal rendering that `u8` accepts: an optional
/// leading plus sign, then at least one digit.
pub open spec fn spec_u8_shape(s: Seq<char>) -> bool {
    spec_u8_digits(s).len() > 0 && (forall|i: int|
        0 <= i < spec_u8_digits(s).len() ==> spec_is_digit(#[trigger] spec_u8_digits(s)[i]))
}

/// The digit part of a decimal rendering: everything after an optional
/// leading plus sign.
pub open spec fn spec_u8_digits(s: Seq<char>) -> Seq<char> {
    if s.len() > 0 && s[0] == '+' {
        s.drop_first()
    } else {
        s
    }
}

pub open spec fn spec_is_digit(c: char) -> bool {
    '0' <= c <= '9'
}

/// The numeric value of a digit string, most significant digit first.
pub open spec fn spec_decimal_value(s: Seq<char>) -> int
    decreases s.len(),
{
    if s.len() == 0 {
        0
    } else {
        spec_decimal_value(s.drop_last()) * 10 + (s.last() as int - '0' as int)
    }
}

/// The configured detail level is accepted exactly when it is a number
/// between 0 and 1; anything else is rejected with the fixed message,
/// before any work starts.
pub fn validate_detail_level(level: String) -> (r: Result<(), String>)
    ensures
        r is Ok <==> spec_u8_shape(level@) && spec_decimal_value(spec_u8_digits(level@)) <= 1,
        r is Err ==> r->Err_0@ == "Detail level must be a number between 0 and 1"@,
{
    match parse_u8(&level) {
        Some(v) => {
            if v <= 1 {
                Ok(())
            } else {
                Err(String::from_str("Detail level must be a number between 0 and 1"))
            }
        },
        None => Err(String::from_str("Detail level must be a number between 0 and 1")),
    }
}

/// Every digit seen so far keeps the value at least as large.
proof fn lemma_decimal_value_monotone(s: Seq<char>, i: int)
    requires
        0 <= i <= s.len(),
        forall|k: int| 0 <= k < s.len() ==> spec_is_digit(#[trigger] s[k]),
    ensures
        spec_decimal_value(s) >= spec_decimal_value(s.take(i)),
        spec_decimal_value(s) >= 0,
    decreases s.len() - i,
{
    if i == s.len() {
        assert(s.take(i) =~= s);
        lemma_decimal_value_nonneg(s);
    } else {
        lemma_decimal_value_monotone(s, i + 1);
        assert(s.take(i + 1).drop_last() =~= s.take(i));
        assert(s.take(i + 1).last() == s[i]);
        lemma_decimal_value_nonneg(s.take(i));
    }
}

proof fn lemma_decimal_value_nonneg(s: Seq<char>)
    requires
        forall|k: int| 0 <= k < s.len() ==> spec_is_digit(#[trigger] s[k]),
    ensures
        spec_decimal_value(s) >= 0,
    decreases s.len(),
{
    if s.len() > 0 {
        assert(forall|k: int|
            0 <= k < s.drop_last().len() ==> spec_is_digit(#[trigger] s.drop_last()[k]));
        lemma_decimal_value_nonneg(s.drop_last());
    }
}

/// Parses a `u8` out of its decimal rendering: an optional leading plus
/// sign, then digits; too large a value, a stray character or an empty
/// digit part all fail.
pub fn parse_u8(s: &String) -> (r: Option<u8>)
    ensures
        match r {
            Some(v) => spec_u8_shape(s@) && v as int == spec_decimal_value(spec_u8_digits(s@))
                && v as int <= 255,
            None => !(spec_u8_shape(s@) && spec_decimal_value(spec_u8_digits(s@)) <= 255),
        },
{
    let st: &str = s.as_str();
    let len = st.unicode_len();
    let start: usize = if len > 0 && st.get_char(0) == '+' {
        1
    } else {
        0
    };
    proof {
        assert(spec_u8_digits(s@) =~= s@.skip(start as int));
    }
    if start >= len {
        return None;
    }
    let ghost digits = s@.skip(start as int);
    let mut acc: u32 = 0;
    let mut i: usize = start;
    while i < len
        invariant
            start <= i <= len,
            len == s@.len(),
            st@ == s@,
            start <= 1,
            digits == s@.skip(start as int),
            digits == spec_u8_digits(s@),
            acc <= 255,
            forall|k: int| 0 <= k < i - start ==> spec_is_digit(#[trigger] digits[k]),
            acc as int == spec_decimal_value(digits.take(i - start)),
        decreases len - i,
    {
        let c = st.get_char(i);
        proof {
            assert(digits[i - start] == s@[i as int]);
            assert(digits.take(i - start + 1).drop_last() =~= digits.take(i - start));
            assert(digits.take(i - start + 1).last() == digits[i - start]);
        }
        if !('0' <= c && c <= '9') {
            proof {
                assert(!spec_is_digit(spec_u8_digits(s@)[i - start]));
            }
            return None;
        }
        let d: u32 = (c as u32) - ('0' as u32);
        let next: u32 = acc * 10 + d;
        if next > 255 {
            proof {
                if forall|k: int| 0 <= k < digits.len() ==> spec_is_digit(#[trigger] digits[k]) {
                    lemma_decimal_value_monotone(digits, i - start + 1);
                }
            }
            return None;
        }
        acc = next;
        i = i + 1;
    }
    proof {
        assert(digits.take(len - start) =~= digits);
    }
    Some(acc as u8)
}

// ---------------------------------------------------------------------
// Text tests the soft-failure policy rests on.
// ---------------------------------------------------------------------

/// `pat` occurs in `s` as a contiguous run.
pub open spec fn spec_contains_seq(s: Seq<char>, pat: Seq<char>) -> bool {
    exists|i: int| 0 <= i <= s.len() - pat.len() && #[trigger] s.subrange(i, i + pat.len()) == pat
}

/// Whether the characters of `pat` stand at position `i` of `st`.
fn match_at(st: &str, pat: &str, i: usize) -> (r: bool)
    requires
        i + pat@.len() <= st@.len(),
        i + pat@.len() <= usize::MAX,
    ensures
        r == (st@.subrange(i as int, i + pat@.len()) == pat@),
{
    let m = pat.unicode_len();
    let mut j: usize = 0;
    while j < m
        invariant
            j <= m,
            m == pat@.len(),
            i + m <= st@.len(),
            i + m <= usize::MAX,
            forall|t: int| 0 <= t < j ==> st@[i + t] == pat@[t],
        decreases m - j,
    {
        if st.get_char(i + j) != pat.get_char(j) {
            proof {
                assert(st@.subrange(i as int, i + m) != pat@) by {
                    assert(st@.subrange(i as int, i + m)[j as int] == st@[i + j]);
                }
            }
            return false;
        }
        j = j + 1;
    }
    proof {
        assert(st@.subrange(i as int, i + m) =~= pat@);
    }
    true
}

/// Whether `pat` occurs anywhere in `s`.
pub fn contains_str(s: &String, pat: &str) -> (r: bool)
    ensures
        r == spec_contains_seq(s@, pat@),
{
    let st: &str = s.as_str();
    let n = st.unicode_len();
    let m = pat.unicode_len();
    if m > n {
        return false;
    }
    let mut i: usize = 0;
    while i <= n - m
        invariant
            m <= n,
            n == s@.len(),
            m == pat@.len(),
            st@ == s@,
            i <= n - m + 1,
            forall|k: int| 0 <= k < i ==> #[trigger] s@.subrange(k, k + m) != pat@,
        decreases n - m + 1 - i,
    {
        if match_at(st, pat, i) {
            proof {
                assert(s@.subrange(i as int, i + m) == pat@);
            }
            return true;
        }
        proof {
            if m == 0 {
                assert(s@.subrange(i as int, i as int) =~= pat@);
            }
        }
        i = i + 1;
    }
    false
}

/// The phrase in the collaborator's message that marks a fetch refused
/// for want of credentials.
pub fn is_auth_failure(msg: &String) -> (r: bool)
    ensures
        r == spec_contains_seq(msg@, "authentication required"@),
{
    contains_str(msg, "authentication required")
}

/// Whether the origin uses an HTTP(S) transport, the one case in which
/// the best-effort fetch is attempted.
pub open spec fn spec_is_http(s: Seq<char>) -> bool {
    s.len() >= 4 && s[0] == 'h' && s[1] == 't' && s[2] == 't' && s[3] == 'p'
}

/// True when the origin URL starts like an HTTP(S) transport.
pub fn is_http_url(url: &String) -> (r: bool)
    ensures
        r == spec_is_http(url@),
{
    let st: &str = url.as_str();
    if st.unicode_len() < 4 {
        return false;
    }
    st.get_char(0) == 'h' && st.get_char(1) == 't' && st.get_char(2) == 't' && st.get_char(3)
        == 'p'
}

// ---------------------------------------------------------------------
// The soft-failure policy around the best-effort fetch.
// ---------------------------------------------------------------------

/// The outcome of the credential-less fetch: not attempted because the
/// origin is not HTTP, succeeded, or failed with the collaborator's
/// message. Every failure is soft — none aborts the repository — but
/// only a refusal for want of credentials empties the divergence facts;
/// any other failure is logged and the facts are computed from the
/// stale local refs.
#[derive(Debug)]
pub enum FetchOutcome {
    NotAttempted,
    Succeeded,
    Failed(String),
}

/// Whether the fetch was refused for want of credentials: the one
/// failure that empties the divergence facts.
pub open spec fn spec_auth_refused(o: FetchOutcome) -> bool {
    match o {
        FetchOutcome::Failed(msg) => spec_contains_seq(msg@, "authentication required"@),
        _ => false,
    }
}

/// The divergence fact that reaches the snapshot: empty after a fetch
/// refused for want of credentials, the listing itself otherwise.
pub open spec fn spec_soft_fact(auth_refused: bool, listing: Seq<char>) -> Seq<char> {
    if auth_refused {
        Seq::<char>::empty()
    } else {
        listing
    }
}

/// Whether the divergence listings should be computed at all: they are
/// unless the attempted fetch was refused for want of credentials; any
/// other failure proceeds with the stale local refs.
pub fn proceed_after_fetch(outcome: &FetchOutcome) -> (r: bool)
    ensures
        r == !spec_auth_refused(*outcome),
{
    match outcome {
        FetchOutcome::Failed(msg) => !is_auth_failure(msg),
        FetchOutcome::NotAttempted => true,
        FetchOutcome::Succeeded => true,
    }
}

/// Applies the soft-failure rule to one gathered listing.
pub fn soft_fetch_fact(outcome: &FetchOutcome, listing: String) -> (r: String)
    ensures
        r@ == spec_soft_fact(spec_auth_refused(*outcome), listing@),
{
    match outcome {
        FetchOutcome::Failed(msg) => {
            if is_auth_failure(msg) {
                String::new()
            } else {
                listing
            }
        },
        FetchOutcome::NotAttempted => listing,
        FetchOutcome::Succeeded => listing,
    }
}

// ---------------------------------------------------------------------
// Assembling one repository's snapshot from gathered facts.
// ---------------------------------------------------------------------

/// The facts the caller gathered for one repository root: the status
/// listing, the origin, the fetch outcome, the two divergence listings,
/// and, at the fresh detail level, history and language statistics.
#[derive(Debug)]
pub struct RepoFacts {
    pub status: String,
    pub origin_url: String,
    pub fetch: FetchOutcome,
    pub unpushed_listing: String,
    pub updates_listing: String,
    pub fresh_commits: Option<Vec<GitCommit>>,
    pub fresh_languages: Option<Vec<LanguageStat>>,
}

/// At the cached detail level, history and statistics come from the
/// stored record when one exists and decodes; statistics only when the
/// record does not predate them; both absent when no record exists.
pub open spec fn spec_cached_extras(
    db: Map<Seq<u8>, Seq<u8>>,
    path: Seq<char>,
    repo: RepoModel,
) -> bool {
    let key = spec_key_of(strip_trailing_slashes(path));
    if db.contains_key(key) {
        match spec_decode_repo(db[key]) {
            Ok(p) => repo.commits == p.0.commits && repo.languages == (if version_le(
                spec_languages_since(),
                p.0.app_version,
            ) {
                p.0.languages
            } else {
                None
            }),
            Err(_) => false,
        }
    } else {
        repo.commits is None && repo.languages is None
    }
}

/// The snapshot assembled from `facts` for `path` at `level`, with the
/// snapshot namespace holding `db`: field by field.
pub open spec fn spec_build_ok(
    path: Seq<char>,
    facts: RepoFacts,
    level: u8,
    db: Map<Seq<u8>, Seq<u8>>,
    repo: RepoModel,
) -> bool {
    &&& level <= 1
    &&& repo.path == strip_trailing_slashes(path)
    &&& repo.status == facts.status@
    &&& repo.origin_url == facts.origin_url@
    &&& repo.unpushed_commits == spec_soft_fact(
        spec_auth_refused(facts.fetch),
        facts.unpushed_listing@,
    )
    &&& repo.remote_updates == spec_soft_fact(
        spec_auth_refused(facts.fetch),
        facts.updates_listing@,
    )
    &&& repo.app_version == spec_current_version()
    &&& (level == 1 ==> repo.commits == commits_view(&facts.fresh_commits) && repo.languages
        == languages_view(&facts.fresh_languages))
    &&& (level == 0 ==> spec_cached_extras(db, path, repo))
}

/// The errors assembling can report, each tied to the condition that
/// produces it; on every other input assembling succeeds.
pub open spec fn spec_build_err(
    path: Seq<char>,
    level: u8,
    db: Map<Seq<u8>, Seq<u8>>,
    e: GitStatusError,
) -> bool {
    let key = spec_key_of(strip_trailing_slashes(path));
    match e {
        GitStatusError::InvalidDetailLevel => level > 1,
        GitStatusError::GitDatabaseError(GitDatabaseError::DecodeError(de)) => level == 0
            && db.contains_key(key) && spec_decode_repo(db[key]) == Err::<
            (RepoModel, RecordShape),
            DecodeError,
        >(de),
        GitStatusError::GitDatabaseError(GitDatabaseError::SledError(_)) => level == 0,
        GitStatusError::GitDatabaseError(GitDatabaseError::KeyNotExist) => false,
        GitStatusError::Git2(_) => false,
        GitStatusError::NoGitRepoFound => false,
    }
}

/// Stripping trailing separators twice is the same as once.
pub proof fn lemma_strip_idempotent(s: Seq<char>)
    ensures
        strip_trailing_slashes(strip_trailing_slashes(s)) == strip_trailing_slashes(s),
    decreases s.len(),
{
    if s.len() > 0 && s.last() == '/' {
        lemma_strip_idempotent(s.drop_last());
    }
}

/// Assembles one repository's snapshot from its gathered facts: the
/// soft-failure rule shapes the divergence facts, the detail level
/// selects fresh or cached history and statistics, and the path loses
/// its trailing separators.
pub fn build_snapshot(
    path: &String,
    facts: RepoFacts,
    detail_level: u8,
    gitdb: &GitDatabase,
) -> (r: Result<GitRepoInfo, GitStatusError>)
    ensures
        match r {
            Ok(repo) => spec_build_ok(path@, facts, detail_level, snapshot_contents(*gitdb), repo@),
            Err(e) => spec_build_err(path@, detail_level, snapshot_contents(*gitdb), e),
        },
{
    if detail_level > 1 {
        return Err(GitStatusError::InvalidDetailLevel);
    }
    let trimmed = trim_trailing_slashes(path);
    proof {
        lemma_strip_idempotent(path@);
    }
    let RepoFacts {
        status,
        origin_url,
        fetch,
        unpushed_listing,
        updates_listing,
        fresh_commits,
        fresh_languages,
    } = facts;
    let unpushed = soft_fetch_fact(&fetch, unpushed_listing);
    let updates = soft_fetch_fact(&fetch, updates_listing);
    let extras: (Option<Vec<GitCommit>>, Option<Vec<LanguageStat>>) = if detail_level == 1 {
        (fresh_commits, fresh_languages)
    } else {
        match gitdb.get_repo_details(&trimmed) {
            Ok(cached) => {
                let since = languages_since();
                if cached.app_version.is_at_least(&since) {
                    (cached.commits, cached.languages)
                } else {
                    (cached.commits, None)
                }
            },
            Err(GitDatabaseError::KeyNotExist) => (None, None),
            Err(e) => {
                return Err(GitStatusError::GitDatabaseError(e));
            },
        }
    };
    let (commits, languages) = extras;
    Ok(
        GitRepoInfo::new(
            trimmed,
            Some(origin_url),
            status,
            unpushed,
            updates,
            Some(current_version()),
            commits,
            languages,
        ),
    )
}

// ---------------------------------------------------------------------
// One collection run over every discovered root.
// ---------------------------------------------------------------------

/// One root's outcome: a snapshot assembled from its gathered facts, or
/// the error of assembling, or, when gathering itself failed hard, that
/// failure carried as this root's own explicit error.
pub open spec fn spec_collect_one(
    path: Seq<char>,
    g: Result<RepoFacts, String>,
    level: u8,
    db: Map<Seq<u8>, Seq<u8>>,
    o: Result<GitRepoInfo, GitStatusError>,
) -> bool {
    match g {
        Ok(facts) => match o {
            Ok(repo) => spec_build_ok(path, facts, level, db, repo@),
            Err(e) => spec_build_err(path, level, db, e),
        },
        Err(msg) => o is Err && o->Err_0 is Git2 && o->Err_0->Git2_0@ == msg@,
    }
}

/// One outcome per root, in the roots' order, each as
/// `spec_collect_one` says.
pub open spec fn spec_collected(
    roots: Seq<String>,
    gathered: Seq<Result<RepoFacts, String>>,
    level: u8,
    db: Map<Seq<u8>, Seq<u8>>,
    out: Seq<Result<GitRepoInfo, GitStatusError>>,
) -> bool {
    &&& out.len() == roots.len()
    &&& forall|i: int|
        0 <= i < out.len() ==> spec_collect_one(roots[i]@, gathered[i], level, db, #[trigger] out[i])
}

/// Assembles the outcomes of one collection run: exactly one outcome per
/// discovered root, in the roots' order. A root whose facts could not be
/// gathered keeps its own explicit error; it never silences a sibling.
/// Only a detail level outside {0, 1} rejects the whole run, before any
/// work.
pub fn collect_from_facts(
    roots: &Vec<String>,
    gathered: Vec<Result<RepoFacts, String>>,
    detail_level: u8,
    gitdb: &GitDatabase,
) -> (r: Result<Vec<Result<GitRepoInfo, GitStatusError>>, GitStatusError>)
    requires
        roots@.len() == gathered@.len(),
    ensures
        match r {
            Ok(out) => detail_level <= 1 && spec_collected(
                roots@,
                gathered@,
                detail_level,
                snapshot_contents(*gitdb),
                out@,
            ),
            Err(e) => e is InvalidDetailLevel && detail_level > 1,
        },
{
    if detail_level > 1 {
        return Err(GitStatusError::InvalidDetailLevel);
    }
    let ghost g0 = gathered@;
    let mut rest = gathered;
    let mut out: Vec<Result<GitRepoInfo, GitStatusError>> = Vec::new();
    let mut i: usize = 0;
    proof {
        assert(rest@ =~= g0.skip(0));
    }
    while i < roots.len()
        invariant
            i <= roots@.len(),
            g0.len() == roots@.len(),
            rest@ == g0.skip(i as int),
            out@.len() == i as nat,
            forall|k: int|
                0 <= k < i ==> spec_collect_one(
                    roots@[k]@,
                    g0[k],
                    detail_level,
                    snapshot_contents(*gitdb),
                    #[trigger] out@[k],
                ),
            detail_level <= 1,
        decreases roots@.len() - i,
    {
        proof {
            assert(rest@[0] == g0[i as int]);
            assert(rest@.remove(0) =~= g0.skip(i + 1));
        }
        let g = rest.remove(0);
        match g {
            Ok(facts) => {
                let o = build_snapshot(&roots[i], facts, detail_level, gitdb);
                out.push(o);
            },
            Err(msg) => {
                out.push(Err(GitStatusError::Git2(msg)));
            },
        }
        i = i + 1;
    }
    Ok(out)
}

// ---------------------------------------------------------------------
// Properties of a collection run.
// ---------------------------------------------------------------------

/// One outcome per discovered root, and every successful snapshot's
/// path is its root with trailing separators stripped.
pub proof fn lemma_one_snapshot_per_root(
    roots: Seq<String>,
    gathered: Seq<Result<RepoFacts, String>>,
    level: u8,
    db: Map<Seq<u8>, Seq<u8>>,
    out: Seq<Result<GitRepoInfo, GitStatusError>>,
)
    requires
        spec_collected(roots, gathered, level, db, out),
    ensures
        out.len() == roots.len(),
        forall|i: int|
            0 <= i < out.len() && (#[trigger] out[i]) is Ok ==> out[i]->Ok_0@.path
                == strip_trailing_slashes(roots[i]@),
{
}

/// At the fresh detail level a run over healthy roots succeeds for
/// every one of them: exactly one snapshot per discovered root, each
/// carrying its root's path with trailing separators stripped.
pub proof fn lemma_fresh_healthy_run_all_succeed(
    roots: Seq<String>,
    gathered: Seq<Result<RepoFacts, String>>,
    db: Map<Seq<u8>, Seq<u8>>,
    out: Seq<Result<GitRepoInfo, GitStatusError>>,
)
    requires
        spec_collected(roots, gathered, 1, db, out),
        forall|i: int| 0 <= i < roots.len() ==> (#[trigger] gathered[i]) is Ok,
    ensures
        out.len() == roots.len(),
        forall|i: int|
            0 <= i < out.len() ==> (#[trigger] out[i]) is Ok && out[i]->Ok_0@.path
                == strip_trailing_slashes(roots[i]@),
{
    assert forall|i: int| 0 <= i < out.len() implies (#[trigger] out[i]) is Ok
        && out[i]->Ok_0@.path == strip_trailing_slashes(roots[i]@) by {
        if out[i] is Err {
            lemma_fresh_build_never_fails(roots[i]@, db, out[i]->Err_0);
        }
    }
}

/// Idempotence at the fresh detail level: two runs whose gathered facts
/// agree assemble snapshots with byte-identical status, unpushed and
/// update blobs.
pub proof fn lemma_fresh_collection_idempotent(
    path: Seq<char>,
    f1: RepoFacts,
    f2: RepoFacts,
    db1: Map<Seq<u8>, Seq<u8>>,
    db2: Map<Seq<u8>, Seq<u8>>,
    r1: RepoModel,
    r2: RepoModel,
)
    requires
        f1.status@ == f2.status@,
        f1.unpushed_listing@ == f2.unpushed_listing@,
        f1.updates_listing@ == f2.updates_listing@,
        spec_auth_refused(f1.fetch) == spec_auth_refused(f2.fetch),
        spec_build_ok(path, f1, 1, db1, r1),
        spec_build_ok(path, f2, 1, db2, r2),
    ensures
        r1.status == r2.status,
        r1.unpushed_commits == r2.unpushed_commits,
        r1.remote_updates == r2.remote_updates,
{
}

/// A fetch refused for want of credentials is absorbed softly: the
/// snapshot still assembles, and its unpushed and update blobs are
/// empty.
pub proof fn lemma_auth_soft_failure(
    path: Seq<char>,
    facts: RepoFacts,
    level: u8,
    db: Map<Seq<u8>, Seq<u8>>,
    repo: RepoModel,
)
    requires
        spec_build_ok(path, facts, level, db, repo),
        spec_auth_refused(facts.fetch),
    ensures
        repo.unpushed_commits == Seq::<char>::empty(),
        repo.remote_updates == Seq::<char>::empty(),
{
}

/// A fetch that fails for any other reason proceeds with the stale
/// local refs: the snapshot still assembles, and both divergence blobs
/// are the listings computed from them.
pub proof fn lemma_other_fetch_failure_keeps_stale_listings(
    path: Seq<char>,
    facts: RepoFacts,
    level: u8,
    db: Map<Seq<u8>, Seq<u8>>,
    repo: RepoModel,
)
    requires
        spec_build_ok(path, facts, level, db, repo),
        facts.fetch is Failed,
        !spec_auth_refused(facts.fetch),
    ensures
        repo.unpushed_commits == facts.unpushed_listing@,
        repo.remote_updates == facts.updates_listing@,
{
}

/// At the fresh detail level assembling never fails: no error condition
/// of the collector concerns that level.
pub proof fn lemma_fresh_build_never_fails(
    path: Seq<char>,
    db: Map<Seq<u8>, Seq<u8>>,
    e: GitStatusError,
)
    ensures
        !spec_build_err(path, 1, db, e),
{
}

/// Partial failure stays with its root: when one root's facts could not
/// be gathered, that root's outcome is its own explicit error, and at
/// the fresh level every sibling that gathered facts succeeds.
pub proof fn lemma_partial_failure_isolated(
    roots: Seq<String>,
    gathered: Seq<Result<RepoFacts, String>>,
    db: Map<Seq<u8>, Seq<u8>>,
    out: Seq<Result<GitRepoInfo, GitStatusError>>,
    k: int,
)
    requires
        spec_collected(roots, gathered, 1, db, out),
        0 <= k < roots.len(),
        gathered[k] is Err,
        forall|i: int| 0 <= i < roots.len() && i != k ==> (#[trigger] gathered[i]) is Ok,
    ensures
        out.len() == roots.len(),
        out[k] is Err,
        forall|i: int| 0 <= i < out.len() && i != k ==> (#[trigger] out[i]) is Ok,
{
    assert forall|i: int| 0 <= i < out.len() && i != k implies (#[trigger] out[i]) is Ok by {
        if out[i] is Err {
            lemma_fresh_build_never_fails(roots[i]@, db, out[i]->Err_0);
        }
    }
}

// ---------------------------------------------------------------------
// Diagnostics: the slowest units of a run.
// ---------------------------------------------------------------------

/// The three slowest units of a run (fewer when fewer ran): sorted by
/// descending duration, drawn one for one from the input, and no
/// excluded unit ran longer than any reported one.
pub fn slowest_units(durations: Vec<(String, u64)>) -> (r: Vec<(String, u64)>)
    ensures
        r@.len() == (if durations@.len() < 3 {
            durations@.len() as int
        } else {
            3int
        }),
        forall|i: int, j: int| 0 <= i < j < r@.len() ==> r@[i].1 >= r@[j].1,
        exists|rest: Seq<(String, u64)>|
            (#[trigger] rest.to_multiset()).add(r@.to_multiset()) == durations@.to_multiset() && (
            forall|k: int|
                0 <= k < rest.len() && r@.len() > 0 ==> rest[k].1 <= r@[r@.len() - 1].1),
{
    broadcast use vstd::seq_lib::group_to_multiset_ensures;

    let mut rest = durations;
    let mut out: Vec<(String, u64)> = Vec::new();
    proof {
        assert(out@.to_multiset() =~= Multiset::<(String, u64)>::empty());
        assert(out@.to_multiset().add(rest@.to_multiset()) =~= durations@.to_multiset());
    }
    while out.len() < 3 && rest.len() > 0
        invariant
            out@.len() <= 3,
            out@.len() + rest@.len() == durations@.len(),
            out@.to_multiset().add(rest@.to_multiset()) == durations@.to_multiset(),
            forall|i: int, j: int| 0 <= i < j < out@.len() ==> out@[i].1 >= out@[j].1,
            forall|k: int|
                0 <= k < rest@.len() && out@.len() > 0 ==> (#[trigger] rest@[k]).1 <= out@[out@.len()
                    - 1].1,
            out@.len() > 0 && rest@.len() > 0 ==> rest@[0].1 <= out@[out@.len() - 1].1,
        decreases rest@.len(),
    {
        let mut best: usize = 0;
        let mut bi: usize = 1;
        while bi < rest.len()
            invariant
                rest@.len() > 0,
                best < rest@.len(),
                bi <= rest@.len(),
                forall|t: int| 0 <= t < bi ==> (#[trigger] rest@[t]).1 <= rest@[best as int].1,
            decreases rest@.len() - bi,
        {
            if rest[bi].1 > rest[best].1 {
                best = bi;
            }
            bi = bi + 1;
        }
        let ghost old_rest = rest@;
        let ghost old_out = out@;
        let item = rest.remove(best);
        out.push(item);
        proof {
            assert(item == old_rest[best as int]);
            assert(rest@ == old_rest.remove(best as int));
            vstd::seq_lib::to_multiset_remove(old_rest, best as int);
            assert(out@ == old_out.push(item));
            vstd::seq_lib::to_multiset_build(old_out, item);
            vstd::seq_lib::to_multiset_contains(old_rest, item);
            assert(old_rest.contains(item));
            assert(old_rest.to_multiset().count(item) > 0);
            assert(out@.to_multiset().add(rest@.to_multiset()) =~= durations@.to_multiset());
            assert forall|k: int| 0 <= k < rest@.len() implies (#[trigger] rest@[k]).1
                <= item.1 by {
                if k < best {
                    assert(rest@[k] == old_rest[k]);
                } else {
                    assert(rest@[k] == old_rest[k + 1]);
                }
            }
        }
    }
    proof {
        let rest_view = rest@;
        assert(rest_view.to_multiset().add(out@.to_multiset()) =~= durations@.to_multiset());
    }
    out
}

} // verus!
