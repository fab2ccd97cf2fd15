use vstd::prelude::*;

verus! {

#[verifier::external_type_specification]
#[verifier::external_body]
pub struct ExRepository(git2::Repository);

#[verifier::external_type_specification]
#[verifier::external_body]
pub struct ExGitError(git2::Error);

/// Why the repository could not be scanned.
#[derive(Debug, Clone, PartialEq)]
pub enum GitError {
    /// The path does not hold an openable repository.
    OpenFailed(String),
    /// The repository has no reachable head commit.
    NoHistory,
    /// The checkpoint commit does not resolve within the repository's
    /// history.
    CheckpointNotFound,
    /// The walk toward the root commit exceeded its fixed bound.
    HistoryTooDeep,
    /// The repository backend reported some other fault.
    Backend(String),
}

/// The most steps the root-commit walk may take before giving up on a
/// pathological or corrupt history.
pub const MAX_ROOT_WALK_STEPS: u64 = 100000;

/// Authorship metadata and line-change statistics for one scanned
/// commit. Produced once per commit within a single invocation and
/// never persisted.
#[derive(Debug, Clone, PartialEq)]
pub struct CommitStats {
    pub sha: String,
    pub message: String,
    pub author: String,
    pub timestamp: i64,
    pub lines_added: u32,
    pub lines_deleted: u32,
}

/// Relies on git2::Error::message: the backend's description of a fault.
#[verifier::external_body]
fn git_error_message(e: &git2::Error) -> String {
    e.message().to_owned()
}

/// Relies on git2::Repository::open: opens the repository at the path.
#[verifier::external_body]
fn repo_open(path: &str) -> Result<git2::Repository, git2::Error> {
    git2::Repository::open(path)
}

/// Relies on git2::Repository::head and git2::Reference::target: the
/// commit hash the head reference points at, or `None` where the head
/// has no target (an unborn branch).
#[verifier::external_body]
fn repo_head_sha(repo: &git2::Repository) -> Result<Option<String>, git2::Error> {
    let head = repo.head()?;
    match head.target() {
        Some(oid) => Ok(Some(repo.find_commit(oid)?.id().to_string())),
        None => Ok(None),
    }
}

/// Relies on git2::Commit::parent_count: how many parents the commit
/// with the given hash has.
#[verifier::external_body]
fn commit_parent_count(repo: &git2::Repository, sha: &str) -> Result<usize, git2::Error> {
    let oid = git2::Oid::from_str(sha)?;
    Ok(repo.find_commit(oid)?.parent_count())
}

/// Relies on git2::Commit::parent_id: the hash of the commit's first
/// parent, the main line of development.
#[verifier::external_body]
fn commit_first_parent(repo: &git2::Repository, sha: &str) -> Result<String, git2::Error> {
    let oid = git2::Oid::from_str(sha)?;
    Ok(repo.find_commit(oid)?.parent_id(0)?.to_string())
}

/// Relies on git2::Revwalk::push_range: the hashes of every commit
/// reachable from the head but not from the given commit, newest
/// first.
#[verifier::external_body]
fn commits_in_range(repo: &git2::Repository, from: &str) -> Result<Vec<String>, git2::Error> {
    let mut revwalk = repo.revwalk()?;
    revwalk.push_range(&format!("{}..HEAD", from))?;
    let mut out = Vec::new();
    for oid in revwalk {
        out.push(oid?.to_string());
    }
    Ok(out)
}

/// Relies on git2::Commit::message, author and time: the commit's
/// message and author name where the backend has them, and its
/// timestamp in seconds.
#[verifier::external_body]
fn commit_meta(repo: &git2::Repository, sha: &str) -> Result<
    (Option<String>, Option<String>, i64),
    git2::Error,
> {
    let oid = git2::Oid::from_str(sha)?;
    let commit = repo.find_commit(oid)?;
    let message = commit.message().ok().map(|s| s.to_owned());
    let author = commit.author().name().ok().map(|s| s.to_owned());
    let timestamp = commit.time().seconds();
    Ok((message, author, timestamp))
}

/// The scanner's defaults for metadata the backend does not have (or
/// holds in a form that is not UTF-8): an absent message reads as
/// empty, an absent author name as "Unknown".
pub fn default_commit_meta(message: Option<String>, author: Option<String>) -> (r: (
    String,
    String,
))
    ensures
        message is Some ==> r.0@ == message->0@,
        message is None ==> r.0@ == Seq::<char>::empty(),
        author is Some ==> r.1@ == author->0@,
        author is None ==> r.1@ == "Unknown"@,
{
    let m: String = match message {
        Some(m) => m,
        None => String::new(),
    };
    let a: String = match author {
        Some(a) => a,
        None => "Unknown".to_owned(),
    };
    (m, a)
}

/// Relies on git2::Repository::diff_tree_to_tree and
/// git2::DiffStats: insertions and deletions of the commit's tree
/// against its first parent's tree.
#[verifier::external_body]
fn diff_parent_stats(repo: &git2::Repository, sha: &str) -> Result<(usize, usize), git2::Error> {
    let oid = git2::Oid::from_str(sha)?;
    let commit = repo.find_commit(oid)?;
    let parent = commit.parent(0)?;
    let diff = repo.diff_tree_to_tree(Some(&parent.tree()?), Some(&commit.tree()?), None)?;
    let stats = diff.stats()?;
    Ok((stats.insertions(), stats.deletions()))
}

/// Relies on git2::Repository::diff_tree_to_tree and
/// git2::DiffStats: insertions and deletions of the commit's tree
/// against the empty tree.
#[verifier::external_body]
fn diff_root_stats(repo: &git2::Repository, sha: &str) -> Result<(usize, usize), git2::Error> {
    let oid = git2::Oid::from_str(sha)?;
    let commit = repo.find_commit(oid)?;
    let diff = repo.diff_tree_to_tree(None, Some(&commit.tree()?), None)?;
    let stats = diff.stats()?;
    Ok((stats.insertions(), stats.deletions()))
}

fn backend_error(e: git2::Error) -> (r: GitError)
    ensures
        r is Backend,
{
    GitError::Backend(git_error_message(&e))
}

fn saturate_u32(v: usize) -> (r: u32)
    ensures
        r as int == clamp32(v as int),
{
    if v > u32::MAX as usize {
        u32::MAX
    } else {
        v as u32
    }
}

/// A commit's reported line statistics. A merge — a commit with two or
/// more parents — reports zero lines added and zero deleted, whatever
/// its trees hold, so changes already credited to its parents are not
/// double-counted. An ordinary commit reports its raw diff counts,
/// each saturating at the 32-bit cap.
pub fn merge_neutral_line_stats(parent_count: usize, raw_added: usize, raw_deleted: usize) -> (r: (
    u32,
    u32,
))
    ensures
        parent_count >= 2 ==> r == (0u32, 0u32),
        parent_count < 2 ==> r.0 as int == clamp32(raw_added as int) && r.1 as int == clamp32(
            raw_deleted as int,
        ),
{
    if parent_count >= 2 {
        (0, 0)
    } else {
        (saturate_u32(raw_added), saturate_u32(raw_deleted))
    }
}

/// A handle on one repository, wrapping the backend's handle.
pub struct GitRepo {
    repo: git2::Repository,
}

impl GitRepo {
    /// Open the repository at the given path, or report `OpenFailed`.
    pub fn new(repo_path: &str) -> (r: Result<GitRepo, GitError>)
        ensures
            r is Err ==> r->Err_0 is OpenFailed,
    {
        match repo_open(repo_path) {
            Ok(repo) => Ok(GitRepo { repo }),
            Err(e) => Err(GitError::OpenFailed(git_error_message(&e))),
        }
    }

    /// The repository's stable identity: the hash of its root commit.
    pub fn id(&self) -> (r: Result<String, GitError>)
        ensures
            r is Err ==> (r->Err_0 is NoHistory || r->Err_0 is HistoryTooDeep || r->Err_0
                is Backend),
    {
        self.first_commit_hash()
    }

    /// The hash of the commit the head points at, or `NoHistory` where
    /// no head commit is reachable.
    pub fn head_commit_hash(&self) -> (r: Result<String, GitError>)
        ensures
            r is Err ==> r->Err_0 is NoHistory,
    {
        match repo_head_sha(&self.repo) {
            Ok(Some(sha)) => Ok(sha),
            Ok(None) => Err(GitError::NoHistory),
            Err(_) => Err(GitError::NoHistory),
        }
    }

    /// The hash of the root commit: starting at the head, first-parent
    /// links are followed until a commit with no parent is found. The
    /// walk takes at most `MAX_ROOT_WALK_STEPS` steps; a history deeper
    /// than that (or cyclic, in a corrupt repository) is refused with
    /// `HistoryTooDeep` rather than walked without bound. A repository
    /// with no reachable head commit is refused with `NoHistory`.
    pub fn first_commit_hash(&self) -> (r: Result<String, GitError>)
        ensures
            r is Err ==> (r->Err_0 is NoHistory || r->Err_0 is HistoryTooDeep || r->Err_0
                is Backend),
    {
        let mut current: String = match self.head_commit_hash() {
            Ok(sha) => sha,
            Err(e) => {
                return Err(e);
            },
        };
        let mut steps: u64 = 0;
        while steps < MAX_ROOT_WALK_STEPS
            invariant
                steps <= MAX_ROOT_WALK_STEPS,
            decreases MAX_ROOT_WALK_STEPS - steps,
        {
            let parent_count = match commit_parent_count(&self.repo, current.as_str()) {
                Ok(n) => n,
                Err(e) => {
                    return Err(backend_error(e));
                },
            };
            if parent_count == 0 {
                return Ok(current);
            }
            current = match commit_first_parent(&self.repo, current.as_str()) {
                Ok(sha) => sha,
                Err(e) => {
                    return Err(backend_error(e));
                },
            };
            steps = steps + 1;
        }
        Err(GitError::HistoryTooDeep)
    }

    /// The statistics of every commit reachable from the head but not
    /// from the checkpoint commit, newest first. A repository with no
    /// reachable head commit is refused with `NoHistory`; a checkpoint
    /// that does not resolve within this repository's history with
    /// `CheckpointNotFound`. A root commit is diffed against the empty
    /// tree, an ordinary commit against its first parent's tree, and a
    /// merge is reported with zero lines either way.
    pub fn commits_since(&self, commit: &str) -> (r: Result<Vec<CommitStats>, GitError>)
        ensures
            r is Err ==> (r->Err_0 is NoHistory || r->Err_0 is CheckpointNotFound || r->Err_0
                is Backend),
    {
        match self.head_commit_hash() {
            Ok(_) => {},
            Err(e) => {
                return Err(e);
            },
        }
        let shas = match commits_in_range(&self.repo, commit) {
            Ok(v) => v,
            Err(_) => {
                return Err(GitError::CheckpointNotFound);
            },
        };
        let mut out: Vec<CommitStats> = Vec::new();
        let n = shas.len();
        let mut i: usize = 0;
        while i < n
            invariant
                n == shas@.len(),
                i <= n,
            decreases n - i,
        {
            let sha = &shas[i];
            let parent_count = match commit_parent_count(&self.repo, sha.as_str()) {
                Ok(c) => c,
                Err(e) => {
                    return Err(backend_error(e));
                },
            };
            let raw: (usize, usize) = if parent_count == 0 {
                match diff_root_stats(&self.repo, sha.as_str()) {
                    Ok(p) => p,
                    Err(e) => {
                        return Err(backend_error(e));
                    },
                }
            } else if parent_count == 1 {
                match diff_parent_stats(&self.repo, sha.as_str()) {
                    Ok(p) => p,
                    Err(e) => {
                        return Err(backend_error(e));
                    },
                }
            } else {
                (0, 0)
            };
            let (lines_added, lines_deleted) = merge_neutral_line_stats(
                parent_count,
                raw.0,
                raw.1,
            );
            let (raw_message, raw_author, timestamp) = match commit_meta(&self.repo, sha.as_str())
                {
                Ok(m) => m,
                Err(e) => {
                    return Err(backend_error(e));
                },
            };
            let (message, author) = default_commit_meta(raw_message, raw_author);
            out.push(
                CommitStats {
                    sha: sha.clone(),
                    message,
                    author,
                    timestamp,
                    lines_added,
                    lines_deleted,
                },
            );
            i = i + 1;
        }
        Ok(out)
    }
}

/// A value clamped to what a 32-bit counter can hold.
pub open spec fn clamp32(v: int) -> int {
    if v > u32::MAX {
        u32::MAX as int
    } else {
        v
    }
}

/// The byte length of a commit's message, as the platform reports it.
pub open spec fn spec_msg_len(c: CommitStats) -> int {
    (vstd::utf8::encode_utf8(c.message@).len() as usize) as int
}

/// Total lines added over a sequence of commit statistics.
pub open spec fn spec_sum_added(stats: Seq<CommitStats>) -> int
    decreases stats.len(),
{
    if stats.len() == 0 {
        0
    } else {
        spec_sum_added(stats.drop_last()) + stats.last().lines_added
    }
}

/// Total lines deleted over a sequence of commit statistics.
pub open spec fn spec_sum_deleted(stats: Seq<CommitStats>) -> int
    decreases stats.len(),
{
    if stats.len() == 0 {
        0
    } else {
        spec_sum_deleted(stats.drop_last()) + stats.last().lines_deleted
    }
}

/// Total message length over a sequence of commit statistics, each
/// message counted at most at the 32-bit cap.
pub open spec fn spec_sum_msg_len(stats: Seq<CommitStats>) -> int
    decreases stats.len(),
{
    if stats.len() == 0 {
        0
    } else {
        spec_sum_msg_len(stats.drop_last()) + clamp32(spec_msg_len(stats.last()))
    }
}

/// Sum the lines added, lines deleted and message lengths of a scan's
/// commit statistics, each total saturating at the 32-bit cap rather
/// than wrapping.
pub fn summarize_commits(stats: &Vec<CommitStats>) -> (r: (u32, u32, u32))
    ensures
        r.0 as int == clamp32(spec_sum_added(stats@)),
        r.1 as int == clamp32(spec_sum_deleted(stats@)),
        r.2 as int == clamp32(spec_sum_msg_len(stats@)),
{
    let n = stats.len();
    let mut added: u32 = 0;
    let mut deleted: u32 = 0;
    let mut msg_len: u32 = 0;
    let mut i: usize = 0;
    while i < n
        invariant
            n == stats@.len(),
            i <= n,
            added as int == clamp32(spec_sum_added(stats@.take(i as int))),
            deleted as int == clamp32(spec_sum_deleted(stats@.take(i as int))),
            msg_len as int == clamp32(spec_sum_msg_len(stats@.take(i as int))),
        decreases n - i,
    {
        proof {
            assert(stats@.take(i as int + 1).drop_last() =~= stats@.take(i as int));
            assert(stats@.take(i as int + 1).last() == stats@[i as int]);
        }
        added = added.saturating_add(stats[i].lines_added);
        deleted = deleted.saturating_add(stats[i].lines_deleted);
        let len: usize = stats[i].message.as_str().len();
        let len32: u32 = if len > u32::MAX as usize {
            u32::MAX
        } else {
            len as u32
        };
        msg_len = msg_len.saturating_add(len32);
        i = i + 1;
    }
    proof {
        assert(stats@.take(n as int) =~= stats@);
    }
    (added, deleted, msg_len)
}

} // verus!
