use git2::{Repository, Signature};
use git_ascend::git::{CommitStats, GitError, GitRepo};

fn unique_dir(name: &str) -> String {
    let nanos = std::time::SystemTime::now()
        .duration_since(std::time::UNIX_EPOCH)
        .unwrap()
        .as_nanos();
    format!("/tmp/git_ascend_it_{name}_{nanos}")
}

/// A commit whose tree holds `file.txt` with the given content,
/// written purely through the repository's object database.
fn make_commit(
    repo: &Repository,
    content: &str,
    message: &str,
    parents: &[git2::Oid],
    update_head: bool,
) -> git2::Oid {
    let blob = repo.blob(content.as_bytes()).unwrap();
    let mut builder = repo.treebuilder(None).unwrap();
    builder.insert("file.txt", blob, 0o100644).unwrap();
    let tree_id = builder.write().unwrap();
    let tree = repo.find_tree(tree_id).unwrap();
    let sig = Signature::now("Tester", "tester@example.com").unwrap();
    let parent_commits: Vec<git2::Commit> =
        parents.iter().map(|p| repo.find_commit(*p).unwrap()).collect();
    let parent_refs: Vec<&git2::Commit> = parent_commits.iter().collect();
    let target = if update_head { Some("HEAD") } else { None };
    repo.commit(target, &sig, &sig, message, &tree, &parent_refs)
        .unwrap()
}

#[test]
fn opening_a_missing_path_is_refused() {
    let path = unique_dir("missing");
    assert!(matches!(
        GitRepo::new(&path),
        Err(GitError::OpenFailed(_))
    ));
}

#[test]
fn a_repository_without_commits_has_no_history() {
    let path = unique_dir("empty");
    Repository::init(&path).unwrap();
    let repo = GitRepo::new(&path).unwrap();
    assert_eq!(repo.head_commit_hash(), Err(GitError::NoHistory));
    assert_eq!(repo.first_commit_hash(), Err(GitError::NoHistory));
    // A missing head is a missing history, not a bad checkpoint.
    assert_eq!(
        repo.commits_since("0123456789abcdef0123456789abcdef01234567"),
        Err(GitError::NoHistory)
    );
}

#[test]
fn an_unresolvable_checkpoint_is_refused() {
    let path = unique_dir("badcheckpoint");
    let raw = Repository::init(&path).unwrap();
    make_commit(&raw, "a\n", "root", &[], true);
    let repo = GitRepo::new(&path).unwrap();
    assert_eq!(
        repo.commits_since("0123456789abcdef0123456789abcdef01234567"),
        Err(GitError::CheckpointNotFound)
    );
}

#[test]
fn scanning_from_the_head_reports_nothing() {
    // Once the checkpoint stands at the head, a further scan finds no
    // commits: nothing at or before the checkpoint is ever re-reported.
    let path = unique_dir("idempotent");
    let raw = Repository::init(&path).unwrap();
    let root = make_commit(&raw, "a\nb\n", "root", &[], true);
    make_commit(&raw, "a\nb\nc\n", "more", &[root], true);
    let repo = GitRepo::new(&path).unwrap();
    let head = repo.head_commit_hash().unwrap();
    assert_eq!(repo.commits_since(&head), Ok(Vec::new()));
}

#[test]
fn scanner_reports_line_stats_and_identity() {
    let path = unique_dir("scan");
    let raw = Repository::init(&path).unwrap();
    let root = make_commit(&raw, "a\nb\n", "the root commit", &[], true);
    let second = make_commit(&raw, "a\nb\nc\nd\n", "two more lines", &[root], true);
    let repo = GitRepo::new(&path).unwrap();

    // The repository's identity is its root commit, found by the
    // first-parent walk from the head.
    assert_eq!(repo.id().unwrap(), root.to_string());
    assert_eq!(repo.head_commit_hash().unwrap(), second.to_string());

    // Scanning from the root reports only the second commit, with its
    // diff against its parent's tree.
    let stats = repo.commits_since(&root.to_string()).unwrap();
    assert_eq!(stats.len(), 1);
    let c: &CommitStats = &stats[0];
    assert_eq!(c.sha, second.to_string());
    assert_eq!(c.message, "two more lines");
    assert_eq!(c.author, "Tester");
    assert_eq!(c.lines_added, 2);
    assert_eq!(c.lines_deleted, 0);
}

#[test]
fn a_real_merge_commit_contributes_no_lines() {
    let path = unique_dir("merge");
    let raw = Repository::init(&path).unwrap();
    let root = make_commit(&raw, "a\nb\n", "root", &[], true);
    let ours = make_commit(&raw, "a\nb\nc\n", "ours", &[root], true);
    let theirs = make_commit(&raw, "a\nb\nz\nw\n", "theirs", &[root], false);
    let merge = make_commit(
        &raw,
        "a\nb\nc\nz\nw\n",
        "merge of both lines of work",
        &[ours, theirs],
        true,
    );
    let repo = GitRepo::new(&path).unwrap();
    let stats = repo.commits_since(&root.to_string()).unwrap();
    let merge_stat = stats
        .iter()
        .find(|c| c.sha == merge.to_string())
        .expect("the merge commit is within the scanned range");
    // Its tree differs from both parents, yet it is never credited.
    assert_eq!(merge_stat.lines_added, 0);
    assert_eq!(merge_stat.lines_deleted, 0);
    // The ordinary commit in the range keeps its own diff.
    let ours_stat = stats.iter().find(|c| c.sha == ours.to_string()).unwrap();
    assert_eq!(ours_stat.lines_added, 1);
    assert_eq!(ours_stat.lines_deleted, 0);
}
