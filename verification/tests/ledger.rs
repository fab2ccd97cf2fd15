use git_ascend::git::CommitStats;
use git_ascend::scaling::XpType;
use git_ascend::state::{State, StateError};

fn commit(sha: &str, message: &str, added: u32, deleted: u32) -> CommitStats {
    CommitStats {
        sha: sha.to_owned(),
        message: message.to_owned(),
        author: "someone".to_owned(),
        timestamp: 1_700_000_000,
        lines_added: added,
        lines_deleted: deleted,
    }
}

#[test]
fn new_ledger_is_zeroed_with_knowledge_active() {
    let s = State::new();
    assert_eq!(s.experience.total, 0);
    assert_eq!(s.experience.precision, 0);
    assert_eq!(s.experience.output, 0);
    assert_eq!(s.experience.pedantry, 0);
    assert_eq!(s.experience.knowledge, 0);
    assert_eq!(s.read_current_stat(), XpType::Knowledge);
    assert!(s.repos.is_empty());
}

#[test]
fn inc_xp_mirrors_into_total_and_active_stat() {
    let mut s = State::new();
    let exp = s.inc_xp(10);
    assert_eq!(exp.total, 10);
    assert_eq!(exp.knowledge, 10);
    assert_eq!(exp.precision, 0);
    s.set_current_stat(XpType::Output).unwrap();
    let exp = s.inc_xp(5);
    assert_eq!(exp.total, 15);
    assert_eq!(exp.output, 5);
    assert_eq!(exp.knowledge, 10);
}

#[test]
fn inc_xp_under_the_virtual_total_feeds_no_named_pool() {
    // A ledger decoded from an older record may carry `Total` as the
    // active stat; gains then go to the total pool alone.
    let mut s = State::new();
    s.current_stat = XpType::Total;
    let exp = s.inc_xp(9);
    assert_eq!(exp.total, 9);
    assert_eq!(exp.precision, 0);
    assert_eq!(exp.output, 0);
    assert_eq!(exp.pedantry, 0);
    assert_eq!(exp.knowledge, 0);
}

#[test]
fn total_cannot_be_selected_as_active_stat() {
    let mut s = State::new();
    assert_eq!(
        s.set_current_stat(XpType::Total),
        Err(StateError::InvalidStat)
    );
    assert_eq!(s.read_current_stat(), XpType::Knowledge);
    assert_eq!(s.set_current_stat(XpType::Pedantry), Ok(()));
    assert_eq!(s.read_current_stat(), XpType::Pedantry);
}

#[test]
fn reset_zeroes_experience_but_keeps_checkpoints_and_selection() {
    let mut s = State::new();
    s.add_repo("root1".to_owned(), "c0".to_owned());
    s.set_current_stat(XpType::Precision).unwrap();
    s.inc_xp(100);
    s.reset_xp();
    assert_eq!(s.experience.total, 0);
    assert_eq!(s.experience.precision, 0);
    assert_eq!(s.read_current_stat(), XpType::Precision);
    let r = s.repo_state("root1").unwrap();
    assert_eq!(r.last_recorded_commit, "c0");
}

#[test]
fn repo_state_of_an_unknown_repository_is_refused() {
    let s = State::new();
    assert!(matches!(
        s.repo_state("nowhere"),
        Err(StateError::RepoNotRegistered)
    ));
}

#[test]
fn add_repo_registers_and_reregistering_overwrites() {
    let mut s = State::new();
    s.add_repo("root1".to_owned(), "c0".to_owned());
    s.add_repo("root2".to_owned(), "d0".to_owned());
    assert_eq!(s.repo_state("root1").unwrap().last_recorded_commit, "c0");
    assert_eq!(s.repo_state("root2").unwrap().last_recorded_commit, "d0");
    s.add_repo("root1".to_owned(), "c9".to_owned());
    assert_eq!(s.repo_state("root1").unwrap().last_recorded_commit, "c9");
    assert_eq!(s.repos.len(), 2);
}

#[test]
fn checkpoint_advance_needs_registration() {
    let mut s = State::new();
    assert_eq!(
        s.inc_last_commit("root1", "c1"),
        Err(StateError::RepoNotRegistered)
    );
    s.add_repo("root1".to_owned(), "c0".to_owned());
    assert_eq!(s.inc_last_commit("root1", "c1"), Ok(()));
    assert_eq!(s.repo_state("root1").unwrap().last_recorded_commit, "c1");
}

#[test]
fn scan_example_scenario_credits_the_active_stat() {
    let mut s = State::new();
    s.add_repo("root1".to_owned(), "c0".to_owned());
    let stats = vec![commit("c1", &"a".repeat(120), 40, 10)];
    let exp = s.apply_scan("root1", &stats).unwrap();
    assert_eq!(exp.total, 62);
    assert_eq!(exp.knowledge, 62);
    assert_eq!(s.repo_state("root1").unwrap().last_recorded_commit, "c1");
}

#[test]
fn scan_checkpoint_advances_to_the_newest_commit() {
    // The scanner reports newest first; the checkpoint takes the
    // first entry, so a later scan starts past everything seen here.
    let mut s = State::new();
    s.add_repo("root1".to_owned(), "c0".to_owned());
    let stats = vec![
        commit("c3", "newest", 1, 0),
        commit("c2", "older", 1, 0),
        commit("c1", "oldest", 1, 0),
    ];
    s.apply_scan("root1", &stats).unwrap();
    assert_eq!(s.repo_state("root1").unwrap().last_recorded_commit, "c3");
}

#[test]
fn scan_with_no_new_commits_changes_nothing() {
    // The idempotence law, on concrete values: with no new commits,
    // running the cycle any number of times leaves the pools and the
    // checkpoint exactly as they were.
    let mut s = State::new();
    s.add_repo("root1".to_owned(), "c5".to_owned());
    s.inc_xp(62);
    let empty: Vec<CommitStats> = Vec::new();
    let exp1 = s.apply_scan("root1", &empty).unwrap();
    let exp2 = s.apply_scan("root1", &empty).unwrap();
    assert_eq!(exp1, exp2);
    assert_eq!(s.experience.total, 62);
    assert_eq!(s.experience.knowledge, 62);
    assert_eq!(s.repo_state("root1").unwrap().last_recorded_commit, "c5");
    assert_eq!(s.read_current_stat(), XpType::Knowledge);
}

#[test]
fn scan_of_an_unregistered_repository_mutates_nothing() {
    let mut s = State::new();
    s.inc_xp(7);
    let stats = vec![commit("c1", "hello", 3, 1)];
    assert!(matches!(
        s.apply_scan("root9", &stats),
        Err(StateError::RepoNotRegistered)
    ));
    assert_eq!(s.experience.total, 7);
    assert!(s.repos.is_empty());
}
