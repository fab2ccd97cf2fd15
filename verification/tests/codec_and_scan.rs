use git_ascend::codec::{decode_state, encode_state};
use git_ascend::git::{default_commit_meta, merge_neutral_line_stats, summarize_commits, CommitStats};
use git_ascend::progress::{bar_fill_width, progress_frames};
use git_ascend::scaling::XpType;
use git_ascend::state::State;

fn commit(sha: &str, message: &str, added: u32, deleted: u32) -> CommitStats {
    CommitStats {
        sha: sha.to_owned(),
        message: message.to_owned(),
        author: "someone".to_owned(),
        timestamp: 1_700_000_000,
        lines_added: added,
        lines_deleted: deleted,
    }
}

fn assert_states_equal(a: &State, b: &State) {
    assert_eq!(a.experience, b.experience);
    assert_eq!(a.current_stat, b.current_stat);
    assert_eq!(a.repos.len(), b.repos.len());
    for (pa, pb) in a.repos.iter().zip(b.repos.iter()) {
        assert_eq!(pa.0, pb.0);
        assert_eq!(pa.1.last_recorded_commit, pb.1.last_recorded_commit);
    }
}

#[test]
fn round_trip_of_a_fresh_ledger() {
    let s = State::new();
    let bytes = encode_state(&s);
    let back = decode_state(&bytes).unwrap();
    assert_states_equal(&s, &back);
}

#[test]
fn round_trip_with_repositories_and_experience() {
    let mut s = State::new();
    s.add_repo("e83c5163316f89bfbde7d9ab23ca2e25604af290".to_owned(), "abc123".to_owned());
    s.add_repo("root2".to_owned(), "def456".to_owned());
    s.set_current_stat(XpType::Pedantry).unwrap();
    s.inc_xp(u128::MAX / 3);
    let bytes = encode_state(&s);
    let back = decode_state(&bytes).unwrap();
    assert_states_equal(&s, &back);
}

#[test]
fn round_trip_at_the_pool_width_limit() {
    let mut s = State::new();
    s.experience.total = u128::MAX;
    s.experience.precision = u128::MAX - 1;
    s.experience.output = 1;
    let bytes = encode_state(&s);
    let back = decode_state(&bytes).unwrap();
    assert_states_equal(&s, &back);
}

#[test]
fn round_trip_preserves_unicode_repository_names() {
    let mut s = State::new();
    s.add_repo("dépôt-λ-🦀".to_owned(), "ζcommit✓".to_owned());
    let bytes = encode_state(&s);
    let back = decode_state(&bytes).unwrap();
    assert_states_equal(&s, &back);
}

#[test]
fn decoding_rejects_malformed_records() {
    // Nothing at all.
    assert!(decode_state(&Vec::new()).is_none());
    // A record cut short.
    let s = State::new();
    let mut bytes = encode_state(&s);
    bytes.pop();
    assert!(decode_state(&bytes).is_none());
    // A record with trailing bytes.
    let mut bytes = encode_state(&s);
    bytes.push(0);
    assert!(decode_state(&bytes).is_none());
    // A record with an unknown stat tag.
    let mut bytes = encode_state(&s);
    bytes[80] = 9;
    assert!(decode_state(&bytes).is_none());
}

#[test]
fn decoding_is_the_inverse_of_encoding_not_the_identity() {
    // The bytes are a binary record, not the strings themselves: the
    // encoded form of a one-repository ledger carries length prefixes
    // and four bytes per character.
    let mut s = State::new();
    s.add_repo("ab".to_owned(), "c".to_owned());
    let bytes = encode_state(&s);
    // pools (80) + tag (1) + count (8) + two strings (8 + 8 and 12 + 4 chars bytes)
    assert_eq!(bytes.len(), 80 + 1 + 8 + (8 + 8) + (8 + 4));
}

#[test]
fn decoding_rejects_character_values_that_are_no_scalars() {
    // One repository whose id is the single character 'a': its four
    // character bytes sit right after the pools, the tag, the entry
    // count and the id's length prefix. A surrogate value there is
    // not a Unicode scalar, so the record must be refused.
    let mut s = State::new();
    s.add_repo("a".to_owned(), "b".to_owned());
    let mut bytes = encode_state(&s);
    let char_pos = 80 + 1 + 8 + 8;
    bytes[char_pos] = 0x00;
    bytes[char_pos + 1] = 0xD8;
    bytes[char_pos + 2] = 0x00;
    bytes[char_pos + 3] = 0x00;
    assert!(decode_state(&bytes).is_none());
}

#[test]
fn scans_credit_the_stat_that_is_active_at_the_time() {
    let mut s = State::new();
    s.add_repo("root1".to_owned(), "c0".to_owned());
    s.set_current_stat(XpType::Output).unwrap();
    let stats = vec![commit("c1", &"a".repeat(120), 40, 10)];
    let exp = s.apply_scan("root1", &stats).unwrap();
    assert_eq!(exp.total, 62);
    assert_eq!(exp.output, 62);
    assert_eq!(exp.knowledge, 0);
}

#[test]
fn merges_are_never_credited() {
    // Two or more parents: zero lines either way, whatever the diff
    // would have said.
    assert_eq!(merge_neutral_line_stats(2, 100, 250), (0, 0));
    assert_eq!(merge_neutral_line_stats(3, 1, 1), (0, 0));
    // Ordinary and root commits keep their diff counts.
    assert_eq!(merge_neutral_line_stats(1, 7, 9), (7, 9));
    assert_eq!(merge_neutral_line_stats(0, 5, 1), (5, 1));
}

#[test]
fn missing_commit_metadata_gets_the_documented_defaults() {
    let (m, a) = default_commit_meta(None, None);
    assert_eq!(m, "");
    assert_eq!(a, "Unknown");
    let (m, a) = default_commit_meta(Some("fix".to_owned()), Some("Tester".to_owned()));
    assert_eq!(m, "fix");
    assert_eq!(a, "Tester");
}

#[test]
fn scan_summary_sums_lines_and_message_lengths() {
    let stats = vec![
        commit("c2", "abcde", 10, 3),
        commit("c1", "xy", 7, 2),
    ];
    assert_eq!(summarize_commits(&stats), (17, 5, 7));
    let empty: Vec<CommitStats> = Vec::new();
    assert_eq!(summarize_commits(&empty), (0, 0, 0));
}

#[test]
fn scan_summary_saturates_rather_than_wrapping() {
    let stats = vec![
        commit("c2", "m", u32::MAX, 1),
        commit("c1", "m", 10, 2),
    ];
    let (added, deleted, _) = summarize_commits(&stats);
    assert_eq!(added, u32::MAX);
    assert_eq!(deleted, 3);
}

#[test]
fn short_climbs_show_every_value() {
    assert_eq!(progress_frames(3, 8), vec![3, 4, 5, 6, 7, 8]);
    assert_eq!(progress_frames(10, 10), vec![10]);
}

#[test]
fn long_climbs_sample_between_the_endpoints() {
    let frames = progress_frames(0, 1000);
    assert_eq!(frames.first(), Some(&0));
    assert_eq!(frames.last(), Some(&1000));
    assert_eq!(frames.len(), 51);
    assert_eq!(frames[1], 20);
    for w in frames.windows(2) {
        assert!(w[0] <= w[1]);
    }
}

#[test]
fn bar_fill_is_the_proportional_share() {
    assert_eq!(bar_fill_width(5, 10, 50), 25);
    assert_eq!(bar_fill_width(10, 10, 50), 50);
    assert_eq!(bar_fill_width(0, 10, 50), 0);
    assert_eq!(bar_fill_width(1, 3, 50), 16);
    assert_eq!(bar_fill_width(0, 0, 50), 0);
    // In tenths of a percent, for the textual display.
    assert_eq!(bar_fill_width(62, 72, 1000), 861);
}
