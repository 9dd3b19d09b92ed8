use mgit::ownership::{
    any_other_reaches, find_primary, owner_commit_count_of, owner_label_of, sum_commits,
    AuthorCount,
};
use mgit::state::{BranchInfo, Timestamp};

fn counts(pairs: &[(&str, usize)]) -> Vec<AuthorCount> {
    pairs.iter().map(|(a, c)| AuthorCount { author: a.to_string(), commits: *c }).collect()
}

fn branch(pairs: &[(&str, usize)]) -> BranchInfo {
    BranchInfo {
        name: "feat".to_string(),
        owner: String::new(),
        last_updated: Timestamp { secs: 0, nanos: 0 },
        commit_stats: counts(pairs),
        last_commit_sha: None,
    }
}

#[test]
fn empty_counts_give_unknown() {
    assert_eq!(branch(&[]).calculate_owner(), "unknown");
    assert_eq!(branch(&[]).get_owner_commit_count(), 0);
}

#[test]
fn zero_total_gives_unknown() {
    assert_eq!(branch(&[("Alice", 0), ("Bob", 0)]).calculate_owner(), "unknown");
    assert_eq!(branch(&[("Alice", 0)]).get_owner_commit_count(), 0);
}

#[test]
fn single_author_owns_alone() {
    assert_eq!(branch(&[("Alice", 7)]).calculate_owner(), "Alice");
    assert_eq!(branch(&[("Alice", 7)]).get_owner_commit_count(), 7);
}

#[test]
fn owner_count_is_the_maximum() {
    let b = branch(&[("a", 3), ("b", 9), ("c", 9), ("d", 1)]);
    assert_eq!(b.get_owner_commit_count(), 9);
    assert_eq!(find_primary(&b.commit_stats), 1);
}

#[test]
fn first_of_equal_counts_is_primary() {
    assert_eq!(branch(&[("x", 5), ("y", 5)]).calculate_owner(), "x et al");
    assert_eq!(branch(&[("y", 5), ("x", 5)]).calculate_owner(), "y et al");
}

#[test]
fn feature_branch_of_alice_and_bob() {
    let b = branch(&[("Alice", 2), ("Bob", 1)]);
    assert_eq!(b.calculate_owner(), "Alice et al");
    assert_eq!(b.get_owner_commit_count(), 2);
}

#[test]
fn threshold_is_a_twentieth_rounded_up() {
    // total 100: threshold 5
    assert_eq!(branch(&[("main", 95), ("other", 5)]).calculate_owner(), "main et al");
    assert_eq!(branch(&[("main", 96), ("other", 4)]).calculate_owner(), "main");
    // total 101: threshold 6
    assert_eq!(branch(&[("main", 96), ("other", 5)]).calculate_owner(), "main");
    assert_eq!(branch(&[("main", 95), ("other", 6)]).calculate_owner(), "main et al");
    // total 20: threshold 1
    assert_eq!(branch(&[("main", 19), ("other", 1)]).calculate_owner(), "main et al");
    // total 21: threshold 2
    assert_eq!(branch(&[("main", 20), ("other", 1)]).calculate_owner(), "main");
}

#[test]
fn zero_count_contributor_is_not_significant() {
    assert_eq!(branch(&[("main", 3), ("idle", 0)]).calculate_owner(), "main");
}

#[test]
fn primary_after_significant_other() {
    assert_eq!(branch(&[("small", 2), ("big", 10)]).calculate_owner(), "big et al");
    assert_eq!(branch(&[("tiny", 1), ("big", 100)]).calculate_owner(), "big");
}

#[test]
fn sums_do_not_overflow() {
    let stats = counts(&[("a", usize::MAX), ("b", usize::MAX), ("c", 2)]);
    assert_eq!(sum_commits(&stats), 2 * (usize::MAX as u128) + 2);
    assert_eq!(owner_label_of(&stats), "a et al");
    assert_eq!(owner_commit_count_of(&stats), usize::MAX);
}

#[test]
fn other_contributor_search_skips_the_primary() {
    let stats = counts(&[("a", 10), ("b", 2)]);
    assert!(any_other_reaches(&stats, 0, 2));
    assert!(!any_other_reaches(&stats, 0, 3));
    assert!(any_other_reaches(&stats, 1, 3));
}
