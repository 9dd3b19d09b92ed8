use mgit::cache::StateCache;
use mgit::engine::{
    base_branch_changed, begin_sync, current_branch_stale, finish_current_recompute,
    finish_full_recompute, get_branch_info_with_stats, is_headless_marker, plan_sync,
    provisional_owner, refresh_repo_state, sort_by_recency, LiveProbe, SyncAction,
};
use mgit::identity::AliasTable;
use mgit::ownership::AuthorCount;
use mgit::state::{BranchInfo, RepoState, Timestamp};
use mgit::walker::{
    collect_branch_stats, excluded_tip, find_main_branch, is_base_branch_name, CommitRecord,
};

fn commit(sha: &str, name: &str, email: &str, seconds: i64) -> CommitRecord {
    CommitRecord {
        sha: sha.to_string(),
        author_name: Some(name.to_string()),
        author_email: Some(email.to_string()),
        seconds,
    }
}

fn now() -> Timestamp {
    Timestamp { secs: 2_000_000_000, nanos: 123 }
}

fn at(secs: i64) -> Timestamp {
    Timestamp { secs, nanos: 0 }
}

fn stats_of(b: &BranchInfo) -> Vec<(String, usize)> {
    b.commit_stats.iter().map(|c| (c.author.clone(), c.commits)).collect()
}

fn feat_commits() -> Vec<CommitRecord> {
    vec![
        commit("f3", "Alice", "alice@x.org", 1_700_000_300),
        commit("f2", "Bob", "bob@x.org", 1_700_000_200),
        commit("f1", "Alice", "alice@x.org", 1_700_000_100),
    ]
}

fn main_commits(tip: &str) -> Vec<CommitRecord> {
    vec![commit(tip, "Carol", "carol@x.org", 1_700_000_000)]
}

fn probe(current: &str, main: &str, current_sha: &str) -> LiveProbe {
    LiveProbe {
        current_branch: current.to_string(),
        master_sha: None,
        main_sha: Some(main.to_string()),
        current_sha: Some(current_sha.to_string()),
    }
}

fn known_authors() -> AliasTable {
    let mut aliases = AliasTable::new();
    assert!(aliases.add_unmapped_authors("Alice".to_string(), "alice@x.org".to_string()));
    assert!(aliases.add_unmapped_authors("Bob".to_string(), "bob@x.org".to_string()));
    assert!(aliases.add_unmapped_authors("Carol".to_string(), "carol@x.org".to_string()));
    aliases
}

fn first_sync(main_tip: &str) -> RepoState {
    let aliases = known_authors();
    let user = Some("Me".to_string());
    let main = get_branch_info_with_stats(
        "main",
        main_tip,
        &main_commits(main_tip),
        &user,
        now(),
        &aliases,
    );
    let feat = get_branch_info_with_stats("feat", "f3", &feat_commits(), &user, now(), &aliases);
    refresh_repo_state("repo", "feat".to_string(), &vec![main, feat], now())
}

#[test]
fn feature_branch_scenario() {
    let state = first_sync("A");
    assert_eq!(state.name, "repo");
    assert_eq!(state.current_branch, "feat");
    assert_eq!(state.branches.len(), 2);
    // most recent first
    let feat = &state.branches[0];
    assert_eq!(feat.name, "feat");
    assert_eq!(stats_of(feat), vec![("Alice".to_string(), 2), ("Bob".to_string(), 1)]);
    assert_eq!(feat.owner, "Alice et al");
    assert_eq!(feat.get_owner_commit_count(), 2);
    assert_eq!(feat.last_commit_sha, Some("f3".to_string()));
    assert_eq!(feat.last_updated, at(1_700_000_300));
    assert_eq!(state.last_updated, at(1_700_000_300));
    assert_eq!(state.branches[1].name, "main");
    assert_eq!(state.branches[1].last_commit_sha, Some("A".to_string()));
}

#[test]
fn base_branch_advance_recomputes_everything() {
    let mut state = first_sync("A");
    let live = probe("feat", "B", "f3");
    assert!(base_branch_changed(&state.branches, &live));
    let action = begin_sync(&mut state, &live);
    assert_eq!(action, SyncAction::RecomputeAll);
    assert!(action.writes_cache());

    let aliases = known_authors();
    let user = Some("Me".to_string());
    let mut recomputed = Vec::new();
    for cached in &state.branches {
        let (tip, commits) = if cached.name == "main" {
            ("B", vec![commit("B", "Carol", "carol@x.org", 1_700_000_250), main_commits("A")[0].clone()])
        } else {
            ("f3", feat_commits())
        };
        recomputed.push(get_branch_info_with_stats(&cached.name, tip, &commits, &user, now(), &aliases));
    }
    let before_feat = stats_of(&state.branches[0]);
    finish_full_recompute(&mut state, recomputed);

    assert_eq!(state.branches.len(), 2);
    assert_eq!(state.branches[0].name, "feat");
    assert_eq!(stats_of(&state.branches[0]), before_feat);
    assert_eq!(state.branches[0].owner, "Alice et al");
    assert_eq!(state.branches[0].last_commit_sha, Some("f3".to_string()));
    assert_eq!(state.branches[1].last_commit_sha, Some("B".to_string()));
    assert_eq!(state.last_updated, at(1_700_000_300));

    // the next pass over the same repository is idle
    let again = begin_sync(&mut state, &live);
    assert_eq!(again, SyncAction::ReuseCached);
    assert!(!again.writes_cache());
}

#[test]
fn second_pass_without_change_is_idle() {
    let mut state = first_sync("A");
    let live = probe("feat", "A", "f3");
    assert_eq!(plan_sync(&state, &live), SyncAction::ReuseCached);
    let action = begin_sync(&mut state, &live);
    assert_eq!(action, SyncAction::ReuseCached);
    let snapshot = format!("{:?}", state);
    let action = begin_sync(&mut state, &live);
    assert_eq!(action, SyncAction::ReuseCached);
    assert_eq!(format!("{:?}", state), snapshot);
}

#[test]
fn current_branch_advance_touches_nothing_else() {
    let mut state = first_sync("A");
    let other = BranchInfo {
        name: "other".to_string(),
        owner: "Dan".to_string(),
        last_updated: at(5),
        commit_stats: vec![AuthorCount { author: "Dan".to_string(), commits: 4 }],
        last_commit_sha: Some("o1".to_string()),
    };
    state.branches.push(other);
    let live = probe("feat", "A", "f4");
    assert!(!base_branch_changed(&state.branches, &live));
    assert!(current_branch_stale(&state.branches, &live));
    assert_eq!(begin_sync(&mut state, &live), SyncAction::RecomputeCurrent);

    let mut commits = feat_commits();
    commits.insert(0, commit("f4", "Bob", "bob@x.org", 1_700_000_400));
    let fresh = get_branch_info_with_stats("feat", "f4", &commits, &None, now(), &known_authors());
    let main_before = format!("{:?}", state.branches[1]);
    let other_before = format!("{:?}", state.branches[2]);
    finish_current_recompute(&mut state, fresh);

    assert_eq!(state.branches.len(), 3);
    assert_eq!(format!("{:?}", state.branches[0]), main_before);
    assert_eq!(format!("{:?}", state.branches[1]), other_before);
    assert_eq!(state.branches[2].name, "feat");
    assert_eq!(
        stats_of(&state.branches[2]),
        vec![("Bob".to_string(), 2), ("Alice".to_string(), 2)]
    );
    assert_eq!(state.branches[2].owner, "Bob et al");
    assert_eq!(state.branches[2].last_commit_sha, Some("f4".to_string()));
    assert_eq!(state.last_updated, at(1_700_000_400));
    assert_eq!(begin_sync(&mut state, &live), SyncAction::ReuseCached);
}

#[test]
fn uncached_current_branch_is_computed() {
    let mut state = first_sync("A");
    let live = probe("topic", "A", "t1");
    assert_eq!(begin_sync(&mut state, &live), SyncAction::RecomputeCurrent);
    assert_eq!(state.current_branch, "topic");
    let fresh =
        get_branch_info_with_stats("topic", "t1", &vec![], &None, now(), &AliasTable::new());
    assert_eq!(fresh.owner, "Unknown");
    assert_eq!(fresh.last_commit_sha, Some("t1".to_string()));
    assert_eq!(fresh.last_updated, now());
    finish_current_recompute(&mut state, fresh);
    assert_eq!(state.branches.len(), 3);
    assert_eq!(state.branches[2].name, "topic");
    assert_eq!(state.last_updated, now());
}

#[test]
fn headless_checkout_skips_everything() {
    let mut state = first_sync("A");
    for marker in ["(detached)", "(no branch)"] {
        let live = probe(marker, "B", "zz");
        assert!(is_headless_marker(marker));
        assert_eq!(begin_sync(&mut state, &live), SyncAction::SkipStats);
        assert_eq!(state.current_branch, marker);
        assert_eq!(state.branches.len(), 2);
        assert_eq!(state.last_updated, at(1_700_000_300));
    }
    assert!(!is_headless_marker("(unknown)"));
    assert!(!is_headless_marker("detached"));
}

#[test]
fn master_takes_precedence_as_base() {
    let state = first_sync("A");
    // "master" exists and is not cached: the base changed
    let live = LiveProbe {
        current_branch: "feat".to_string(),
        master_sha: Some("M".to_string()),
        main_sha: Some("A".to_string()),
        current_sha: Some("f3".to_string()),
    };
    assert_eq!(plan_sync(&state, &live), SyncAction::RecomputeAll);
    // no base branch at all: only the current branch counts
    let live = LiveProbe {
        current_branch: "feat".to_string(),
        master_sha: None,
        main_sha: None,
        current_sha: Some("f3".to_string()),
    };
    assert_eq!(plan_sync(&state, &live), SyncAction::ReuseCached);
    let live = LiveProbe {
        current_branch: "feat".to_string(),
        master_sha: None,
        main_sha: None,
        current_sha: None,
    };
    assert_eq!(plan_sync(&state, &live), SyncAction::RecomputeCurrent);
}

#[test]
fn cached_branch_without_fingerprint_is_stale() {
    let mut state = first_sync("A");
    state.branches[1].last_commit_sha = None;
    assert_eq!(plan_sync(&state, &probe("feat", "A", "f3")), SyncAction::RecomputeAll);
    let mut state = first_sync("A");
    state.branches[0].last_commit_sha = None;
    assert_eq!(plan_sync(&state, &probe("feat", "A", "f3")), SyncAction::RecomputeCurrent);
}

#[test]
fn reuse_takes_the_time_of_the_current_branch() {
    let mut state = first_sync("A");
    let live = probe("main", "A", "A");
    assert_eq!(begin_sync(&mut state, &live), SyncAction::ReuseCached);
    assert_eq!(state.last_updated, at(1_700_000_000));
    assert_eq!(state.current_branch, "main");
}

#[test]
fn full_recompute_keeps_a_later_state_time() {
    let mut state = first_sync("A");
    state.last_updated = at(1_900_000_000);
    let recomputed = vec![state.branches[1].duplicate()];
    finish_full_recompute(&mut state, recomputed);
    assert_eq!(state.branches.len(), 1);
    assert_eq!(state.last_updated, at(1_900_000_000));
}

#[test]
fn cache_miss_then_hit() {
    let mut cache = StateCache::new();
    assert!(cache.get_repo_state("repo").is_none());
    let state = first_sync("A");
    cache.save_repo_state(&state);
    let got = cache.get_repo_state("repo").unwrap();
    assert_eq!(format!("{:?}", got), format!("{:?}", state));
    assert!(cache.get_repo_state("Repo").is_none());

    let mut changed = state.duplicate();
    changed.current_branch = "main".to_string();
    cache.save_repo_state(&changed);
    assert_eq!(cache.get_repo_state("repo").unwrap().current_branch, "main");
    assert_eq!(cache.list_all_states().len(), 1);

    let mut second = state.duplicate();
    second.name = "second".to_string();
    cache.save_repo_state(&second);
    let all = cache.list_all_states();
    assert_eq!(all.len(), 2);
    assert_eq!(all[0].name, "repo");
    assert_eq!(all[1].name, "second");
    assert_eq!(cache.get_repo_state("repo").unwrap().current_branch, "main");
}

#[test]
fn walk_normalizes_by_name_then_email() {
    let mut aliases = AliasTable::new();
    aliases.insert("Alice".to_string(), vec!["al".to_string(), "alice@x.org".to_string()]);
    let commits = vec![
        commit("c4", "AL", "nobody@x.org", 40),
        commit("c3", "Stranger", "ALICE@X.ORG", 30),
        commit("c2", "Stranger", "", 20),
        CommitRecord { sha: "c1".to_string(), author_name: None, author_email: None, seconds: 10 },
    ];
    let (stats, sha, time) = collect_branch_stats(&commits, "tip", now(), &aliases);
    let got: Vec<(String, usize)> = stats.iter().map(|c| (c.author.clone(), c.commits)).collect();
    assert_eq!(
        got,
        vec![("Alice".to_string(), 2), ("Stranger".to_string(), 1), ("Unknown".to_string(), 1)]
    );
    assert_eq!(sha, "c4");
    assert_eq!(time, at(40));
}

#[test]
fn walk_without_commits_gives_tip_and_now() {
    let (stats, sha, time) = collect_branch_stats(&vec![], "tip", now(), &AliasTable::new());
    assert!(stats.is_empty());
    assert_eq!(sha, "tip");
    assert_eq!(time, now());
}

#[test]
fn commit_time_out_of_range_falls_back_to_now() {
    let commits = vec![commit("c", "A", "a@x", i64::MAX)];
    let (_, _, time) = collect_branch_stats(&commits, "tip", now(), &AliasTable::new());
    assert_eq!(time, now());
    let commits = vec![commit("c", "A", "a@x", -86_400)];
    let (_, _, time) = collect_branch_stats(&commits, "tip", now(), &AliasTable::new());
    assert_eq!(time, at(-86_400));
}

#[test]
fn base_branch_names() {
    assert!(is_base_branch_name("master"));
    assert!(is_base_branch_name("main"));
    assert!(!is_base_branch_name("Main"));
    assert!(!is_base_branch_name("mainline"));
    assert!(!is_base_branch_name(""));
    assert_eq!(
        find_main_branch(Some("m".to_string()), Some("n".to_string())),
        Some("m".to_string())
    );
    assert_eq!(find_main_branch(None, Some("n".to_string())), Some("n".to_string()));
    assert_eq!(find_main_branch(None, None), None);
    assert_eq!(excluded_tip("main", Some("m".to_string()), None), None);
    assert_eq!(excluded_tip("feat", Some("m".to_string()), None), Some("m".to_string()));
    assert_eq!(excluded_tip("feat", None, None), None);
}

#[test]
fn provisional_owner_is_the_normalized_user() {
    let mut aliases = AliasTable::new();
    aliases.insert("Alice".to_string(), vec!["al".to_string()]);
    assert_eq!(provisional_owner(&Some("AL".to_string()), &aliases), "Alice");
    assert_eq!(provisional_owner(&Some("bob".to_string()), &aliases), "bob");
    assert_eq!(provisional_owner(&None, &aliases), "Unknown");
}

#[test]
fn branches_are_ordered_most_recent_first_and_stable() {
    let mk = |name: &str, t: Timestamp| BranchInfo {
        name: name.to_string(),
        owner: String::new(),
        last_updated: t,
        commit_stats: Vec::new(),
        last_commit_sha: None,
    };
    let branches = vec![
        mk("a", at(10)),
        mk("b", at(30)),
        mk("c", at(10)),
        mk("d", Timestamp { secs: 30, nanos: 1 }),
        mk("e", at(20)),
        mk("f", at(30)),
    ];
    let names: Vec<String> = sort_by_recency(&branches).iter().map(|b| b.name.clone()).collect();
    assert_eq!(names, vec!["d", "b", "f", "e", "a", "c"]);
    let state = refresh_repo_state("r", "a".to_string(), &branches, now());
    assert_eq!(state.last_updated, Timestamp { secs: 30, nanos: 1 });
    let empty = refresh_repo_state("r", "a".to_string(), &vec![], now());
    assert_eq!(empty.last_updated, now());
    assert!(empty.branches.is_empty());
}

#[test]
fn unmapped_author_with_email_is_credited_under_the_address() {
    let commits = vec![commit("c2", "Eve", "eve@x.org", 20), commit("c1", "Eve", "", 10)];
    let (stats, _, _) = collect_branch_stats(&commits, "tip", now(), &AliasTable::new());
    let got: Vec<(String, usize)> = stats.iter().map(|c| (c.author.clone(), c.commits)).collect();
    assert_eq!(got, vec![("eve@x.org".to_string(), 1), ("Eve".to_string(), 1)]);
}

#[test]
fn pass_over_an_unseen_repository_caches_the_survey() {
    let mut cache = StateCache::new();
    let surveyed = first_sync("A");
    let live = probe("feat", "A", "f3");
    let (state, action) = mgit::pass::open_pass(&mut cache, surveyed.duplicate(), &live);
    assert_eq!(action, SyncAction::ReuseCached);
    assert_eq!(
        format!("{:?}", cache.get_repo_state("repo").unwrap()),
        format!("{:?}", surveyed)
    );
    let mut state = state;
    let before = format!("{:?}", state);
    mgit::pass::close_pass(&mut cache, &mut state, mgit::pass::Recomputed::Nothing);
    assert_eq!(format!("{:?}", state), before);
    assert_eq!(
        format!("{:?}", cache.get_repo_state("repo").unwrap()),
        format!("{:?}", surveyed)
    );
}

#[test]
fn pass_saves_what_it_computed() {
    let mut cache = StateCache::new();
    cache.save_repo_state(&first_sync("A"));
    let live = probe("feat", "A", "f4");
    // the survey is not looked at: the cache holds the repository
    let mut other = first_sync("A");
    other.branches.clear();
    let (mut state, action) = mgit::pass::open_pass(&mut cache, other, &live);
    assert_eq!(action, SyncAction::RecomputeCurrent);
    assert_eq!(state.branches.len(), 2);
    let mut commits = feat_commits();
    commits.insert(0, commit("f4", "Alice", "alice@x.org", 1_700_000_400));
    let fresh = get_branch_info_with_stats("feat", "f4", &commits, &None, now(), &known_authors());
    mgit::pass::close_pass(&mut cache, &mut state, mgit::pass::Recomputed::CurrentBranch(fresh));
    let saved = cache.get_repo_state("repo").unwrap();
    assert_eq!(format!("{:?}", saved), format!("{:?}", state));
    assert_eq!(saved.branches[1].last_commit_sha, Some("f4".to_string()));
    assert_eq!(saved.branches[1].owner, "Alice et al");
    // the next pass is idle and leaves the cache alone
    let (_, again) = mgit::pass::open_pass(&mut cache, first_sync("A"), &live);
    assert_eq!(again, SyncAction::ReuseCached);
    assert_eq!(format!("{:?}", cache.get_repo_state("repo").unwrap()), format!("{:?}", saved));
}
