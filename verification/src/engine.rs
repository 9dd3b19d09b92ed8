//! The synchronisation engine: builds the state of a repository from what
//! was read of it, decides which cached branches are still valid, and folds
//! recomputed branches back into the cached state.

use crate::identity::{normalized, AliasTable};
use crate::ownership::{counts_of, owner_label, owner_label_of, AuthorCount};
use crate::recency::{lemma_recency_order, recency_order, recency_order_of};
use crate::state::{
    branches_of, later, latest_of, not_earlier, opt_text, BranchInfo, BranchView, RepoState,
    RepoView, Timestamp,
};
use crate::text::same_text;
use crate::walker::{
    collect_branch_stats, commit_time, commits_of, tally, CommitRecord, CommitView,
    unnamed_author,
};
use vstd::prelude::*;

verus! {

/// The owner of a branch without commits of its own: the canonical name of
/// the configured user, or `"Unknown"` where no user is configured.
pub open spec fn provisional_owner_of(
    table: Seq<(Seq<char>, Seq<Seq<char>>)>,
    current_user: Option<Seq<char>>,
) -> Seq<char> {
    match current_user {
        Some(user) => normalized(table, user),
        None => unnamed_author(),
    }
}

/// The owner of a branch: the provisional owner where no commit was counted,
/// else the label that the counts give.
pub open spec fn branch_owner_of(
    table: Seq<(Seq<char>, Seq<Seq<char>>)>,
    counts: Seq<(Seq<char>, nat)>,
    current_user: Option<Seq<char>>,
) -> Seq<char> {
    if counts.len() == 0 {
        provisional_owner_of(table, current_user)
    } else {
        owner_label(counts)
    }
}

/// The branch that a walk over its commits gives.
pub open spec fn branch_from_walk(
    table: Seq<(Seq<char>, Seq<Seq<char>>)>,
    branch_name: Seq<char>,
    branch_tip: Seq<char>,
    commits: Seq<CommitView>,
    current_user: Option<Seq<char>>,
    now: Timestamp,
) -> BranchView {
    BranchView {
        name: branch_name,
        owner: branch_owner_of(table, tally(table, commits), current_user),
        last_updated: if commits.len() == 0 {
            now
        } else {
            commit_time(commits[0].seconds, now)
        },
        commit_stats: tally(table, commits),
        last_commit_sha: Some(
            if commits.len() == 0 {
                branch_tip
            } else {
                commits[0].sha
            },
        ),
    }
}

/// The owner of a branch without commits of its own.
pub fn provisional_owner(current_user: &Option<String>, user_aliases: &AliasTable) -> (owner:
    String)
    ensures
        owner@ == provisional_owner_of(user_aliases@, opt_text(*current_user)),
{
    proof {
        reveal_strlit("Unknown");
        assert("Unknown"@ =~= unnamed_author());
    }
    match current_user {
        Some(user) => user_aliases.normalize(user.as_str()),
        None => "Unknown".to_owned(),
    }
}

/// The owner of a branch with the given commit counts.
pub fn branch_owner(
    stats: &Vec<AuthorCount>,
    current_user: &Option<String>,
    user_aliases: &AliasTable,
) -> (owner: String)
    ensures
        owner@ == branch_owner_of(user_aliases@, counts_of(stats@), opt_text(*current_user)),
{
    if stats.len() == 0 {
        provisional_owner(current_user, user_aliases)
    } else {
        owner_label_of(stats)
    }
}

/// Builds the information on one branch from the commits that a walk from
/// its tip visited, most recent first, with the base branch's history left
/// out. `now` stands in where the walk gives no time.
pub fn get_branch_info_with_stats(
    branch_name: &str,
    branch_tip: &str,
    commits: &Vec<CommitRecord>,
    current_user: &Option<String>,
    now: Timestamp,
    user_aliases: &AliasTable,
) -> (info: BranchInfo)
    ensures
        info@ == branch_from_walk(
            user_aliases@,
            branch_name@,
            branch_tip@,
            commits_of(commits@),
            opt_text(*current_user),
            now,
        ),
{
    let (commit_stats, last_sha, last_updated) = collect_branch_stats(
        commits,
        branch_tip,
        now,
        user_aliases,
    );
    let owner = branch_owner(&commit_stats, current_user, user_aliases);
    BranchInfo {
        name: branch_name.to_owned(),
        owner,
        last_updated,
        commit_stats,
        last_commit_sha: Some(last_sha),
    }
}

/// The times at which the branches were last updated, in order.
pub open spec fn times_of(branches: Seq<BranchView>) -> Seq<Timestamp> {
    Seq::new(branches.len(), |i: int| branches[i].last_updated)
}

/// The branches ordered by time, most recent first; branches of equal time
/// keep their order.
pub open spec fn by_recency(branches: Seq<BranchView>) -> Seq<BranchView> {
    let order = recency_order(times_of(branches));
    Seq::new(branches.len(), |k: int| branches[order[k]])
}

/// The state of a repository with the given branches: the branches most
/// recent first, and the time of the most recent one, or `now` without any.
pub open spec fn assembled_state(
    name: Seq<char>,
    current_branch: Seq<char>,
    branches: Seq<BranchView>,
    now: Timestamp,
) -> RepoView {
    RepoView {
        name,
        current_branch,
        last_updated: if branches.len() == 0 {
            now
        } else {
            by_recency(branches)[0].last_updated
        },
        branches: by_recency(branches),
    }
}

/// Orders branches by time, most recent first; branches of equal time keep
/// their order.
pub fn sort_by_recency(branches: &Vec<BranchInfo>) -> (sorted: Vec<BranchInfo>)
    ensures
        branches_of(sorted@) == by_recency(branches_of(branches@)),
{
    let ghost views = branches_of(branches@);
    let mut keys: Vec<Timestamp> = Vec::new();
    let mut i: usize = 0;
    while i < branches.len()
        invariant
            i <= branches.len(),
            keys.len() == i,
            forall|j: int| 0 <= j < i ==> keys[j] == branches[j].last_updated,
        decreases branches.len() - i,
    {
        keys.push(branches[i].last_updated);
        i = i + 1;
    }
    proof {
        assert(keys@ =~= times_of(views));
    }
    let order = recency_order_of(&keys);
    let mut sorted: Vec<BranchInfo> = Vec::new();
    let mut k: usize = 0;
    while k < order.len()
        invariant
            k <= order.len(),
            order.len() == branches.len(),
            sorted.len() == k,
            forall|j: int| 0 <= j < order.len() ==> #[trigger] order[j] < branches.len(),
            forall|j: int| 0 <= j < k ==> sorted[j]@ == branches[order[j] as int]@,
        decreases order.len() - k,
    {
        sorted.push(branches[order[k]].duplicate());
        k = k + 1;
    }
    proof {
        let target = by_recency(views);
        let ord = recency_order(times_of(views));
        assert forall|j: int| 0 <= j < sorted.len() implies branches_of(sorted@)[j] == target[j] by {
            assert(ord[j] == crate::order::indices_of(order@)[j]);
        }
        assert(branches_of(sorted@) =~= target);
    }
    sorted
}

/// Assembles the state of a repository from its freshly computed branches.
pub fn refresh_repo_state(
    repo_name: &str,
    current_branch: String,
    branches: &Vec<BranchInfo>,
    now: Timestamp,
) -> (state: RepoState)
    ensures
        state@ == assembled_state(repo_name@, current_branch@, branches_of(branches@), now),
{
    let sorted = sort_by_recency(branches);
    proof {
        lemma_recency_order(times_of(branches_of(branches@)));
        assert(branches_of(sorted@).len() == branches.len());
    }
    let last_updated = if sorted.len() == 0 {
        now
    } else {
        assert(branches_of(sorted@)[0] == sorted[0]@);
        sorted[0].last_updated
    };
    RepoState { name: repo_name.to_owned(), current_branch, last_updated, branches: sorted }
}

/// In an assembled state the branches never grow more recent along their
/// order, every branch given is among them, and the state's time is that of
/// its most recent branch.
pub proof fn assembled_state_is_ordered(
    name: Seq<char>,
    current_branch: Seq<char>,
    branches: Seq<BranchView>,
    now: Timestamp,
)
    ensures
        ({
            let state = assembled_state(name, current_branch, branches, now);
            &&& state.branches.len() == branches.len()
            &&& forall|k: int, l: int|
                0 <= k < l < state.branches.len() ==> not_earlier(
                    state.branches[k].last_updated,
                    state.branches[l].last_updated,
                )
            &&& forall|k: int|
                0 <= k < state.branches.len() ==> not_earlier(
                    state.last_updated,
                    (#[trigger] state.branches[k]).last_updated,
                )
            &&& forall|i: int|
                0 <= i < branches.len() ==> state.branches.contains(#[trigger] branches[i])
            &&& forall|k: int|
                0 <= k < state.branches.len() ==> branches.contains(#[trigger] state.branches[k])
        }),
{
    let keys = times_of(branches);
    let order = recency_order(keys);
    let state = assembled_state(name, current_branch, branches, now);
    lemma_recency_order(keys);
    assert forall|k: int, l: int| 0 <= k < l < state.branches.len() implies not_earlier(
        state.branches[k].last_updated,
        state.branches[l].last_updated,
    ) by {
        assert(not_earlier(keys[order[k]], keys[order[l]]));
    }
    assert forall|k: int| 0 <= k < state.branches.len() implies not_earlier(
        state.last_updated,
        (#[trigger] state.branches[k]).last_updated,
    ) by {
        if k > 0 {
            assert(not_earlier(
                state.branches[0].last_updated,
                state.branches[k].last_updated,
            ));
        }
    }
    assert forall|k: int| 0 <= k < state.branches.len() implies branches.contains(
        #[trigger] state.branches[k],
    ) by {
        assert(branches[order[k]] == state.branches[k]);
    }
    assert forall|i: int| 0 <= i < branches.len() implies state.branches.contains(
        #[trigger] branches[i],
    ) by {
        crate::order::lemma_order_is_onto(order, branches.len() as int, i);
        let k = choose|k: int| 0 <= k < order.len() && order[k] == i;
        assert(state.branches[k] == branches[i]);
    }
}

/// What is read of a repository at the start of a synchronisation pass.
#[derive(Debug, Clone)]
pub struct LiveProbe {
    /// The branch that is checked out, or the marker of a state without one.
    pub current_branch: String,
    /// The tip of `"master"`, where that branch exists.
    pub master_sha: Option<String>,
    /// The tip of `"main"`, where that branch exists.
    pub main_sha: Option<String>,
    /// The tip of the current branch, where it can be read.
    pub current_sha: Option<String>,
}

/// The mathematical content of a [`LiveProbe`].
pub struct ProbeView {
    pub current_branch: Seq<char>,
    pub master_sha: Option<Seq<char>>,
    pub main_sha: Option<Seq<char>>,
    pub current_sha: Option<Seq<char>>,
}

impl View for LiveProbe {
    type V = ProbeView;

    open spec fn view(&self) -> ProbeView {
        ProbeView {
            current_branch: self.current_branch@,
            master_sha: opt_text(self.master_sha),
            main_sha: opt_text(self.main_sha),
            current_sha: opt_text(self.current_sha),
        }
    }
}

/// What a synchronisation pass does with the cached branches.
#[derive(Debug, Clone, Copy, PartialEq, Eq, Structural)]
pub enum SyncAction {
    /// No branch is checked out: nothing is computed.
    SkipStats,
    /// The base branch moved: every cached branch is computed anew.
    RecomputeAll,
    /// Only the current branch moved, or it is not cached: it alone is
    /// computed anew.
    RecomputeCurrent,
    /// The cache is still valid.
    ReuseCached,
}

/// The marker of a checkout that is detached from every branch.
pub open spec fn detached_marker() -> Seq<char> {
    seq!['(', 'd', 'e', 't', 'a', 'c', 'h', 'e', 'd', ')']
}

/// The marker of a repository without a checked-out commit.
pub open spec fn no_branch_marker() -> Seq<char> {
    seq!['(', 'n', 'o', ' ', 'b', 'r', 'a', 'n', 'c', 'h', ')']
}

/// The current branch is one of the two markers of a state without branch.
pub open spec fn is_headless(current_branch: Seq<char>) -> bool {
    current_branch == detached_marker() || current_branch == no_branch_marker()
}

/// Position of the first branch of this name, or the number of branches.
pub open spec fn position_of_branch(branches: Seq<BranchView>, name: Seq<char>) -> int
    decreases branches.len(),
{
    if branches.len() == 0 {
        0
    } else {
        let m = position_of_branch(branches.drop_last(), name);
        if m < branches.len() - 1 {
            m
        } else if branches.last().name == name {
            branches.len() - 1
        } else {
            branches.len() as int
        }
    }
}

/// The tip of the base branch: that of `"master"` where it exists, else that
/// of `"main"`.
pub open spec fn live_base_sha(probe: ProbeView) -> Option<Seq<char>> {
    if probe.master_sha is Some {
        probe.master_sha
    } else {
        probe.main_sha
    }
}

/// The name of the base branch: `"master"` where it exists, else `"main"`.
pub open spec fn base_name(probe: ProbeView) -> Seq<char> {
    if probe.master_sha is Some {
        seq!['m', 'a', 's', 't', 'e', 'r']
    } else {
        seq!['m', 'a', 'i', 'n']
    }
}

/// The base branch exists and the cache does not hold it with its live
/// fingerprint.
pub open spec fn base_changed(branches: Seq<BranchView>, probe: ProbeView) -> bool {
    match live_base_sha(probe) {
        None => false,
        Some(sha) => {
            let i = position_of_branch(branches, base_name(probe));
            i >= branches.len() || branches[i].last_commit_sha != Some(sha)
        },
    }
}

/// The cache does not hold the current branch with its live fingerprint.
pub open spec fn current_stale(branches: Seq<BranchView>, probe: ProbeView) -> bool {
    let i = position_of_branch(branches, probe.current_branch);
    i >= branches.len() || probe.current_sha is None || branches[i].last_commit_sha
        != probe.current_sha
}

/// What a synchronisation pass does, given the cached state and what was
/// read of the repository.
pub open spec fn sync_action(state: RepoView, probe: ProbeView) -> SyncAction {
    if is_headless(probe.current_branch) {
        SyncAction::SkipStats
    } else if base_changed(state.branches, probe) {
        SyncAction::RecomputeAll
    } else if current_stale(state.branches, probe) {
        SyncAction::RecomputeCurrent
    } else {
        SyncAction::ReuseCached
    }
}

/// The state once the pass has looked at the probe: the current branch is
/// the live one; where the cache is reused, the state's time is that of the
/// cached current branch.
pub open spec fn state_after_probe(state: RepoView, probe: ProbeView) -> RepoView {
    RepoView {
        name: state.name,
        current_branch: probe.current_branch,
        last_updated: if sync_action(state, probe) == SyncAction::ReuseCached {
            state.branches[position_of_branch(
                state.branches,
                probe.current_branch,
            )].last_updated
        } else {
            state.last_updated
        },
        branches: state.branches,
    }
}

/// The latest among `start` and the times of the branches.
pub open spec fn latest_among(start: Timestamp, branches: Seq<BranchView>) -> Timestamp
    decreases branches.len(),
{
    if branches.len() == 0 {
        start
    } else {
        latest_of(latest_among(start, branches.drop_last()), branches.last().last_updated)
    }
}

/// The branches without those of the given name.
pub open spec fn without_branch(branches: Seq<BranchView>, name: Seq<char>) -> Seq<BranchView>
    decreases branches.len(),
{
    if branches.len() == 0 {
        Seq::empty()
    } else if branches.last().name == name {
        without_branch(branches.drop_last(), name)
    } else {
        without_branch(branches.drop_last(), name).push(branches.last())
    }
}

/// The state after every cached branch was computed anew.
pub open spec fn state_after_full_recompute(state: RepoView, recomputed: Seq<BranchView>) -> RepoView {
    RepoView {
        name: state.name,
        current_branch: state.current_branch,
        last_updated: latest_among(state.last_updated, recomputed),
        branches: recomputed,
    }
}

/// The state after the current branch alone was computed anew.
pub open spec fn state_after_current_recompute(state: RepoView, fresh: BranchView) -> RepoView {
    RepoView {
        name: state.name,
        current_branch: state.current_branch,
        last_updated: fresh.last_updated,
        branches: without_branch(state.branches, state.current_branch).push(fresh),
    }
}

/// `position_of_branch` is the least index of a branch of that name.
pub proof fn lemma_position_of_branch(branches: Seq<BranchView>, name: Seq<char>)
    ensures
        0 <= position_of_branch(branches, name) <= branches.len(),
        position_of_branch(branches, name) < branches.len() ==> branches[position_of_branch(
            branches,
            name,
        )].name == name,
        forall|j: int| 0 <= j < position_of_branch(branches, name) ==> branches[j].name != name,
    decreases branches.len(),
{
    if branches.len() > 0 {
        let init = branches.drop_last();
        lemma_position_of_branch(init, name);
        assert(forall|j: int| 0 <= j < init.len() ==> init[j] == branches[j]);
    }
}

/// What `without_branch` keeps: no branch of the given name, every other
/// branch, nothing else; and for any other name the first branch of that
/// name is the same before and after.
pub proof fn lemma_without_branch(branches: Seq<BranchView>, name: Seq<char>, other: Seq<char>)
    ensures
        without_branch(branches, name).len() <= branches.len(),
        position_of_branch(without_branch(branches, name), name) == without_branch(
            branches,
            name,
        ).len(),
        forall|k: int|
            0 <= k < without_branch(branches, name).len() ==> (#[trigger] without_branch(
                branches,
                name,
            )[k]).name != name && branches.contains(without_branch(branches, name)[k]),
        forall|i: int|
            0 <= i < branches.len() && (#[trigger] branches[i]).name != name ==> without_branch(
                branches,
                name,
            ).contains(branches[i]),
        position_of_branch(branches, name) == branches.len() ==> without_branch(branches, name)
            == branches,
        other != name ==> {
            let kept = without_branch(branches, name);
            let before = position_of_branch(branches, other);
            let after = position_of_branch(kept, other);
            &&& (before < branches.len()) == (after < kept.len())
            &&& before < branches.len() ==> kept[after] == branches[before]
        },
    decreases branches.len(),
{
    let kept = without_branch(branches, name);
    lemma_position_of_branch(branches, name);
    lemma_position_of_branch(branches, other);
    lemma_position_of_branch(kept, name);
    lemma_position_of_branch(kept, other);
    if branches.len() > 0 {
        let init = branches.drop_last();
        let kept_init = without_branch(init, name);
        lemma_without_branch(init, name, other);
        lemma_position_of_branch(init, name);
        lemma_position_of_branch(init, other);
        lemma_position_of_branch(kept_init, name);
        lemma_position_of_branch(kept_init, other);
        assert(forall|j: int| 0 <= j < init.len() ==> init[j] == branches[j]);
        assert forall|k: int| 0 <= k < kept.len() implies (#[trigger] kept[k]).name != name
            && branches.contains(kept[k]) by {
            if k < kept_init.len() {
                assert(kept[k] == kept_init[k]);
                let j = choose|j: int| 0 <= j < init.len() && init[j] == kept_init[k];
                assert(branches[j] == kept[k]);
            } else {
                assert(branches[branches.len() - 1] == kept[k]);
            }
        }
        assert forall|i: int|
            0 <= i < branches.len() && (#[trigger] branches[i]).name != name implies kept.contains(
            branches[i],
        ) by {
            if i < init.len() {
                assert(init[i] == branches[i]);
                let k = choose|k: int| 0 <= k < kept_init.len() && kept_init[k] == init[i];
                assert(kept[k] == branches[i]);
            } else {
                assert(kept[kept.len() - 1] == branches[i]);
            }
        }
        if position_of_branch(branches, name) == branches.len() {
            assert(kept =~= branches);
        }
        if branches.last().name != name {
            assert(kept.drop_last() =~= kept_init);
        }
    }
}

/// Adding a branch at the end leaves the first branch of any name where it
/// was; a name that no branch held before is found at the end.
pub proof fn lemma_position_after_push(branches: Seq<BranchView>, fresh: BranchView, name: Seq<char>)
    ensures
        position_of_branch(branches, name) < branches.len() ==> position_of_branch(
            branches.push(fresh),
            name,
        ) == position_of_branch(branches, name),
        position_of_branch(branches, name) == branches.len() && fresh.name == name
            ==> position_of_branch(branches.push(fresh), name) == branches.len(),
        position_of_branch(branches, name) == branches.len() && fresh.name != name
            ==> position_of_branch(branches.push(fresh), name) == branches.len() + 1,
{
    lemma_position_of_branch(branches, name);
    assert(branches.push(fresh).drop_last() =~= branches);
}

impl SyncAction {
    /// Whether this action computes branches anew, and so ends with a write
    /// to the cache.
    pub open spec fn recomputes(self) -> bool {
        self == SyncAction::RecomputeAll || self == SyncAction::RecomputeCurrent
    }

    /// Whether a pass with this action ends with a write to the cache.
    pub fn writes_cache(&self) -> (writes: bool)
        ensures
            writes == self.recomputes(),
    {
        match self {
            SyncAction::RecomputeAll => true,
            SyncAction::RecomputeCurrent => true,
            SyncAction::SkipStats => false,
            SyncAction::ReuseCached => false,
        }
    }
}

/// The probe is consistent: where the current branch is the base branch, its
/// tip is the tip of the base branch.
pub open spec fn probe_consistent(probe: ProbeView) -> bool {
    live_base_sha(probe) is Some && probe.current_branch == base_name(probe) ==> probe.current_sha
        == live_base_sha(probe)
}

/// The cache holds the base branch and the current branch with their live
/// fingerprints, and a branch is checked out.
pub open spec fn cache_settled(branches: Seq<BranchView>, probe: ProbeView) -> bool {
    &&& !is_headless(probe.current_branch)
    &&& !base_changed(branches, probe)
    &&& !current_stale(branches, probe)
}

/// A pass over an unchanged repository changes nothing: where a pass found
/// nothing to compute anew, the next pass over the same probe finds nothing
/// either, writes nothing to the cache, and leaves the state as the first
/// pass left it.
pub proof fn idle_pass_repeats(state: RepoView, probe: ProbeView)
    requires
        !sync_action(state, probe).recomputes(),
    ensures
        sync_action(state_after_probe(state, probe), probe) == sync_action(state, probe),
        state_after_probe(state_after_probe(state, probe), probe) == state_after_probe(
            state,
            probe,
        ),
{
}

/// After a pass that computed the current branch anew, the cache is
/// settled: the next pass over the same probe computes nothing, writes
/// nothing and leaves the state as it is. The fresh branch is that of the
/// probe: it has the current branch's name and live fingerprint.
pub proof fn current_recompute_settles(state: RepoView, probe: ProbeView, fresh: BranchView)
    requires
        sync_action(state, probe) == SyncAction::RecomputeCurrent,
        probe_consistent(probe),
        probe.current_sha is Some,
        fresh.name == probe.current_branch,
        fresh.last_commit_sha == probe.current_sha,
    ensures
        ({
            let next = state_after_current_recompute(state_after_probe(state, probe), fresh);
            &&& cache_settled(next.branches, probe)
            &&& sync_action(next, probe) == SyncAction::ReuseCached
            &&& state_after_probe(next, probe) == next
        }),
{
    let seen = state_after_probe(state, probe);
    let next = state_after_current_recompute(seen, fresh);
    let current = probe.current_branch;
    let kept = without_branch(state.branches, current);
    lemma_without_branch(state.branches, current, base_name(probe));
    lemma_position_after_push(kept, fresh, current);
    lemma_position_after_push(kept, fresh, base_name(probe));
    assert(next.branches == kept.push(fresh));
    assert(next.branches[kept.len() as int] == fresh);
    if live_base_sha(probe) is Some && base_name(probe) != current {
        // the base branch is cached as before, at a place that the fresh
        // branch does not shadow
        let after = position_of_branch(kept, base_name(probe));
        lemma_position_of_branch(kept, base_name(probe));
        assert(next.branches[after] == kept[after]);
    }
}

/// After a pass that computed every cached branch anew, the cache is
/// settled, provided the recomputed branches hold the base branch and the
/// current branch with their live fingerprints: the next pass over the same
/// probe computes nothing, writes nothing and keeps every branch.
pub proof fn full_recompute_settles(state: RepoView, probe: ProbeView, recomputed: Seq<BranchView>)
    requires
        sync_action(state, probe) == SyncAction::RecomputeAll,
        cache_settled(recomputed, probe),
    ensures
        ({
            let next = state_after_full_recompute(state_after_probe(state, probe), recomputed);
            &&& sync_action(next, probe) == SyncAction::ReuseCached
            &&& state_after_probe(next, probe).branches == next.branches
        }),
{
}

/// A base branch whose live fingerprint differs from the cached one, or
/// that the cache does not hold, makes the pass compute every branch anew:
/// no cached branch survives, whatever its own fingerprint.
pub proof fn base_change_recomputes_every_branch(
    state: RepoView,
    probe: ProbeView,
    recomputed: Seq<BranchView>,
)
    requires
        !is_headless(probe.current_branch),
        live_base_sha(probe) is Some,
        ({
            let i = position_of_branch(state.branches, base_name(probe));
            i < state.branches.len() ==> state.branches[i].last_commit_sha != live_base_sha(probe)
        }),
    ensures
        sync_action(state, probe) == SyncAction::RecomputeAll,
        state_after_full_recompute(state_after_probe(state, probe), recomputed).branches
            == recomputed,
{
}

/// Where the base branch stands still and only the current branch moved,
/// the pass computes the current branch alone: every cached branch of
/// another name stays in the state as it was cached, the fresh branch comes
/// last, and nothing else is in the state.
pub proof fn current_change_touches_no_other_branch(
    state: RepoView,
    probe: ProbeView,
    fresh: BranchView,
)
    requires
        !is_headless(probe.current_branch),
        !base_changed(state.branches, probe),
        current_stale(state.branches, probe),
    ensures
        sync_action(state, probe) == SyncAction::RecomputeCurrent,
        ({
            let next = state_after_current_recompute(state_after_probe(state, probe), fresh);
            &&& next.branches.len() > 0
            &&& next.branches.last() == fresh
            &&& forall|i: int|
                0 <= i < state.branches.len() && (#[trigger] state.branches[i]).name
                    != probe.current_branch ==> next.branches.contains(state.branches[i])
            &&& forall|k: int|
                0 <= k < next.branches.len() - 1 ==> state.branches.contains(
                    #[trigger] next.branches[k],
                ) && next.branches[k].name != probe.current_branch
            &&& position_of_branch(state.branches, probe.current_branch) == state.branches.len()
                ==> next.branches == state.branches.push(fresh)
        }),
{
    let current = probe.current_branch;
    let kept = without_branch(state.branches, current);
    let next = state_after_current_recompute(state_after_probe(state, probe), fresh);
    lemma_without_branch(state.branches, current, current);
    assert(next.branches == kept.push(fresh));
    assert forall|i: int|
        0 <= i < state.branches.len() && (#[trigger] state.branches[i]).name
            != current implies next.branches.contains(state.branches[i]) by {
        let k = choose|k: int| 0 <= k < kept.len() && kept[k] == state.branches[i];
        assert(next.branches[k] == state.branches[i]);
    }
    assert forall|k: int| 0 <= k < next.branches.len() - 1 implies state.branches.contains(
        #[trigger] next.branches[k],
    ) && next.branches[k].name != current by {
        assert(next.branches[k] == kept[k]);
    }
}

/// Whether an optional text holds exactly the given text.
pub fn holds_text(cached: &Option<String>, live: &String) -> (same: bool)
    ensures
        same == (opt_text(*cached) == Some(live@)),
{
    match cached {
        Some(text) => *text == *live,
        None => false,
    }
}

/// Position of the first branch of this name.
pub fn find_branch(branches: &Vec<BranchInfo>, name: &str) -> (pos: Option<usize>)
    ensures
        match pos {
            Some(i) => i < branches.len() && i == position_of_branch(
                branches_of(branches@),
                name@,
            ),
            None => position_of_branch(branches_of(branches@), name@) == branches.len(),
        },
{
    let ghost views = branches_of(branches@);
    let mut i: usize = 0;
    while i < branches.len()
        invariant
            i <= branches.len(),
            views == branches_of(branches@),
            forall|j: int| 0 <= j < i ==> views[j].name != name@,
        decreases branches.len() - i,
    {
        if same_text(branches[i].name.as_str(), name) {
            proof {
                lemma_position_of_branch(views, name@);
                assert(views[i as int].name == name@);
            }
            return Some(i);
        }
        i = i + 1;
    }
    proof {
        lemma_position_of_branch(views, name@);
    }
    None
}

/// Whether the current branch is one of the markers `"(detached)"` and
/// `"(no branch)"`.
pub fn is_headless_marker(current_branch: &str) -> (headless: bool)
    ensures
        headless == is_headless(current_branch@),
{
    proof {
        reveal_strlit("(detached)");
        reveal_strlit("(no branch)");
        assert("(detached)"@ =~= detached_marker());
        assert("(no branch)"@ =~= no_branch_marker());
    }
    same_text(current_branch, "(detached)") || same_text(current_branch, "(no branch)")
}

/// Whether the base branch exists and the cache does not hold it with its
/// live fingerprint.
pub fn base_branch_changed(branches: &Vec<BranchInfo>, probe: &LiveProbe) -> (changed: bool)
    ensures
        changed == base_changed(branches_of(branches@), probe@),
{
    proof {
        reveal_strlit("master");
        reveal_strlit("main");
        assert("master"@ =~= seq!['m', 'a', 's', 't', 'e', 'r']);
        assert("main"@ =~= seq!['m', 'a', 'i', 'n']);
    }
    match &probe.master_sha {
        Some(sha) => {
            match find_branch(branches, "master") {
                Some(i) => !holds_text(&branches[i].last_commit_sha, sha),
                None => true,
            }
        },
        None => {
            match &probe.main_sha {
                Some(sha) => {
                    match find_branch(branches, "main") {
                        Some(i) => !holds_text(&branches[i].last_commit_sha, sha),
                        None => true,
                    }
                },
                None => false,
            }
        },
    }
}

/// Whether the cache does not hold the current branch with its live
/// fingerprint.
pub fn current_branch_stale(branches: &Vec<BranchInfo>, probe: &LiveProbe) -> (stale: bool)
    ensures
        stale == current_stale(branches_of(branches@), probe@),
{
    match find_branch(branches, probe.current_branch.as_str()) {
        Some(i) => {
            match &probe.current_sha {
                Some(sha) => !holds_text(&branches[i].last_commit_sha, sha),
                None => true,
            }
        },
        None => true,
    }
}

/// Decides what a synchronisation pass does with the cached branches.
pub fn plan_sync(state: &RepoState, probe: &LiveProbe) -> (action: SyncAction)
    ensures
        action == sync_action(state@, probe@),
{
    if is_headless_marker(probe.current_branch.as_str()) {
        SyncAction::SkipStats
    } else if base_branch_changed(&state.branches, probe) {
        SyncAction::RecomputeAll
    } else if current_branch_stale(&state.branches, probe) {
        SyncAction::RecomputeCurrent
    } else {
        SyncAction::ReuseCached
    }
}

/// Starts a synchronisation pass on the cached state: takes over the live
/// current branch, and says what is to be computed anew. Where the cache is
/// reused, the state's time becomes that of the cached current branch.
pub fn begin_sync(state: &mut RepoState, probe: &LiveProbe) -> (action: SyncAction)
    ensures
        action == sync_action(old(state)@, probe@),
        final(state)@ == state_after_probe(old(state)@, probe@),
{
    let action = plan_sync(state, probe);
    state.current_branch = probe.current_branch.clone();
    if action == SyncAction::ReuseCached {
        match find_branch(&state.branches, probe.current_branch.as_str()) {
            Some(i) => {
                state.last_updated = state.branches[i].last_updated;
            },
            None => {},
        }
    }
    action
}

/// The latest among `start` and the times of the branches.
pub fn latest_update(start: Timestamp, branches: &Vec<BranchInfo>) -> (latest: Timestamp)
    ensures
        latest == latest_among(start, branches_of(branches@)),
{
    let ghost views = branches_of(branches@);
    let mut latest = start;
    let mut i: usize = 0;
    while i < branches.len()
        invariant
            i <= branches.len(),
            views == branches_of(branches@),
            latest == latest_among(start, views.take(i as int)),
        decreases branches.len() - i,
    {
        proof {
            let next = views.take(i + 1);
            assert(next.drop_last() =~= views.take(i as int));
            assert(next.last() == branches[i as int]@);
        }
        if branches[i].last_updated.is_later_than(&latest) {
            latest = branches[i].last_updated;
        }
        i = i + 1;
    }
    proof {
        assert(views.take(i as int) =~= views);
    }
    latest
}

/// Ends a pass in which every cached branch was computed anew: the
/// recomputed branches replace the cached ones, and the state's time moves
/// to the latest of them where that is later.
pub fn finish_full_recompute(state: &mut RepoState, recomputed: Vec<BranchInfo>)
    ensures
        final(state)@ == state_after_full_recompute(old(state)@, branches_of(recomputed@)),
{
    state.last_updated = latest_update(state.last_updated, &recomputed);
    state.branches = recomputed;
}

/// The branches without those of the given name, in order.
pub fn branches_without(branches: &Vec<BranchInfo>, name: &str) -> (kept: Vec<BranchInfo>)
    ensures
        branches_of(kept@) == without_branch(branches_of(branches@), name@),
{
    let ghost views = branches_of(branches@);
    let mut kept: Vec<BranchInfo> = Vec::new();
    proof {
        assert(branches_of(kept@) =~= without_branch(views.take(0), name@));
    }
    let mut i: usize = 0;
    while i < branches.len()
        invariant
            i <= branches.len(),
            views == branches_of(branches@),
            branches_of(kept@) == without_branch(views.take(i as int), name@),
        decreases branches.len() - i,
    {
        proof {
            let next = views.take(i + 1);
            assert(next.drop_last() =~= views.take(i as int));
            assert(next.last() == branches[i as int]@);
        }
        if !same_text(branches[i].name.as_str(), name) {
            let ghost before = branches_of(kept@);
            kept.push(branches[i].duplicate());
            proof {
                assert(branches_of(kept@) =~= before.push(branches[i as int]@));
            }
        }
        i = i + 1;
    }
    proof {
        assert(views.take(i as int) =~= views);
    }
    kept
}

/// Ends a pass in which the current branch alone was computed anew: cached
/// branches of the current branch's name are dropped, the fresh branch is
/// added at the end, and the state's time becomes that of the fresh branch.
pub fn finish_current_recompute(state: &mut RepoState, fresh: BranchInfo)
    ensures
        final(state)@ == state_after_current_recompute(old(state)@, fresh@),
{
    let mut kept = branches_without(&state.branches, state.current_branch.as_str());
    state.last_updated = fresh.last_updated;
    let ghost before = branches_of(kept@);
    kept.push(fresh);
    proof {
        assert(branches_of(kept@) =~= before.push(fresh@));
    }
    state.branches = kept;
}

} // verus!
