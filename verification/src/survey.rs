//! A first look at a repository: the branch that is checked out, the state
//! that the branch tips alone give, and the states arranged for display.

use crate::engine::{assembled_state, provisional_owner, provisional_owner_of, refresh_repo_state};
use crate::identity::AliasTable;
use crate::order::indices_of;
use crate::recency::{recency_order, recency_order_of};
use crate::state::{
    branches_of, copy_branches, opt_text, BranchInfo, BranchView, RepoState, RepoView, Timestamp,
};
use crate::text::same_text;
use crate::text::{chars_of, slice_of, starts_with_text, text_of};
use crate::walker::{commit_time, seconds_representable};
use vstd::prelude::*;

verus! {

/// What the repository's head says.
#[derive(Debug, Clone)]
pub enum HeadProbe {
    /// There is no head: the repository is empty or damaged.
    Missing,
    /// The head points at a commit, not at a branch.
    Detached,
    /// The head points at a branch.
    OnBranch {
        /// The full name of the reference, where it can be read.
        reference: Option<String>,
        /// The short name of the reference, where it can be read.
        shorthand: Option<String>,
    },
}

/// The prefix of the full name of a local branch.
pub open spec fn heads_prefix() -> Seq<char> {
    seq!['r', 'e', 'f', 's', '/', 'h', 'e', 'a', 'd', 's', '/']
}

/// The name of the current branch that a head gives.
pub open spec fn current_branch_of(head: HeadProbe) -> Seq<char> {
    match head {
        HeadProbe::Missing => crate::engine::no_branch_marker(),
        HeadProbe::Detached => crate::engine::detached_marker(),
        HeadProbe::OnBranch { reference, shorthand } => {
            if reference is Some && heads_prefix().is_prefix_of(reference->0@) {
                reference->0@.skip(11)
            } else if shorthand is Some {
                shorthand->0@
            } else {
                seq!['(', 'u', 'n', 'k', 'n', 'o', 'w', 'n', ')']
            }
        },
    }
}

/// The name of the branch that is checked out: the reference's name without
/// `"refs/heads/"`, else its short name, else `"(unknown)"`; `"(detached)"`
/// for a head that points at no branch and `"(no branch)"` without a head.
pub fn get_current_branch(head: &HeadProbe) -> (name: String)
    ensures
        name@ == current_branch_of(*head),
{
    proof {
        reveal_strlit("(no branch)");
        reveal_strlit("(detached)");
        reveal_strlit("(unknown)");
        reveal_strlit("refs/heads/");
        assert("(no branch)"@ =~= crate::engine::no_branch_marker());
        assert("(detached)"@ =~= crate::engine::detached_marker());
        assert("(unknown)"@ =~= seq!['(', 'u', 'n', 'k', 'n', 'o', 'w', 'n', ')']);
        assert("refs/heads/"@ =~= heads_prefix());
    }
    match head {
        HeadProbe::Missing => "(no branch)".to_owned(),
        HeadProbe::Detached => "(detached)".to_owned(),
        HeadProbe::OnBranch { reference, shorthand } => {
            match reference {
                Some(full) => {
                    let chars = chars_of(full.as_str());
                    let prefix = chars_of("refs/heads/");
                    if starts_with_text(&chars, &prefix) {
                        let rest = slice_of(&chars, 11, chars.len());
                        proof {
                            assert(rest@ =~= full@.skip(11));
                        }
                        return text_of(&rest);
                    }
                },
                None => {},
            }
            match shorthand {
                Some(short) => short.clone(),
                None => "(unknown)".to_owned(),
            }
        },
    }
}

/// The tip of a local branch: its name, where it can be read, and the time
/// of its tip commit in seconds since the Unix epoch.
#[derive(Debug, Clone)]
pub struct BranchTip {
    pub name: Option<String>,
    pub seconds: i64,
}

/// The name that stands for a branch whose name cannot be read.
pub open spec fn unreadable_name() -> Seq<char> {
    seq!['(', 'i', 'n', 'v', 'a', 'l', 'i', 'd', ' ', 'u', 't', 'f', '8', ')']
}

/// The branch that a tip alone gives: the provisional owner, the time of the
/// tip commit, no commit counts and no fingerprint.
pub open spec fn branch_from_tip(
    table: Seq<(Seq<char>, Seq<Seq<char>>)>,
    tip: BranchTip,
    current_user: Option<Seq<char>>,
    now: Timestamp,
) -> BranchView {
    BranchView {
        name: match tip.name {
            Some(n) => n@,
            None => unreadable_name(),
        },
        owner: provisional_owner_of(table, current_user),
        last_updated: commit_time(tip.seconds as int, now),
        commit_stats: Seq::empty(),
        last_commit_sha: None,
    }
}

/// The branches that the tips give, in order.
pub open spec fn branches_from_tips(
    table: Seq<(Seq<char>, Seq<Seq<char>>)>,
    tips: Seq<BranchTip>,
    current_user: Option<Seq<char>>,
    now: Timestamp,
) -> Seq<BranchView> {
    Seq::new(tips.len(), |i: int| branch_from_tip(table, tips[i], current_user, now))
}

/// The state of a repository as its branch tips alone give it, without any
/// walk: each branch with the provisional owner and the time of its tip,
/// most recent first.
pub fn get_repo_state(
    repo_name: &str,
    current_branch: String,
    tips: &Vec<BranchTip>,
    current_user: &Option<String>,
    now: Timestamp,
    user_aliases: &AliasTable,
) -> (state: RepoState)
    ensures
        state@ == assembled_state(
            repo_name@,
            current_branch@,
            branches_from_tips(user_aliases@, tips@, opt_text(*current_user), now),
            now,
        ),
{
    proof {
        reveal_strlit("(invalid utf8)");
        assert("(invalid utf8)"@ =~= unreadable_name());
    }
    let ghost table = user_aliases@;
    let ghost user = opt_text(*current_user);
    let mut branches: Vec<BranchInfo> = Vec::new();
    let mut i: usize = 0;
    while i < tips.len()
        invariant
            i <= tips.len(),
            branches.len() == i,
            table == user_aliases@,
            user == opt_text(*current_user),
            "(invalid utf8)"@ == unreadable_name(),
            forall|j: int| 0 <= j < i ==> branches[j]@ == branch_from_tip(table, tips[j], user, now),
        decreases tips.len() - i,
    {
        let name = match &tips[i].name {
            Some(n) => n.clone(),
            None => "(invalid utf8)".to_owned(),
        };
        let last_updated = if seconds_representable(tips[i].seconds) {
            Timestamp::at_second(tips[i].seconds)
        } else {
            now
        };
        let info = BranchInfo {
            name,
            owner: provisional_owner(current_user, user_aliases),
            last_updated,
            commit_stats: Vec::new(),
            last_commit_sha: None,
        };
        proof {
            assert(info@.commit_stats =~= Seq::empty());
        }
        branches.push(info);
        i = i + 1;
    }
    proof {
        assert(branches_of(branches@) =~= branches_from_tips(table, tips@, user, now));
    }
    refresh_repo_state(repo_name, current_branch, &branches, now)
}

/// The branches of the given name, in order.
pub open spec fn only_branch(branches: Seq<BranchView>, name: Seq<char>) -> Seq<BranchView>
    decreases branches.len(),
{
    if branches.len() == 0 {
        Seq::empty()
    } else if branches.last().name == name {
        only_branch(branches.drop_last(), name).push(branches.last())
    } else {
        only_branch(branches.drop_last(), name)
    }
}

/// A state as it is shown: with all of its branches, or with its current
/// branch alone.
pub open spec fn shown_state(state: RepoView, all: bool) -> RepoView {
    RepoView {
        name: state.name,
        current_branch: state.current_branch,
        last_updated: state.last_updated,
        branches: if all {
            state.branches
        } else {
            only_branch(state.branches, state.current_branch)
        },
    }
}

/// The contents of a vector of states, in order.
pub open spec fn states_of(v: Seq<RepoState>) -> Seq<RepoView> {
    Seq::new(v.len(), |i: int| v[i]@)
}

/// The times at which the states were last updated, in order.
pub open spec fn state_times(states: Seq<RepoView>) -> Seq<Timestamp> {
    Seq::new(states.len(), |i: int| states[i].last_updated)
}

/// The states as they are shown: most recently updated first, states of
/// equal time in their order, each with all of its branches or with its
/// current branch alone.
pub open spec fn shown_states(states: Seq<RepoView>, all: bool) -> Seq<RepoView> {
    let order = recency_order(state_times(states));
    Seq::new(states.len(), |k: int| shown_state(states[order[k]], all))
}

/// The branches of the given name, in order.
pub fn branches_named(branches: &Vec<BranchInfo>, name: &str) -> (kept: Vec<BranchInfo>)
    ensures
        branches_of(kept@) == only_branch(branches_of(branches@), name@),
{
    let ghost views = branches_of(branches@);
    let mut kept: Vec<BranchInfo> = Vec::new();
    proof {
        assert(branches_of(kept@) =~= only_branch(views.take(0), name@));
    }
    let mut i: usize = 0;
    while i < branches.len()
        invariant
            i <= branches.len(),
            views == branches_of(branches@),
            branches_of(kept@) == only_branch(views.take(i as int), name@),
        decreases branches.len() - i,
    {
        proof {
            let next = views.take(i + 1);
            assert(next.drop_last() =~= views.take(i as int));
            assert(next.last() == branches[i as int]@);
        }
        if same_text(branches[i].name.as_str(), name) {
            let ghost before = branches_of(kept@);
            kept.push(branches[i].duplicate());
            proof {
                assert(branches_of(kept@) =~= before.push(branches[i as int]@));
            }
        }
        i = i + 1;
    }
    proof {
        assert(views.take(i as int) =~= views);
    }
    kept
}

/// Arranges the states for display: most recently updated first, and, unless
/// all branches are asked for, each with its current branch alone.
pub fn select_for_display(states: &Vec<RepoState>, all: bool) -> (shown: Vec<RepoState>)
    ensures
        states_of(shown@) == shown_states(states_of(states@), all),
{
    let ghost views = states_of(states@);
    let mut keys: Vec<Timestamp> = Vec::new();
    let mut i: usize = 0;
    while i < states.len()
        invariant
            i <= states.len(),
            keys.len() == i,
            forall|j: int| 0 <= j < i ==> keys[j] == states[j].last_updated,
        decreases states.len() - i,
    {
        keys.push(states[i].last_updated);
        i = i + 1;
    }
    proof {
        assert(keys@ =~= state_times(views));
    }
    let order = recency_order_of(&keys);
    let mut shown: Vec<RepoState> = Vec::new();
    let mut k: usize = 0;
    while k < order.len()
        invariant
            k <= order.len(),
            order.len() == states.len(),
            shown.len() == k,
            forall|j: int| 0 <= j < order.len() ==> #[trigger] order[j] < states.len(),
            forall|j: int| 0 <= j < k ==> shown[j]@ == shown_state(states[order[j] as int]@, all),
        decreases order.len() - k,
    {
        let state = &states[order[k]];
        let branches = if all {
            copy_branches(&state.branches)
        } else {
            branches_named(&state.branches, state.current_branch.as_str())
        };
        shown.push(
            RepoState {
                name: state.name.clone(),
                current_branch: state.current_branch.clone(),
                last_updated: state.last_updated,
                branches,
            },
        );
        k = k + 1;
    }
    proof {
        let target = shown_states(views, all);
        let ord = recency_order(state_times(views));
        assert forall|j: int| 0 <= j < shown.len() implies states_of(shown@)[j] == target[j] by {
            assert(ord[j] == indices_of(order@)[j]);
        }
        assert(states_of(shown@) =~= target);
    }
    shown
}

} // verus!
