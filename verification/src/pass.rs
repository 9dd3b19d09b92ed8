//! One synchronisation pass over one repository, cache included: the pass
//! opens on the cached state, says what is to be computed anew, and closes
//! by folding the results in and saving them.

use crate::cache::{after_save, cached, saved_state_is_returned, StateCache};
use crate::engine::{
    begin_sync, finish_current_recompute, finish_full_recompute, state_after_current_recompute,
    state_after_full_recompute, state_after_probe, sync_action, LiveProbe, ProbeView,
    SyncAction,
};
use crate::state::{branches_of, BranchInfo, BranchView, RepoState, RepoView};
use vstd::prelude::*;

verus! {

/// What was computed anew in a pass.
#[derive(Debug, Clone)]
pub enum Recomputed {
    /// Nothing: the cache was reused, no branch is checked out, or the
    /// computation failed.
    Nothing,
    /// Every cached branch that could be computed.
    AllBranches(Vec<BranchInfo>),
    /// The current branch.
    CurrentBranch(BranchInfo),
}

/// The mathematical content of a [`Recomputed`].
pub enum RecomputedView {
    Nothing,
    AllBranches(Seq<BranchView>),
    CurrentBranch(BranchView),
}

impl View for Recomputed {
    type V = RecomputedView;

    open spec fn view(&self) -> RecomputedView {
        match self {
            Recomputed::Nothing => RecomputedView::Nothing,
            Recomputed::AllBranches(branches) => RecomputedView::AllBranches(
                branches_of(branches@),
            ),
            Recomputed::CurrentBranch(branch) => RecomputedView::CurrentBranch(branch@),
        }
    }
}

/// The state that a pass starts from: the cached one, or, for a repository
/// that the cache has never seen, the surveyed one.
pub open spec fn starting_state(cache: Seq<RepoView>, surveyed: RepoView) -> RepoView {
    match cached(cache, surveyed.name) {
        Some(state) => state,
        None => surveyed,
    }
}

/// The cache once a pass has opened: a repository that it had never seen is
/// in it with its surveyed state.
pub open spec fn cache_after_open(cache: Seq<RepoView>, surveyed: RepoView) -> Seq<RepoView> {
    if cached(cache, surveyed.name) is Some {
        cache
    } else {
        after_save(cache, surveyed)
    }
}

/// The state at the end of a pass.
pub open spec fn state_after_pass(state: RepoView, results: RecomputedView) -> RepoView {
    match results {
        RecomputedView::Nothing => state,
        RecomputedView::AllBranches(branches) => state_after_full_recompute(state, branches),
        RecomputedView::CurrentBranch(branch) => state_after_current_recompute(state, branch),
    }
}

/// The cache at the end of a pass: the state is saved where something was
/// computed anew, and the cache is left alone where nothing was.
pub open spec fn cache_after_close(
    cache: Seq<RepoView>,
    state: RepoView,
    results: RecomputedView,
) -> Seq<RepoView> {
    if results is Nothing {
        cache
    } else {
        after_save(cache, state_after_pass(state, results))
    }
}

/// Opens a pass over the repository that `surveyed` describes. The pass
/// works on the cached state; for a repository that the cache has never
/// seen, the surveyed state is saved and worked on. Returns the state with
/// the live current branch taken over, and what is to be computed anew.
pub fn open_pass(cache: &mut StateCache, surveyed: RepoState, probe: &LiveProbe) -> (out: (
    RepoState,
    SyncAction,
))
    requires
        old(cache).wf(),
    ensures
        final(cache).wf(),
        final(cache)@ == cache_after_open(old(cache)@, surveyed@),
        out.1 == sync_action(starting_state(old(cache)@, surveyed@), probe@),
        out.0@ == state_after_probe(starting_state(old(cache)@, surveyed@), probe@),
{
    let mut state = match cache.get_repo_state(surveyed.name.as_str()) {
        Some(found) => found,
        None => {
            cache.save_repo_state(&surveyed);
            surveyed
        },
    };
    let action = begin_sync(&mut state, probe);
    (state, action)
}

/// Closes a pass: folds what was computed anew into the state and saves it.
/// Where nothing was computed, state and cache stay as they are.
pub fn close_pass(cache: &mut StateCache, state: &mut RepoState, results: Recomputed)
    requires
        old(cache).wf(),
    ensures
        final(cache).wf(),
        final(state)@ == state_after_pass(old(state)@, results@),
        final(cache)@ == cache_after_close(old(cache)@, old(state)@, results@),
{
    match results {
        Recomputed::Nothing => {},
        Recomputed::AllBranches(branches) => {
            finish_full_recompute(state, branches);
            cache.save_repo_state(state);
        },
        Recomputed::CurrentBranch(branch) => {
            finish_current_recompute(state, branch);
            cache.save_repo_state(state);
        },
    }
}

/// A repository that the cache has never seen is in it once the pass has
/// opened, with exactly the state that was surveyed; and whatever a pass
/// computes anew is what the cache returns for the repository afterwards.
pub proof fn pass_results_are_cached(
    cache: Seq<RepoView>,
    surveyed: RepoView,
    state: RepoView,
    results: RecomputedView,
)
    requires
        crate::cache::distinct_names(cache),
        state.name == surveyed.name,
    ensures
        cached(cache, surveyed.name) is None ==> cached(
            cache_after_open(cache, surveyed),
            surveyed.name,
        ) == Some(surveyed),
        cached(cache, surveyed.name) is Some ==> cache_after_open(cache, surveyed) == cache,
        !(results is Nothing) ==> cached(cache_after_close(cache, state, results), state.name)
            == Some(state_after_pass(state, results)),
{
    saved_state_is_returned(cache, surveyed, surveyed.name);
    saved_state_is_returned(cache, state_after_pass(state, results), surveyed.name);
}

/// A pass that finds nothing to compute anew writes nothing: the cache is
/// after the pass what it was once the pass had opened, and a second pass
/// over the same repository finds nothing either.
pub proof fn idle_pass_leaves_cache_alone(cache: Seq<RepoView>, surveyed: RepoView, probe: ProbeView)
    requires
        cached(cache, surveyed.name) is Some,
        !sync_action(starting_state(cache, surveyed), probe).recomputes(),
    ensures
        cache_after_close(
            cache_after_open(cache, surveyed),
            state_after_probe(starting_state(cache, surveyed), probe),
            RecomputedView::Nothing,
        ) == cache,
        sync_action(starting_state(cache_after_open(cache, surveyed), surveyed), probe)
            == sync_action(starting_state(cache, surveyed), probe),
{
}

} // verus!
