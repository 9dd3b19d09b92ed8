//! The state cache: the last known state of each repository, kept under the
//! repository's name. This is the cache as the engine sees it; making it
//! durable is the caller's part.

use crate::state::{RepoState, RepoView};
use crate::text::same_text;
use vstd::prelude::*;

verus! {

/// The cached states, one per repository name, in the order in which the
/// names were first saved.
#[derive(Debug, Clone)]
pub struct StateCache {
    entries: Vec<RepoState>,
}

impl View for StateCache {
    type V = Seq<RepoView>;

    closed spec fn view(&self) -> Seq<RepoView> {
        Seq::new(self.entries.len() as nat, |i: int| self.entries[i]@)
    }
}

/// No repository name stands in the cache twice.
pub open spec fn distinct_names(states: Seq<RepoView>) -> bool {
    forall|i: int, j: int| 0 <= i < j < states.len() ==> states[i].name != states[j].name
}

/// Position of the state of this name, or the number of states.
pub open spec fn position_of_state(states: Seq<RepoView>, name: Seq<char>) -> int
    decreases states.len(),
{
    if states.len() == 0 {
        0
    } else {
        let m = position_of_state(states.drop_last(), name);
        if m < states.len() - 1 {
            m
        } else if states.last().name == name {
            states.len() - 1
        } else {
            states.len() as int
        }
    }
}

/// The state cached under a name.
pub open spec fn cached(states: Seq<RepoView>, name: Seq<char>) -> Option<RepoView> {
    let i = position_of_state(states, name);
    if i < states.len() {
        Some(states[i])
    } else {
        None
    }
}

/// The cache after a state was saved: it replaces the state of its name, or
/// is added at the end.
pub open spec fn after_save(states: Seq<RepoView>, state: RepoView) -> Seq<RepoView> {
    let i = position_of_state(states, state.name);
    if i < states.len() {
        states.update(i, state)
    } else {
        states.push(state)
    }
}

/// `position_of_state` is the least index of a state of that name.
pub proof fn lemma_position_of_state(states: Seq<RepoView>, name: Seq<char>)
    ensures
        0 <= position_of_state(states, name) <= states.len(),
        position_of_state(states, name) < states.len() ==> states[position_of_state(
            states,
            name,
        )].name == name,
        forall|j: int| 0 <= j < position_of_state(states, name) ==> states[j].name != name,
    decreases states.len(),
{
    if states.len() > 0 {
        let init = states.drop_last();
        lemma_position_of_state(init, name);
        assert(forall|j: int| 0 <= j < init.len() ==> init[j] == states[j]);
    }
}

/// A saved state is what the cache returns for its name right after, every
/// other name keeps its state, and names stay distinct. A repository never
/// seen before is absent until its first save.
pub proof fn saved_state_is_returned(states: Seq<RepoView>, state: RepoView, other: Seq<char>)
    requires
        distinct_names(states),
    ensures
        cached(after_save(states, state), state.name) == Some(state),
        other != state.name ==> cached(after_save(states, state), other) == cached(states, other),
        distinct_names(after_save(states, state)),
        after_save(after_save(states, state), state) == after_save(states, state),
        cached(Seq::<RepoView>::empty(), other) is None,
{
    let after = after_save(states, state);
    lemma_position_of_state(states, state.name);
    lemma_position_of_state(states, other);
    lemma_position_of_state(after, state.name);
    lemma_position_of_state(after, other);
    let i = position_of_state(states, state.name);
    let ia = position_of_state(after, state.name);
    assert(after[i].name == state.name);
    if ia < i {
        assert(states[ia].name == state.name);
    }
    assert(ia == i);
    if other != state.name {
        let po = position_of_state(states, other);
        let pa = position_of_state(after, other);
        if po < states.len() {
            assert(after[po].name == other);
            if pa < po {
                assert(states[pa].name == other);
            }
        } else if pa < after.len() {
            if pa < states.len() {
                assert(states[pa].name == other);
            }
        }
    }
    assert(after_save(after, state) =~= after);
}

impl StateCache {
    /// The cache's invariant: no repository name stands in it twice.
    pub open spec fn wf(&self) -> bool {
        distinct_names(self@)
    }

    /// The empty cache.
    pub fn new() -> (cache: StateCache)
        ensures
            cache@ == Seq::<RepoView>::empty(),
            cache.wf(),
    {
        let cache = StateCache { entries: Vec::new() };
        proof {
            assert(cache@ =~= Seq::<RepoView>::empty());
        }
        cache
    }

    /// Position of the state of this name.
    fn find(&self, name: &str) -> (pos: Option<usize>)
        ensures
            match pos {
                Some(i) => i < self@.len() && i == position_of_state(self@, name@),
                None => position_of_state(self@, name@) == self@.len(),
            },
    {
        let mut i: usize = 0;
        while i < self.entries.len()
            invariant
                i <= self.entries.len(),
                forall|j: int| 0 <= j < i ==> self@[j].name != name@,
            decreases self.entries.len() - i,
        {
            if same_text(self.entries[i].name.as_str(), name) {
                proof {
                    lemma_position_of_state(self@, name@);
                    assert(self@[i as int].name == name@);
                }
                return Some(i);
            }
            i = i + 1;
        }
        proof {
            lemma_position_of_state(self@, name@);
        }
        None
    }

    /// Saves a state under its repository's name, in place of the state saved
    /// under that name before.
    pub fn save_repo_state(&mut self, state: &RepoState)
        requires
            old(self).wf(),
        ensures
            final(self)@ == after_save(old(self)@, state@),
            final(self).wf(),
    {
        let ghost before = self@;
        proof {
            saved_state_is_returned(before, state@, state@.name);
        }
        match self.find(state.name.as_str()) {
            Some(i) => {
                self.entries.set(i, state.duplicate());
                proof {
                    assert(self@ =~= before.update(i as int, state@));
                }
            },
            None => {
                self.entries.push(state.duplicate());
                proof {
                    assert(self@ =~= before.push(state@));
                }
            },
        }
    }

    /// The state last saved under a name, if any.
    pub fn get_repo_state(&self, name: &str) -> (found: Option<RepoState>)
        ensures
            match found {
                Some(state) => cached(self@, name@) == Some(state@),
                None => cached(self@, name@) is None,
            },
    {
        match self.find(name) {
            Some(i) => Some(self.entries[i].duplicate()),
            None => None,
        }
    }

    /// All cached states, in the order in which their names were first saved.
    pub fn list_all_states(&self) -> (all: Vec<RepoState>)
        ensures
            all.len() == self@.len(),
            forall|i: int| 0 <= i < all.len() ==> all[i]@ == self@[i],
    {
        let mut all: Vec<RepoState> = Vec::new();
        let mut i: usize = 0;
        while i < self.entries.len()
            invariant
                i <= self.entries.len(),
                all.len() == i,
                forall|j: int| 0 <= j < i ==> all[j]@ == self@[j],
            decreases self.entries.len() - i,
        {
            all.push(self.entries[i].duplicate());
            i = i + 1;
        }
        all
    }
}

} // verus!
