//! Tags: the branches of all repositories, saved under a name.

use crate::config::{Config, SavedTag};
use crate::state::opt_text;
use crate::text::{chars_of, contains_text, occurs_in, same_text};
use crate::textmap::TextMap;
use crate::walker::{is_base_branch_name, is_base_name};
use vstd::prelude::*;

verus! {

/// Whether a tag name is reserved: `"master"` and `"main"` stand for the
/// default branch of each repository and cannot be saved.
pub fn is_reserved_tag(tag: &str) -> (reserved: bool)
    ensures
        reserved == is_base_name(tag@),
{
    is_base_branch_name(tag)
}

/// The default branch of a repository: `"main"` where that branch exists,
/// else `"master"` where that exists; else what the remote's head points
/// at, `"main"` where its target holds that word, and `"master"` in every
/// other case.
pub open spec fn default_branch_of(
    has_main: bool,
    has_master: bool,
    remote_head_target: Option<Seq<char>>,
) -> Seq<char> {
    if has_main {
        "main"@
    } else if has_master {
        "master"@
    } else if remote_head_target is Some && occurs_in(remote_head_target->0, "main"@) {
        "main"@
    } else {
        "master"@
    }
}

/// The default branch of a repository. `remote_head_target` is the target
/// of the head of the remote `origin`, where there is such a remote and its
/// head is a symbolic reference.
pub fn default_branch(has_main: bool, has_master: bool, remote_head_target: &Option<String>) -> (name:
    String)
    ensures
        name@ == default_branch_of(has_main, has_master, opt_text(*remote_head_target)),
{
    if has_main {
        "main".to_owned()
    } else if has_master {
        "master".to_owned()
    } else {
        match remote_head_target {
            Some(target) => {
                if contains_text(&chars_of(target.as_str()), &chars_of("main")) {
                    "main".to_owned()
                } else {
                    "master".to_owned()
                }
            },
            None => "master".to_owned(),
        }
    }
}

/// Position of the first tag of this name, or the number of tags.
pub open spec fn position_of_tag(tags: Seq<SavedTag>, name: Seq<char>) -> int
    decreases tags.len(),
{
    if tags.len() == 0 {
        0
    } else {
        let m = position_of_tag(tags.drop_last(), name);
        if m < tags.len() - 1 {
            m
        } else if tags.last().name@ == name {
            tags.len() - 1
        } else {
            tags.len() as int
        }
    }
}

/// `position_of_tag` is the least index of a tag of that name.
pub proof fn lemma_position_of_tag(tags: Seq<SavedTag>, name: Seq<char>)
    ensures
        0 <= position_of_tag(tags, name) <= tags.len(),
        position_of_tag(tags, name) < tags.len() ==> tags[position_of_tag(tags, name)].name@
            == name,
        forall|j: int| 0 <= j < position_of_tag(tags, name) ==> tags[j].name@ != name,
    decreases tags.len(),
{
    if tags.len() > 0 {
        let init = tags.drop_last();
        lemma_position_of_tag(init, name);
        assert(forall|j: int| 0 <= j < init.len() ==> init[j] == tags[j]);
    }
}

impl Config {
    /// Position of the tag of this name.
    pub fn find_tag(&self, tag: &str) -> (pos: Option<usize>)
        ensures
            match pos {
                Some(i) => i < self.tags.len() && i == position_of_tag(self.tags@, tag@),
                None => position_of_tag(self.tags@, tag@) == self.tags.len(),
            },
    {
        let mut i: usize = 0;
        while i < self.tags.len()
            invariant
                i <= self.tags.len(),
                forall|j: int| 0 <= j < i ==> self.tags[j].name@ != tag@,
            decreases self.tags.len() - i,
        {
            if same_text(self.tags[i].name.as_str(), tag) {
                proof {
                    lemma_position_of_tag(self.tags@, tag@);
                }
                return Some(i);
            }
            i = i + 1;
        }
        proof {
            lemma_position_of_tag(self.tags@, tag@);
        }
        None
    }

    /// Saves branches under a tag, in place of what the tag held before.
    pub fn save_tag(&mut self, tag: String, branches: TextMap)
        ensures
            final(self).tags@ == (if position_of_tag(old(self).tags@, tag@) < old(self).tags.len() {
                old(self).tags@.update(
                    position_of_tag(old(self).tags@, tag@),
                    (SavedTag { name: tag, branches }),
                )
            } else {
                old(self).tags@.push((SavedTag { name: tag, branches }))
            }),
            final(self).repositories == old(self).repositories,
            final(self).tasks == old(self).tasks,
            final(self).shells == old(self).shells,
            final(self).credentials == old(self).credentials,
            final(self).users == old(self).users,
            final(self).config_dir == old(self).config_dir,
    {
        let saved = SavedTag { name: tag, branches };
        match self.find_tag(saved.name.as_str()) {
            Some(i) => {
                self.tags.set(i, saved);
            },
            None => {
                self.tags.push(saved);
            },
        }
    }
}

} // verus!
