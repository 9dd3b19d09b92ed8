//! How a branch stands against its remote, and whether the working tree
//! holds changes.

use vstd::prelude::*;

verus! {

/// How a branch stands against its remote.
#[derive(Debug, Clone, Copy, PartialEq, Eq, Structural)]
pub enum BranchStatus {
    /// Nothing to push or pull.
    Synced,
    /// Local changes or commits wait to be pushed.
    NeedsPush,
    /// The remote holds commits to pull.
    NeedsPull,
}

/// What the status of one file says.
#[derive(Debug, Clone, Copy, PartialEq, Eq, Structural)]
pub struct FileStatus {
    pub index_new: bool,
    pub index_modified: bool,
    pub index_deleted: bool,
    pub index_renamed: bool,
    pub index_typechange: bool,
    pub wt_new: bool,
    pub wt_modified: bool,
    pub wt_deleted: bool,
    pub wt_renamed: bool,
    pub wt_typechange: bool,
}

impl FileStatus {
    /// The file has a change in the index.
    pub open spec fn staged(self) -> bool {
        self.index_new || self.index_modified || self.index_deleted || self.index_renamed
            || self.index_typechange
    }

    /// The file is tracked and has a change in the working tree. A file
    /// that is merely new there does not count.
    pub open spec fn changed_in_tree(self) -> bool {
        self.wt_modified || self.wt_deleted || self.wt_typechange || self.wt_renamed
    }

    /// The file has a change that would have to be committed.
    pub open spec fn uncommitted(self) -> bool {
        self.staged() || self.changed_in_tree()
    }

    /// Whether the file has a change that would have to be committed.
    pub fn is_uncommitted(&self) -> (r: bool)
        ensures
            r == self.uncommitted(),
    {
        self.index_new || self.index_modified || self.index_deleted || self.index_renamed
            || self.index_typechange || self.wt_modified || self.wt_deleted
            || self.wt_typechange || self.wt_renamed
    }
}

/// Whether some file has a change that would have to be committed: a change
/// in the index, or a change to a tracked file in the working tree.
pub fn has_uncommitted_changes(statuses: &Vec<FileStatus>) -> (changes: bool)
    ensures
        changes == exists|i: int| 0 <= i < statuses.len() && (#[trigger] statuses[i]).uncommitted(),
{
    let mut i: usize = 0;
    while i < statuses.len()
        invariant
            i <= statuses.len(),
            forall|j: int| 0 <= j < i ==> !(#[trigger] statuses[j]).uncommitted(),
        decreases statuses.len() - i,
    {
        if statuses[i].is_uncommitted() {
            return true;
        }
        i = i + 1;
    }
    false
}

/// The status of a branch: uncommitted changes call for a push; else
/// commits on the remote call for a pull, before local commits call for a
/// push.
pub open spec fn branch_status_of(uncommitted: bool, ahead: nat, behind: nat) -> BranchStatus {
    if uncommitted {
        BranchStatus::NeedsPush
    } else if behind > 0 {
        BranchStatus::NeedsPull
    } else if ahead > 0 {
        BranchStatus::NeedsPush
    } else {
        BranchStatus::Synced
    }
}

/// The status of a branch, given whether the working tree holds uncommitted
/// changes and by how many commits the branch is ahead of and behind its
/// remote.
pub fn get_branch_status(uncommitted: bool, ahead: usize, behind: usize) -> (status: BranchStatus)
    ensures
        status == branch_status_of(uncommitted, ahead as nat, behind as nat),
{
    if uncommitted {
        BranchStatus::NeedsPush
    } else if behind > 0 {
        BranchStatus::NeedsPull
    } else if ahead > 0 {
        BranchStatus::NeedsPush
    } else {
        BranchStatus::Synced
    }
}

} // verus!
