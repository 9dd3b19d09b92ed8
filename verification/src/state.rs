//! What is known about a repository: its branches, who owns them and when
//! they last changed.

use crate::ownership::{
    counts_of, owner_commit_count, owner_commit_count_of, owner_label, owner_label_of,
    AuthorCount,
};
use vstd::prelude::*;

verus! {

/// A point in time: whole seconds since the Unix epoch and the nanoseconds
/// within that second.
#[derive(Debug, Clone, Copy, PartialEq, Eq, Structural)]
pub struct Timestamp {
    pub secs: i64,
    pub nanos: u32,
}

/// `a` is strictly later than `b`.
pub open spec fn later(a: Timestamp, b: Timestamp) -> bool {
    a.secs > b.secs || (a.secs == b.secs && a.nanos > b.nanos)
}

/// `a` is not earlier than `b`.
pub open spec fn not_earlier(a: Timestamp, b: Timestamp) -> bool {
    !later(b, a)
}

/// The later of two points in time; the first where they are equal.
pub open spec fn latest_of(a: Timestamp, b: Timestamp) -> Timestamp {
    if later(b, a) {
        b
    } else {
        a
    }
}

impl Timestamp {
    /// A point in time at a whole second.
    pub fn at_second(secs: i64) -> (t: Timestamp)
        ensures
            t == (Timestamp { secs, nanos: 0 }),
    {
        Timestamp { secs, nanos: 0 }
    }

    /// Whether this point in time is strictly later than `other`.
    pub fn is_later_than(&self, other: &Timestamp) -> (r: bool)
        ensures
            r == later(*self, *other),
    {
        self.secs > other.secs || (self.secs == other.secs && self.nanos > other.nanos)
    }
}

/// One local branch of a repository.
#[derive(Debug, Clone)]
pub struct BranchInfo {
    pub name: String,
    pub owner: String,
    pub last_updated: Timestamp,
    /// Commits per canonical author, counted over the commits that the base
    /// branch does not hold.
    pub commit_stats: Vec<AuthorCount>,
    /// Fingerprint of the most recent commit counted.
    pub last_commit_sha: Option<String>,
}

/// The mathematical content of a [`BranchInfo`].
pub struct BranchView {
    pub name: Seq<char>,
    pub owner: Seq<char>,
    pub last_updated: Timestamp,
    pub commit_stats: Seq<(Seq<char>, nat)>,
    pub last_commit_sha: Option<Seq<char>>,
}

/// The text that an optional string holds.
pub open spec fn opt_text(s: Option<String>) -> Option<Seq<char>> {
    match s {
        Some(t) => Some(t@),
        None => None,
    }
}

impl View for BranchInfo {
    type V = BranchView;

    open spec fn view(&self) -> BranchView {
        BranchView {
            name: self.name@,
            owner: self.owner@,
            last_updated: self.last_updated,
            commit_stats: counts_of(self.commit_stats@),
            last_commit_sha: opt_text(self.last_commit_sha),
        }
    }
}

/// The contents of a vector of branches, in order.
pub open spec fn branches_of(v: Seq<BranchInfo>) -> Seq<BranchView> {
    Seq::new(v.len(), |i: int| v[i]@)
}

/// The last known state of one repository.
#[derive(Debug, Clone)]
pub struct RepoState {
    pub name: String,
    pub current_branch: String,
    pub last_updated: Timestamp,
    pub branches: Vec<BranchInfo>,
}

/// The mathematical content of a [`RepoState`].
pub struct RepoView {
    pub name: Seq<char>,
    pub current_branch: Seq<char>,
    pub last_updated: Timestamp,
    pub branches: Seq<BranchView>,
}

impl View for RepoState {
    type V = RepoView;

    open spec fn view(&self) -> RepoView {
        RepoView {
            name: self.name@,
            current_branch: self.current_branch@,
            last_updated: self.last_updated,
            branches: branches_of(self.branches@),
        }
    }
}

/// A copy of the commit counts.
pub fn copy_counts(stats: &Vec<AuthorCount>) -> (out: Vec<AuthorCount>)
    ensures
        counts_of(out@) == counts_of(stats@),
{
    let mut out: Vec<AuthorCount> = Vec::new();
    let mut i: usize = 0;
    while i < stats.len()
        invariant
            i <= stats.len(),
            out.len() == i,
            forall|j: int| 0 <= j < i ==> out[j]@ == stats[j]@,
        decreases stats.len() - i,
    {
        out.push(AuthorCount { author: stats[i].author.clone(), commits: stats[i].commits });
        i = i + 1;
    }
    proof {
        assert(counts_of(out@) =~= counts_of(stats@));
    }
    out
}

/// A copy of an optional string.
pub fn copy_opt_text(s: &Option<String>) -> (out: Option<String>)
    ensures
        opt_text(out) == opt_text(*s),
{
    match s {
        Some(t) => Some(t.clone()),
        None => None,
    }
}

impl BranchInfo {
    /// A copy with the same content.
    pub fn duplicate(&self) -> (out: BranchInfo)
        ensures
            out@ == self@,
    {
        BranchInfo {
            name: self.name.clone(),
            owner: self.owner.clone(),
            last_updated: self.last_updated,
            commit_stats: copy_counts(&self.commit_stats),
            last_commit_sha: copy_opt_text(&self.last_commit_sha),
        }
    }

    /// The owner label that the commit counts give: `"unknown"` when nothing
    /// was counted, else the author with the most commits, followed by
    /// `" et al"` when another author holds at least a twentieth of all
    /// commits, rounded up.
    pub fn calculate_owner(&self) -> (label: String)
        ensures
            label@ == owner_label(self@.commit_stats),
    {
        owner_label_of(&self.commit_stats)
    }

    /// The number of commits of the author with the most commits, or zero
    /// when nothing was counted.
    pub fn get_owner_commit_count(&self) -> (count: usize)
        ensures
            count == owner_commit_count(self@.commit_stats),
    {
        owner_commit_count_of(&self.commit_stats)
    }
}

/// A copy of the branches, in order.
pub fn copy_branches(branches: &Vec<BranchInfo>) -> (out: Vec<BranchInfo>)
    ensures
        branches_of(out@) == branches_of(branches@),
{
    let mut out: Vec<BranchInfo> = Vec::new();
    let mut i: usize = 0;
    while i < branches.len()
        invariant
            i <= branches.len(),
            out.len() == i,
            forall|j: int| 0 <= j < i ==> out[j]@ == branches[j]@,
        decreases branches.len() - i,
    {
        out.push(branches[i].duplicate());
        i = i + 1;
    }
    proof {
        assert(branches_of(out@) =~= branches_of(branches@));
    }
    out
}

impl RepoState {
    /// A copy with the same content.
    pub fn duplicate(&self) -> (out: RepoState)
        ensures
            out@ == self@,
    {
        RepoState {
            name: self.name.clone(),
            current_branch: self.current_branch.clone(),
            last_updated: self.last_updated,
            branches: copy_branches(&self.branches),
        }
    }
}

} // verus!
