//! Who owns a branch: the label derived from its per-author commit counts.

use vstd::prelude::*;
use vstd::string::StringExecFns;

verus! {

/// One contributor of a branch and the number of commits counted for them.
#[derive(Debug, Clone)]
pub struct AuthorCount {
    pub author: String,
    pub commits: usize,
}

impl View for AuthorCount {
    type V = (Seq<char>, nat);

    open spec fn view(&self) -> (Seq<char>, nat) {
        (self.author@, self.commits as nat)
    }
}

/// The commit counts of a branch as pairs of author and count, in table order.
pub open spec fn counts_of(stats: Seq<AuthorCount>) -> Seq<(Seq<char>, nat)> {
    Seq::new(stats.len(), |i: int| stats[i]@)
}

/// No author stands twice in the counts.
pub open spec fn distinct_authors(stats: Seq<(Seq<char>, nat)>) -> bool {
    forall|i: int, j: int| 0 <= i < j < stats.len() ==> stats[i].0 != stats[j].0
}

/// Sum of all commit counts.
pub open spec fn total_commits(stats: Seq<(Seq<char>, nat)>) -> nat
    decreases stats.len(),
{
    if stats.len() == 0 {
        0
    } else {
        total_commits(stats.drop_last()) + stats.last().1
    }
}

/// `p` holds the largest count, and no earlier entry holds the same count.
pub open spec fn is_primary(stats: Seq<(Seq<char>, nat)>, p: int) -> bool {
    &&& 0 <= p < stats.len()
    &&& forall|j: int| 0 <= j < stats.len() ==> stats[j].1 <= stats[p].1
    &&& forall|j: int| 0 <= j < p ==> stats[j].1 < stats[p].1
}

/// Index of the primary author: the first entry that holds the largest count.
pub open spec fn primary_index(stats: Seq<(Seq<char>, nat)>) -> int
    decreases stats.len(),
{
    if stats.len() <= 1 {
        0
    } else {
        let p = primary_index(stats.drop_last());
        if stats.last().1 > stats[p].1 {
            stats.len() - 1
        } else {
            p
        }
    }
}

/// The count from which a contributor other than the primary one is
/// significant: a twentieth of the total, rounded up.
pub open spec fn significance_threshold(total: nat) -> nat {
    (total + 19) / 20
}

/// Some entry other than `p` reaches the significance threshold.
pub open spec fn has_other_contributor(stats: Seq<(Seq<char>, nat)>, p: int) -> bool {
    exists|j: int|
        0 <= j < stats.len() && j != p && (#[trigger] stats[j]).1
            >= significance_threshold(total_commits(stats))
}

/// The label shown when nothing is known about a branch's authors.
pub open spec fn unknown_owner() -> Seq<char> {
    seq!['u', 'n', 'k', 'n', 'o', 'w', 'n']
}

/// The suffix that marks a branch with several significant contributors.
pub open spec fn et_al_suffix() -> Seq<char> {
    seq![' ', 'e', 't', ' ', 'a', 'l']
}

/// The owner label of a branch with the given commit counts.
pub open spec fn owner_label(stats: Seq<(Seq<char>, nat)>) -> Seq<char> {
    if stats.len() == 0 || total_commits(stats) == 0 {
        unknown_owner()
    } else {
        let p = primary_index(stats);
        if has_other_contributor(stats, p) {
            stats[p].0 + et_al_suffix()
        } else {
            stats[p].0
        }
    }
}

/// The primary author's count, or zero when there are no counts.
pub open spec fn owner_commit_count(stats: Seq<(Seq<char>, nat)>) -> nat {
    if stats.len() == 0 {
        0
    } else {
        stats[primary_index(stats)].1
    }
}

/// The primary index is the first position of the largest count.
pub proof fn lemma_primary_index(stats: Seq<(Seq<char>, nat)>)
    requires
        stats.len() > 0,
    ensures
        is_primary(stats, primary_index(stats)),
    decreases stats.len(),
{
    if stats.len() > 1 {
        let init = stats.drop_last();
        lemma_primary_index(init);
        let p = primary_index(init);
        assert(forall|j: int| 0 <= j < init.len() ==> init[j] == stats[j]);
    }
}

/// With no counts at all the owner is unknown.
pub proof fn owner_of_empty_counts_is_unknown(stats: Seq<(Seq<char>, nat)>)
    requires
        stats.len() == 0,
    ensures
        owner_label(stats) == unknown_owner(),
{
}

/// With at least one count, the owner's commit count is the largest count
/// in the table: no entry exceeds it and some entry holds it.
pub proof fn owner_commit_count_is_maximum(stats: Seq<(Seq<char>, nat)>)
    requires
        stats.len() > 0,
    ensures
        forall|j: int| 0 <= j < stats.len() ==> (#[trigger] stats[j]).1 <= owner_commit_count(stats),
        exists|j: int| 0 <= j < stats.len() && (#[trigger] stats[j]).1 == owner_commit_count(stats),
{
    lemma_primary_index(stats);
    let p = primary_index(stats);
    assert(stats[p].1 == owner_commit_count(stats));
}

/// Where commits were counted, the label is the primary author followed by
/// `" et al"` exactly when some other contributor holds at least a twentieth
/// of the total, rounded up; otherwise it is the primary author alone. A
/// count equal to the threshold counts.
pub proof fn et_al_iff_other_contributor(stats: Seq<(Seq<char>, nat)>)
    requires
        stats.len() > 0,
        total_commits(stats) > 0,
    ensures
        owner_label(stats) == stats[primary_index(stats)].0 + et_al_suffix()
            <==> has_other_contributor(stats, primary_index(stats)),
        owner_label(stats) == stats[primary_index(stats)].0
            <==> !has_other_contributor(stats, primary_index(stats)),
        has_other_contributor(stats, primary_index(stats)) <==> exists|j: int|
            0 <= j < stats.len() && j != primary_index(stats) && (#[trigger] stats[j]).1 * 20
                >= total_commits(stats),
{
    let p = primary_index(stats);
    let name = stats[p].0;
    let total = total_commits(stats);
    assert((name + et_al_suffix()).len() == name.len() + 6);
    if has_other_contributor(stats, p) {
        let j = choose|j: int|
            0 <= j < stats.len() && j != p && (#[trigger] stats[j]).1 >= significance_threshold(
                total,
            );
        assert(stats[j].1 * 20 >= total);
    }
    if exists|j: int| 0 <= j < stats.len() && j != p && (#[trigger] stats[j]).1 * 20 >= total {
        let j = choose|j: int|
            0 <= j < stats.len() && j != p && (#[trigger] stats[j]).1 * 20 >= total;
        assert(stats[j].1 >= significance_threshold(total));
    }
}

/// The total never exceeds what `len` counts of machine size can add up to.
proof fn lemma_total_bound(stats: Seq<(Seq<char>, nat)>)
    requires
        forall|i: int| 0 <= i < stats.len() ==> (#[trigger] stats[i]).1 <= usize::MAX,
    ensures
        total_commits(stats) <= stats.len() * usize::MAX,
    decreases stats.len(),
{
    if stats.len() > 0 {
        let init = stats.drop_last();
        assert(forall|i: int| 0 <= i < init.len() ==> init[i] == stats[i]);
        lemma_total_bound(init);
        assert((stats.len() - 1) * usize::MAX + usize::MAX == stats.len() * usize::MAX)
            by (nonlinear_arith);
    }
}

/// Adds up all commit counts.
pub fn sum_commits(stats: &Vec<AuthorCount>) -> (total: u128)
    ensures
        total == total_commits(counts_of(stats@)),
{
    let ghost counts = counts_of(stats@);
    let mut total: u128 = 0;
    let mut i: usize = 0;
    while i < stats.len()
        invariant
            i <= stats.len(),
            counts == counts_of(stats@),
            total == total_commits(counts.take(i as int)),
        decreases stats.len() - i,
    {
        proof {
            let next = counts.take(i + 1);
            assert(next.drop_last() == counts.take(i as int));
            assert(next.last() == stats@[i as int]@);
            lemma_total_bound(next);
            assert(next.len() * usize::MAX <= usize::MAX * usize::MAX) by (nonlinear_arith)
                requires
                    next.len() <= usize::MAX,
            ;
            assert(usize::MAX * usize::MAX <= u128::MAX) by (nonlinear_arith)
                requires
                    usize::MAX <= 0xffff_ffff_ffff_ffff,
                    u128::MAX == 0xffff_ffff_ffff_ffff_ffff_ffff_ffff_ffff,
            ;
        }
        total = total + stats[i].commits as u128;
        i = i + 1;
    }
    proof {
        assert(counts.take(i as int) == counts);
    }
    total
}

/// Finds the first entry that holds the largest count.
pub fn find_primary(stats: &Vec<AuthorCount>) -> (p: usize)
    requires
        stats.len() > 0,
    ensures
        p == primary_index(counts_of(stats@)),
        is_primary(counts_of(stats@), p as int),
{
    let ghost counts = counts_of(stats@);
    let mut p: usize = 0;
    let mut i: usize = 1;
    proof {
        assert(counts.take(1).len() == 1);
    }
    while i < stats.len()
        invariant
            1 <= i <= stats.len(),
            p < i,
            counts == counts_of(stats@),
            p == primary_index(counts.take(i as int)),
        decreases stats.len() - i,
    {
        proof {
            let next = counts.take(i + 1);
            assert(next.drop_last() == counts.take(i as int));
            assert(next.last() == stats@[i as int]@);
            assert(next[p as int] == stats@[p as int]@);
        }
        if stats[i].commits > stats[p].commits {
            p = i;
        }
        i = i + 1;
    }
    proof {
        assert(counts.take(i as int) == counts);
        lemma_primary_index(counts);
    }
    p
}

/// Whether an entry other than `p` holds at least `threshold` commits.
pub fn any_other_reaches(stats: &Vec<AuthorCount>, p: usize, threshold: u128) -> (found: bool)
    ensures
        found <==> exists|j: int|
            0 <= j < stats.len() && j != p && (#[trigger] counts_of(stats@)[j]).1 >= threshold,
{
    let ghost counts = counts_of(stats@);
    let mut i: usize = 0;
    while i < stats.len()
        invariant
            i <= stats.len(),
            counts == counts_of(stats@),
            forall|j: int| 0 <= j < i && j != p ==> (#[trigger] counts[j]).1 < threshold,
        decreases stats.len() - i,
    {
        if i != p && stats[i].commits as u128 >= threshold {
            assert(counts[i as int].1 >= threshold);
            return true;
        }
        i = i + 1;
    }
    false
}

/// The owner label for the given commit counts: `"unknown"` when nothing was
/// counted, else the primary author, followed by `" et al"` when another
/// contributor reaches a twentieth of the total, rounded up.
pub fn owner_label_of(stats: &Vec<AuthorCount>) -> (label: String)
    ensures
        label@ == owner_label(counts_of(stats@)),
{
    proof {
        reveal_strlit("unknown");
        reveal_strlit(" et al");
        assert("unknown"@ =~= unknown_owner());
        assert(" et al"@ =~= et_al_suffix());
    }
    if stats.len() == 0 {
        return "unknown".to_owned();
    }
    let total = sum_commits(stats);
    if total == 0 {
        return "unknown".to_owned();
    }
    let p = find_primary(stats);
    let threshold: u128 = if total % 20 == 0 {
        total / 20
    } else {
        total / 20 + 1
    };
    assert(threshold == significance_threshold(total as nat));
    let primary = stats[p].author.clone();
    if any_other_reaches(stats, p, threshold) {
        primary.concat(" et al")
    } else {
        primary
    }
}

/// The primary author's commit count, or zero when nothing was counted.
pub fn owner_commit_count_of(stats: &Vec<AuthorCount>) -> (count: usize)
    ensures
        count == owner_commit_count(counts_of(stats@)),
{
    if stats.len() == 0 {
        return 0;
    }
    let p = find_primary(stats);
    stats[p].commits
}

} // verus!
