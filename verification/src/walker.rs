//! Branch statistics: commits per canonical author over the commits of a
//! branch that the base branch does not hold.

use crate::identity::{normalized, AliasTable};
use crate::ownership::{counts_of, distinct_authors, total_commits, AuthorCount};
use crate::state::Timestamp;
use crate::text::same_text;
use vstd::prelude::*;

verus! {

/// What the walk over a branch's history reads from one commit.
#[derive(Debug, Clone)]
pub struct CommitRecord {
    /// The commit's fingerprint.
    pub sha: String,
    /// The author's name, where the commit holds a readable one.
    pub author_name: Option<String>,
    /// The author's e-mail address, where the commit holds a readable one.
    pub author_email: Option<String>,
    /// The commit time in seconds since the Unix epoch.
    pub seconds: i64,
}

/// The mathematical content of a [`CommitRecord`].
pub struct CommitView {
    pub sha: Seq<char>,
    pub author_name: Seq<char>,
    pub author_email: Seq<char>,
    pub seconds: int,
}

/// The name that stands for an author whose name cannot be read.
pub open spec fn unnamed_author() -> Seq<char> {
    seq!['U', 'n', 'k', 'n', 'o', 'w', 'n']
}

impl View for CommitRecord {
    type V = CommitView;

    open spec fn view(&self) -> CommitView {
        CommitView {
            sha: self.sha@,
            author_name: match self.author_name {
                Some(n) => n@,
                None => unnamed_author(),
            },
            author_email: match self.author_email {
                Some(e) => e@,
                None => Seq::empty(),
            },
            seconds: self.seconds as int,
        }
    }
}

/// The contents of a vector of commits, in order.
pub open spec fn commits_of(v: Seq<CommitRecord>) -> Seq<CommitView> {
    Seq::new(v.len(), |i: int| v[i]@)
}

/// Whether a number of seconds since the Unix epoch is a date that
/// `chrono::DateTime` can hold.
pub uninterp spec fn date_in_range(seconds: int) -> bool;

/// Calls `chrono::DateTime::from_timestamp` with zero nanoseconds. Trusted:
/// the answer says whether chrono accepted the number of seconds, which
/// depends on that number alone.
#[verifier::external_body]
pub(crate) fn seconds_representable(seconds: i64) -> (ok: bool)
    ensures
        ok == date_in_range(seconds as int),
{
    chrono::DateTime::from_timestamp(seconds, 0).is_some()
}

/// The time of a commit: its whole second where that is a date that can be
/// held, else the fallback.
pub open spec fn commit_time(seconds: int, fallback: Timestamp) -> Timestamp {
    if date_in_range(seconds) && i64::MIN <= seconds <= i64::MAX {
        Timestamp { secs: seconds as i64, nanos: 0 }
    } else {
        fallback
    }
}

/// The canonical author that a commit is credited to: the canonical name of
/// the author's name; where the table leaves the name as it is and there is
/// an e-mail address, the canonical name of that address.
pub open spec fn credited_author(
    table: Seq<(Seq<char>, Seq<Seq<char>>)>,
    commit: CommitView,
) -> Seq<char> {
    let by_name = normalized(table, commit.author_name);
    if by_name == commit.author_name && commit.author_email.len() > 0 {
        normalized(table, commit.author_email)
    } else {
        by_name
    }
}

/// Position of an author in the counts, or their length.
pub open spec fn position_of_author(counts: Seq<(Seq<char>, nat)>, who: Seq<char>) -> int
    decreases counts.len(),
{
    if counts.len() == 0 {
        0
    } else {
        let m = position_of_author(counts.drop_last(), who);
        if m < counts.len() - 1 {
            m
        } else if counts.last().0 == who {
            counts.len() - 1
        } else {
            counts.len() as int
        }
    }
}

/// The counts with one more commit for `who`: their entry grows by one, or a
/// new entry with one commit is added at the end.
pub open spec fn credit(counts: Seq<(Seq<char>, nat)>, who: Seq<char>) -> Seq<(Seq<char>, nat)> {
    let i = position_of_author(counts, who);
    if i < counts.len() {
        counts.update(i, (who, counts[i].1 + 1))
    } else {
        counts.push((who, 1))
    }
}

/// The commit counts of a walk: each commit credited to its canonical
/// author, authors in the order in which the walk first meets them.
pub open spec fn tally(
    table: Seq<(Seq<char>, Seq<Seq<char>>)>,
    commits: Seq<CommitView>,
) -> Seq<(Seq<char>, nat)>
    decreases commits.len(),
{
    if commits.len() == 0 {
        Seq::empty()
    } else {
        credit(tally(table, commits.drop_last()), credited_author(table, commits.last()))
    }
}

/// Number of commits of the walk that are credited to `who`.
pub open spec fn commits_credited_to(
    table: Seq<(Seq<char>, Seq<Seq<char>>)>,
    commits: Seq<CommitView>,
    who: Seq<char>,
) -> nat
    decreases commits.len(),
{
    if commits.len() == 0 {
        0
    } else {
        let rest = commits_credited_to(table, commits.drop_last(), who);
        if credited_author(table, commits.last()) == who {
            rest + 1
        } else {
            rest
        }
    }
}

/// The count that the counts hold for `who`; zero where they hold none.
pub open spec fn count_for(counts: Seq<(Seq<char>, nat)>, who: Seq<char>) -> nat {
    let i = position_of_author(counts, who);
    if i < counts.len() {
        counts[i].1
    } else {
        0
    }
}

/// `position_of_author` is the least index that holds the author.
pub proof fn lemma_position_of_author(counts: Seq<(Seq<char>, nat)>, who: Seq<char>)
    ensures
        0 <= position_of_author(counts, who) <= counts.len(),
        position_of_author(counts, who) < counts.len() ==> counts[position_of_author(
            counts,
            who,
        )].0 == who,
        forall|j: int| 0 <= j < position_of_author(counts, who) ==> counts[j].0 != who,
    decreases counts.len(),
{
    if counts.len() > 0 {
        let init = counts.drop_last();
        lemma_position_of_author(init, who);
        assert(forall|j: int| 0 <= j < init.len() ==> init[j] == counts[j]);
    }
}

/// Crediting a commit keeps authors distinct, adds one to the total, adds one
/// to the count of the credited author and leaves every other count alone.
pub proof fn lemma_credit(counts: Seq<(Seq<char>, nat)>, who: Seq<char>, other: Seq<char>)
    requires
        distinct_authors(counts),
    ensures
        distinct_authors(credit(counts, who)),
        total_commits(credit(counts, who)) == total_commits(counts) + 1,
        count_for(credit(counts, who), who) == count_for(counts, who) + 1,
        other != who ==> count_for(credit(counts, who), other) == count_for(counts, other),
        forall|j: int| 0 <= j < credit(counts, who).len() ==> (#[trigger] credit(counts, who)[j]).1 > 0
            || (j < counts.len() && counts[j].1 == 0 && counts[j].0 != who),
{
    let after = credit(counts, who);
    let i = position_of_author(counts, who);
    lemma_position_of_author(counts, who);
    lemma_position_of_author(counts, other);
    lemma_position_of_author(after, who);
    lemma_position_of_author(after, other);
    if i < counts.len() {
        lemma_total_update(counts, i, (who, counts[i].1 + 1));
    } else {
        assert(after.drop_last() =~= counts);
    }
    let pw = position_of_author(after, who);
    assert(after[i].0 == who);
    if pw < i {
        assert(counts[pw].0 == who);
    }
    if other != who {
        let po = position_of_author(counts, other);
        let pa = position_of_author(after, other);
        if po < counts.len() {
            assert(after[po].0 == other);
            if pa < po {
                assert(counts[pa].0 == other);
            }
        } else {
            if pa < after.len() {
                assert(pa < counts.len());
                assert(counts[pa].0 == other);
            }
        }
    }
}

/// Replacing one entry changes the total by the difference of the counts.
pub proof fn lemma_total_update(counts: Seq<(Seq<char>, nat)>, i: int, entry: (Seq<char>, nat))
    requires
        0 <= i < counts.len(),
    ensures
        total_commits(counts.update(i, entry)) == total_commits(counts) - counts[i].1 + entry.1,
    decreases counts.len(),
{
    let after = counts.update(i, entry);
    if i == counts.len() - 1 {
        assert(after.drop_last() =~= counts.drop_last());
    } else {
        lemma_total_update(counts.drop_last(), i, entry);
        assert(after.drop_last() =~= counts.drop_last().update(i, entry));
    }
}

/// What the tally of a walk holds: authors are distinct, every count is
/// positive, the counts add up to the number of commits, and each author's
/// count is the number of commits credited to them.
pub proof fn lemma_tally(
    table: Seq<(Seq<char>, Seq<Seq<char>>)>,
    commits: Seq<CommitView>,
    who: Seq<char>,
)
    ensures
        distinct_authors(tally(table, commits)),
        total_commits(tally(table, commits)) == commits.len(),
        count_for(tally(table, commits), who) == commits_credited_to(table, commits, who),
        forall|j: int| 0 <= j < tally(table, commits).len() ==> (#[trigger] tally(table, commits)[j]).1 > 0,
        tally(table, commits).len() <= commits.len(),
        commits.len() > 0 ==> tally(table, commits).len() > 0,
    decreases commits.len(),
{
    if commits.len() > 0 {
        let init = commits.drop_last();
        lemma_tally(table, init, who);
        let credited = credited_author(table, commits.last());
        lemma_credit(tally(table, init), credited, who);
        lemma_position_of_author(tally(table, init), credited);
    } else {
        lemma_position_of_author(tally(table, commits), who);
    }
}

/// No single count exceeds the total.
pub proof fn lemma_count_within_total(counts: Seq<(Seq<char>, nat)>, i: int)
    requires
        0 <= i < counts.len(),
    ensures
        counts[i].1 <= total_commits(counts),
    decreases counts.len(),
{
    if i < counts.len() - 1 {
        lemma_count_within_total(counts.drop_last(), i);
    }
}

/// The names of the base branch, against which the commits of every other
/// branch are measured.
pub open spec fn is_base_name(name: Seq<char>) -> bool {
    name == seq!['m', 'a', 's', 't', 'e', 'r'] || name == seq!['m', 'a', 'i', 'n']
}

/// Whether a branch name is one of the two names of the base branch,
/// `"master"` and `"main"`.
pub fn is_base_branch_name(name: &str) -> (base: bool)
    ensures
        base == is_base_name(name@),
{
    proof {
        reveal_strlit("master");
        reveal_strlit("main");
        assert("master"@ =~= seq!['m', 'a', 's', 't', 'e', 'r']);
        assert("main"@ =~= seq!['m', 'a', 'i', 'n']);
    }
    same_text(name, "master") || same_text(name, "main")
}

/// The tip of the base branch: that of `"master"` where it exists, else that
/// of `"main"`.
pub fn find_main_branch(master_tip: Option<String>, main_tip: Option<String>) -> (tip: Option<
    String,
>)
    ensures
        tip == (if master_tip is Some {
            master_tip
        } else {
            main_tip
        }),
{
    match master_tip {
        Some(t) => Some(t),
        None => main_tip,
    }
}

/// The tip whose history a walk over `branch_name` leaves out: none for the
/// base branch itself, else the tip of the base branch where one exists.
pub fn excluded_tip(branch_name: &str, master_tip: Option<String>, main_tip: Option<String>) -> (tip:
    Option<String>)
    ensures
        tip == (if is_base_name(branch_name@) {
            None
        } else if master_tip is Some {
            master_tip
        } else {
            main_tip
        }),
{
    if is_base_branch_name(branch_name) {
        None
    } else {
        find_main_branch(master_tip, main_tip)
    }
}

impl CommitRecord {
    /// The author's name, `"Unknown"` where none can be read.
    pub fn name_or_default(&self) -> (name: String)
        ensures
            name@ == self@.author_name,
    {
        proof {
            reveal_strlit("Unknown");
            assert("Unknown"@ =~= unnamed_author());
        }
        match &self.author_name {
            Some(n) => n.clone(),
            None => "Unknown".to_owned(),
        }
    }

    /// The author's e-mail address, empty where none can be read.
    pub fn email_or_default(&self) -> (email: String)
        ensures
            email@ == self@.author_email,
    {
        match &self.author_email {
            Some(e) => e.clone(),
            None => String::new(),
        }
    }

    /// The canonical author that this commit is credited to.
    pub fn credited_to(&self, user_aliases: &AliasTable) -> (who: String)
        ensures
            who@ == credited_author(user_aliases@, self@),
    {
        let name = self.name_or_default();
        let email = self.email_or_default();
        let by_name = user_aliases.normalize(name.as_str());
        if by_name == name && !email.as_str().is_empty() {
            user_aliases.normalize(email.as_str())
        } else {
            by_name
        }
    }

    /// The commit's time, or `fallback` where its seconds are no date that
    /// can be held.
    pub fn time_or(&self, fallback: Timestamp) -> (t: Timestamp)
        ensures
            t == commit_time(self@.seconds, fallback),
    {
        if seconds_representable(self.seconds) {
            Timestamp::at_second(self.seconds)
        } else {
            fallback
        }
    }
}

/// Adds one commit for `who` to the counts.
fn credit_commit(stats: &mut Vec<AuthorCount>, who: String)
    requires
        total_commits(counts_of(old(stats)@)) < usize::MAX,
    ensures
        counts_of(final(stats)@) == credit(counts_of(old(stats)@), who@),
{
    let ghost before = counts_of(stats@);
    let mut i: usize = 0;
    while i < stats.len()
        invariant
            i <= stats.len(),
            before == counts_of(stats@),
            before == counts_of(old(stats)@),
            total_commits(before) < usize::MAX,
            forall|j: int| 0 <= j < i ==> before[j].0 != who@,
        decreases stats.len() - i,
    {
        if stats[i].author == who {
            proof {
                lemma_position_of_author(before, who@);
                assert(before[i as int].0 == who@);
                assert(position_of_author(before, who@) == i);
                lemma_count_within_total(before, i as int);
            }
            let bumped = AuthorCount { author: who, commits: stats[i].commits + 1 };
            stats.set(i, bumped);
            proof {
                assert(counts_of(stats@) =~= credit(before, who@));
            }
            return ;
        }
        i = i + 1;
    }
    proof {
        lemma_position_of_author(before, who@);
    }
    stats.push(AuthorCount { author: who, commits: 1 });
    proof {
        assert(counts_of(stats@) =~= credit(before, who@));
    }
}

/// Counts the commits of a walk. `commits` are the commits that the walk
/// visited, most recent first; `branch_tip` is the fingerprint of the
/// branch's tip. Returns the commits per canonical author, the fingerprint of
/// the first commit visited and its time; for a walk that visited nothing,
/// the tip's fingerprint and `now`.
pub fn collect_branch_stats(
    commits: &Vec<CommitRecord>,
    branch_tip: &str,
    now: Timestamp,
    user_aliases: &AliasTable,
) -> (out: (Vec<AuthorCount>, String, Timestamp))
    ensures
        counts_of(out.0@) == tally(user_aliases@, commits_of(commits@)),
        out.1@ == (if commits.len() == 0 {
            branch_tip@
        } else {
            commits[0]@.sha
        }),
        out.2 == (if commits.len() == 0 {
            now
        } else {
            commit_time(commits[0]@.seconds, now)
        }),
{
    let ghost table = user_aliases@;
    let ghost walked = commits_of(commits@);
    let mut stats: Vec<AuthorCount> = Vec::new();
    proof {
        assert(counts_of(stats@) =~= tally(table, walked.take(0)));
    }
    let mut i: usize = 0;
    while i < commits.len()
        invariant
            i <= commits.len(),
            table == user_aliases@,
            walked == commits_of(commits@),
            counts_of(stats@) == tally(table, walked.take(i as int)),
        decreases commits.len() - i,
    {
        let who = commits[i].credited_to(user_aliases);
        proof {
            let next = walked.take(i + 1);
            assert(next.drop_last() =~= walked.take(i as int));
            assert(next.last() == commits[i as int]@);
            lemma_tally(table, walked.take(i as int), who@);
        }
        credit_commit(&mut stats, who);
        i = i + 1;
    }
    proof {
        assert(walked.take(i as int) =~= walked);
    }
    if commits.len() == 0 {
        (stats, branch_tip.to_owned(), now)
    } else {
        (stats, commits[0].sha.clone(), commits[0].time_or(now))
    }
}

} // verus!
