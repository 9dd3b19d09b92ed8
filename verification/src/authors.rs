//! The authors seen in a repository's history, and the report of a pass
//! over all repositories.

use crate::identity::{recording_adds, table_after_recording, AliasTable};
use crate::order::{
    indices_of, is_place, lemma_insert_at_place, lemma_stable_order, stable_order, strict_weak,
};
use crate::text::{
    chars_of, comes_before, lemma_text_less_asymmetric, lemma_text_less_negatively_transitive,
    lowercase, lowercase_of, text_less,
};
use crate::walker::{commits_of, CommitRecord, CommitView};
use vstd::prelude::*;

verus! {

/// An author as a commit names them. Two identities are equal when name and
/// e-mail address agree up to letter case.
#[derive(Debug, Clone)]
pub struct AuthorIdentity {
    pub name: String,
    pub email: String,
}

/// The mathematical content of an [`AuthorIdentity`]: name and e-mail
/// address.
impl View for AuthorIdentity {
    type V = (Seq<char>, Seq<char>);

    open spec fn view(&self) -> (Seq<char>, Seq<char>) {
        (self.name@, self.email@)
    }
}

/// Two identities agree up to letter case.
pub open spec fn same_identity(a: (Seq<char>, Seq<char>), b: (Seq<char>, Seq<char>)) -> bool {
    lowercase_of(a.0) == lowercase_of(b.0) && lowercase_of(a.1) == lowercase_of(b.1)
}

impl PartialEq for AuthorIdentity {
    fn eq(&self, other: &Self) -> (same: bool) {
        let name = lowercase(self.name.as_str());
        let other_name = lowercase(other.name.as_str());
        let email = lowercase(self.email.as_str());
        let other_email = lowercase(other.email.as_str());
        name == other_name && email == other_email
    }
}

impl vstd::std_specs::cmp::PartialEqSpecImpl for AuthorIdentity {
    open spec fn obeys_eq_spec() -> bool {
        true
    }

    open spec fn eq_spec(&self, other: &Self) -> bool {
        same_identity(self@, other@)
    }
}

impl Eq for AuthorIdentity {

}

/// The identities that a vector holds, in order.
pub open spec fn identities_of(v: Seq<AuthorIdentity>) -> Seq<(Seq<char>, Seq<char>)> {
    Seq::new(v.len(), |i: int| v[i]@)
}

/// Some identity among `seen` agrees with `who` up to letter case.
pub open spec fn already_seen(seen: Seq<(Seq<char>, Seq<char>)>, who: (Seq<char>, Seq<char>)) -> bool {
    exists|i: int| 0 <= i < seen.len() && same_identity(#[trigger] seen[i], who)
}

/// The identity that a commit names, where it names both a name and an
/// e-mail address.
pub open spec fn named_identity(commit: CommitView) -> Option<(Seq<char>, Seq<char>)> {
    if commit.author_name.len() > 0 && commit.author_email.len() > 0 {
        Some((commit.author_name, commit.author_email))
    } else {
        None
    }
}

/// The identities that the commits name, each once: the first spelling of
/// each, in the order in which the commits first name them.
pub open spec fn identities_named(commits: Seq<CommitView>) -> Seq<(Seq<char>, Seq<char>)>
    decreases commits.len(),
{
    if commits.len() == 0 {
        Seq::empty()
    } else {
        let seen = identities_named(commits.drop_last());
        match named_identity(commits.last()) {
            Some(who) => if already_seen(seen, who) {
                seen
            } else {
                seen.push(who)
            },
            None => seen,
        }
    }
}

/// The identity that a commit names, where it names both a name and an
/// e-mail address.
pub fn identity_of(commit: &CommitRecord) -> (who: Option<AuthorIdentity>)
    ensures
        match who {
            Some(identity) => named_identity(commit@) == Some(identity@),
            None => named_identity(commit@) is None,
        },
{
    let name = commit.name_or_default();
    let email = commit.email_or_default();
    if !name.as_str().is_empty() && !email.as_str().is_empty() {
        Some(AuthorIdentity { name, email })
    } else {
        None
    }
}

/// Whether some identity among `seen` agrees with `who` up to letter case.
pub fn is_seen(seen: &Vec<AuthorIdentity>, who: &AuthorIdentity) -> (found: bool)
    ensures
        found == already_seen(identities_of(seen@), who@),
{
    let ghost all = identities_of(seen@);
    let mut i: usize = 0;
    while i < seen.len()
        invariant
            i <= seen.len(),
            all == identities_of(seen@),
            forall|j: int| 0 <= j < i ==> !same_identity(#[trigger] all[j], who@),
        decreases seen.len() - i,
    {
        if seen[i] == *who {
            assert(same_identity(all[i as int], who@));
            return true;
        }
        i = i + 1;
    }
    false
}

/// The identities that the commits of a repository name, each once.
pub fn collect_all_author_identities(commits: &Vec<CommitRecord>) -> (identities: Vec<
    AuthorIdentity,
>)
    ensures
        identities_of(identities@) == identities_named(commits_of(commits@)),
{
    let ghost walked = commits_of(commits@);
    let mut identities: Vec<AuthorIdentity> = Vec::new();
    let mut i: usize = 0;
    proof {
        assert(identities_of(identities@) =~= identities_named(walked.take(0)));
    }
    while i < commits.len()
        invariant
            i <= commits.len(),
            walked == commits_of(commits@),
            identities_of(identities@) == identities_named(walked.take(i as int)),
        decreases commits.len() - i,
    {
        proof {
            let next = walked.take(i + 1);
            assert(next.drop_last() =~= walked.take(i as int));
            assert(next.last() == commits[i as int]@);
        }
        match identity_of(&commits[i]) {
            Some(who) => {
                if !is_seen(&identities, &who) {
                    let ghost before = identities_of(identities@);
                    identities.push(who);
                    proof {
                        assert(identities_of(identities@) =~= before.push(who@));
                    }
                }
            },
            None => {},
        }
        i = i + 1;
    }
    proof {
        assert(walked.take(i as int) =~= walked);
    }
    identities
}

/// The identities seen so far with those among `found` that agree with
/// none before them, in order.
pub open spec fn with_unseen(
    seen: Seq<(Seq<char>, Seq<char>)>,
    found: Seq<(Seq<char>, Seq<char>)>,
) -> Seq<(Seq<char>, Seq<char>)>
    decreases found.len(),
{
    if found.len() == 0 {
        seen
    } else {
        let before = with_unseen(seen, found.drop_last());
        if already_seen(before, found.last()) {
            before
        } else {
            before.push(found.last())
        }
    }
}

/// Adds to the identities seen so far those among `found` that agree with
/// none before them up to letter case.
pub fn add_unseen_identities(seen: &mut Vec<AuthorIdentity>, found: Vec<AuthorIdentity>)
    ensures
        identities_of(final(seen)@) == with_unseen(
            identities_of(old(seen)@),
            identities_of(found@),
        ),
{
    let ghost start = identities_of(seen@);
    let ghost all = identities_of(found@);
    let mut i: usize = 0;
    proof {
        assert(start =~= with_unseen(start, all.take(0)));
    }
    while i < found.len()
        invariant
            i <= found.len(),
            all == identities_of(found@),
            identities_of(seen@) == with_unseen(start, all.take(i as int)),
        decreases found.len() - i,
    {
        proof {
            let next = all.take(i + 1);
            assert(next.drop_last() =~= all.take(i as int));
            assert(next.last() == found[i as int]@);
        }
        if !is_seen(seen, &found[i]) {
            let ghost before = identities_of(seen@);
            seen.push(AuthorIdentity { name: found[i].name.clone(), email: found[i].email.clone() });
            proof {
                assert(identities_of(seen@) =~= before.push(found[i as int]@));
            }
        }
        i = i + 1;
    }
    proof {
        assert(all.take(i as int) =~= all);
    }
}

/// The order of names: that of strings.
pub open spec fn by_text() -> spec_fn(Seq<char>, Seq<char>) -> bool {
    |a: Seq<char>, b: Seq<char>| text_less(a, b)
}

/// The names of the identities, in order.
pub open spec fn names_of(identities: Seq<(Seq<char>, Seq<char>)>) -> Seq<Seq<char>> {
    Seq::new(identities.len(), |i: int| identities[i].0)
}

/// The identities ordered by name; identities of the same name keep their
/// order.
pub open spec fn by_name(identities: Seq<(Seq<char>, Seq<char>)>) -> Seq<(Seq<char>, Seq<char>)> {
    let order = stable_order(names_of(identities), by_text());
    Seq::new(identities.len(), |k: int| identities[order[k]])
}

/// The order of strings is a strict weak order.
pub proof fn lemma_by_text_strict_weak()
    ensures
        strict_weak(by_text()),
{
    assert forall|a: Seq<char>, b: Seq<char>|
        !(#[trigger] by_text()(a, b) && by_text()(b, a)) by {
        lemma_text_less_asymmetric(a, b);
    }
    assert forall|a: Seq<char>, b: Seq<char>, c: Seq<char>|
        !(#[trigger] by_text()(a, b)) && !(#[trigger] by_text()(b, c)) implies !by_text()(
        a,
        c,
    ) by {
        lemma_text_less_negatively_transitive(a, b, c);
    }
}

/// Identities ordered by name stand in rising order of their names, those
/// of the same name in the order in which they came, and they are the
/// identities that were given.
pub proof fn identities_by_name_are_ordered(identities: Seq<(Seq<char>, Seq<char>)>)
    ensures
        by_name(identities).len() == identities.len(),
        forall|k: int, l: int|
            0 <= k < l < identities.len() ==> !text_less(
                (#[trigger] by_name(identities)[l]).0,
                (#[trigger] by_name(identities)[k]).0,
            ),
        forall|k: int|
            0 <= k < identities.len() ==> identities.contains(#[trigger] by_name(identities)[k]),
{
    let names = names_of(identities);
    let order = stable_order(names, by_text());
    lemma_by_text_strict_weak();
    lemma_stable_order(names, by_text());
    assert forall|k: int, l: int| 0 <= k < l < identities.len() implies !text_less(
        (#[trigger] by_name(identities)[l]).0,
        (#[trigger] by_name(identities)[k]).0,
    ) by {
        assert(!by_text()(names[order[l]], names[order[k]]));
    }
    assert forall|k: int| 0 <= k < identities.len() implies identities.contains(
        #[trigger] by_name(identities)[k],
    ) by {
        assert(identities[order[k]] == by_name(identities)[k]);
    }
}

/// Orders the indices of the names as strings are ordered; the same name
/// keeps its order.
fn name_order_of(names: &Vec<Vec<char>>) -> (order: Vec<usize>)
    ensures
        indices_of(order@) == stable_order(Seq::new(names.len() as nat, |i: int| names[i]@), by_text()),
        order.len() == names.len(),
        forall|k: int| 0 <= k < order.len() ==> #[trigger] order[k] < names.len(),
{
    let ghost keys = Seq::new(names.len() as nat, |i: int| names[i]@);
    let mut order: Vec<usize> = Vec::new();
    proof {
        assert(indices_of(order@) =~= stable_order(keys.take(0), by_text()));
    }
    let mut i: usize = 0;
    while i < names.len()
        invariant
            i <= names.len(),
            order.len() == i,
            keys == Seq::new(names.len() as nat, |i: int| names[i]@),
            indices_of(order@) == stable_order(keys.take(i as int), by_text()),
            forall|k: int| 0 <= k < order.len() ==> #[trigger] order[k] < i,
        decreases names.len() - i,
    {
        let ghost upto = keys.take(i + 1);
        let ghost before = indices_of(order@);
        let mut pos: usize = order.len();
        while pos > 0 && comes_before(&names[i], &names[order[pos - 1]])
            invariant
                pos <= order.len(),
                i < names.len(),
                order.len() == i,
                keys == Seq::new(names.len() as nat, |i: int| names[i]@),
                upto == keys.take(i + 1),
                before == indices_of(order@),
                forall|k: int| 0 <= k < order.len() ==> #[trigger] order[k] < i,
                forall|k: int|
                    pos <= k < before.len() ==> text_less(
                        upto[i as int],
                        upto[#[trigger] before[k]],
                    ),
            decreases pos,
        {
            proof {
                assert(before[pos - 1] == order[pos - 1]);
            }
            pos = pos - 1;
        }
        proof {
            if pos > 0 {
                assert(before[pos - 1] == order[pos - 1]);
            }
            assert(is_place(before, upto, i as int, pos as int, by_text()));
            lemma_insert_at_place(before, upto, i as int, pos as int, by_text());
            assert(upto.drop_last() =~= keys.take(i as int));
        }
        order.insert(pos, i);
        proof {
            assert(indices_of(order@) =~= before.insert(pos as int, i as int));
        }
        i = i + 1;
    }
    proof {
        assert(keys.take(i as int) =~= keys);
    }
    order
}

/// Orders identities by name; identities of the same name keep their order.
pub fn sort_by_name(identities: &Vec<AuthorIdentity>) -> (sorted: Vec<AuthorIdentity>)
    ensures
        identities_of(sorted@) == by_name(identities_of(identities@)),
{
    let ghost all = identities_of(identities@);
    let mut names: Vec<Vec<char>> = Vec::new();
    let mut i: usize = 0;
    while i < identities.len()
        invariant
            i <= identities.len(),
            names.len() == i,
            forall|j: int| 0 <= j < i ==> names[j]@ == identities[j].name@,
        decreases identities.len() - i,
    {
        names.push(chars_of(identities[i].name.as_str()));
        i = i + 1;
    }
    proof {
        assert(Seq::new(names.len() as nat, |i: int| names[i]@) =~= names_of(all));
    }
    let order = name_order_of(&names);
    let mut sorted: Vec<AuthorIdentity> = Vec::new();
    let mut k: usize = 0;
    while k < order.len()
        invariant
            k <= order.len(),
            order.len() == identities.len(),
            sorted.len() == k,
            forall|j: int| 0 <= j < order.len() ==> #[trigger] order[j] < identities.len(),
            forall|j: int| 0 <= j < k ==> sorted[j]@ == identities[order[j] as int]@,
        decreases order.len() - k,
    {
        let who = &identities[order[k]];
        sorted.push(AuthorIdentity { name: who.name.clone(), email: who.email.clone() });
        k = k + 1;
    }
    proof {
        let target = by_name(all);
        let ord = stable_order(names_of(all), by_text());
        assert forall|j: int| 0 <= j < sorted.len() implies identities_of(sorted@)[j]
            == target[j] by {
            assert(ord[j] == indices_of(order@)[j]);
        }
        assert(identities_of(sorted@) =~= target);
    }
    sorted
}

/// The alias table after the identities were recorded, one after the other.
pub open spec fn table_after_all(
    table: Seq<(Seq<char>, Seq<Seq<char>>)>,
    identities: Seq<(Seq<char>, Seq<char>)>,
) -> Seq<(Seq<char>, Seq<Seq<char>>)>
    decreases identities.len(),
{
    if identities.len() == 0 {
        table
    } else {
        table_after_recording(
            table_after_all(table, identities.drop_last()),
            identities.last().0,
            identities.last().1,
        )
    }
}

/// How many of the identities changed the alias table when they were
/// recorded, one after the other.
pub open spec fn additions_among(
    table: Seq<(Seq<char>, Seq<Seq<char>>)>,
    identities: Seq<(Seq<char>, Seq<char>)>,
) -> nat
    decreases identities.len(),
{
    if identities.len() == 0 {
        0
    } else {
        let before = table_after_all(table, identities.drop_last());
        additions_among(table, identities.drop_last()) + if recording_adds(
            before,
            identities.last().0,
            identities.last().1,
        ) {
            1nat
        } else {
            0nat
        }
    }
}

/// No more identities change the table than there are.
pub proof fn lemma_additions_bound(
    table: Seq<(Seq<char>, Seq<Seq<char>>)>,
    identities: Seq<(Seq<char>, Seq<char>)>,
)
    ensures
        additions_among(table, identities) <= identities.len(),
    decreases identities.len(),
{
    if identities.len() > 0 {
        lemma_additions_bound(table, identities.drop_last());
    }
}

/// Records the identities in the alias table, one after the other, and
/// counts those that changed it.
pub fn record_identities(user_aliases: &mut AliasTable, identities: &Vec<AuthorIdentity>) -> (added:
    usize)
    requires
        old(user_aliases).wf(),
    ensures
        final(user_aliases).wf(),
        final(user_aliases)@ == table_after_all(old(user_aliases)@, identities_of(identities@)),
        added == additions_among(old(user_aliases)@, identities_of(identities@)),
{
    let ghost start = user_aliases@;
    let ghost all = identities_of(identities@);
    let mut added: usize = 0;
    let mut i: usize = 0;
    while i < identities.len()
        invariant
            i <= identities.len(),
            all == identities_of(identities@),
            user_aliases.wf(),
            user_aliases@ == table_after_all(start, all.take(i as int)),
            added == additions_among(start, all.take(i as int)),
        decreases identities.len() - i,
    {
        proof {
            let next = all.take(i + 1);
            assert(next.drop_last() =~= all.take(i as int));
            assert(next.last() == identities[i as int]@);
            lemma_additions_bound(start, all.take(i as int));
        }
        let changed = user_aliases.add_unmapped_authors(
            identities[i].name.clone(),
            identities[i].email.clone(),
        );
        if changed {
            added = added + 1;
        }
        i = i + 1;
    }
    proof {
        assert(all.take(i as int) =~= all);
    }
    added
}

/// Records the identities seen in a pass, in the order of their names, and
/// counts those that changed the alias table.
pub fn add_all_unmapped_authors(user_aliases: &mut AliasTable, identities: &Vec<AuthorIdentity>) -> (added:
    usize)
    requires
        old(user_aliases).wf(),
    ensures
        final(user_aliases).wf(),
        final(user_aliases)@ == table_after_all(
            old(user_aliases)@,
            by_name(identities_of(identities@)),
        ),
        added == additions_among(old(user_aliases)@, by_name(identities_of(identities@))),
{
    let sorted = sort_by_name(identities);
    record_identities(user_aliases, &sorted)
}

/// How a pass fared on one repository.
#[derive(Debug, Clone, Copy, PartialEq, Eq, Structural)]
pub enum RepoOutcome {
    /// The repository's path does not exist.
    NotFound,
    /// The state was computed and saved.
    Refreshed { repaired: bool },
    /// The repository could not be read.
    Failed { repaired: bool },
}

/// The counts of a pass over all repositories.
#[derive(Debug, Clone, Copy, PartialEq, Eq, Structural)]
pub struct SyncReport {
    pub success_count: usize,
    pub error_count: usize,
    pub repair_count: usize,
}

impl RepoOutcome {
    /// The state was computed and saved.
    pub open spec fn succeeded(self) -> bool {
        self is Refreshed
    }

    /// The repair step repaired something.
    pub open spec fn was_repaired(self) -> bool {
        match self {
            RepoOutcome::NotFound => false,
            RepoOutcome::Refreshed { repaired } => repaired,
            RepoOutcome::Failed { repaired } => repaired,
        }
    }
}

/// How many of the outcomes meet the condition.
pub open spec fn count_where(outcomes: Seq<RepoOutcome>, pred: spec_fn(RepoOutcome) -> bool) -> nat
    decreases outcomes.len(),
{
    if outcomes.len() == 0 {
        0
    } else {
        count_where(outcomes.drop_last(), pred) + if pred(outcomes.last()) {
            1nat
        } else {
            0nat
        }
    }
}

/// No more outcomes meet a condition than there are.
pub proof fn lemma_count_bound(outcomes: Seq<RepoOutcome>, pred: spec_fn(RepoOutcome) -> bool)
    ensures
        count_where(outcomes, pred) <= outcomes.len(),
    decreases outcomes.len(),
{
    if outcomes.len() > 0 {
        lemma_count_bound(outcomes.drop_last(), pred);
    }
}

/// The report of a pass: how many repositories were refreshed, how many
/// were not (missing or unreadable), and how many the repair step repaired.
pub fn summarize(outcomes: &Vec<RepoOutcome>) -> (report: SyncReport)
    ensures
        report.success_count == count_where(outcomes@, |o: RepoOutcome| o.succeeded()),
        report.error_count == count_where(outcomes@, |o: RepoOutcome| !o.succeeded()),
        report.repair_count == count_where(outcomes@, |o: RepoOutcome| o.was_repaired()),
        report.success_count + report.error_count == outcomes.len(),
{
    let ghost ok = |o: RepoOutcome| o.succeeded();
    let ghost bad = |o: RepoOutcome| !o.succeeded();
    let ghost fixed = |o: RepoOutcome| o.was_repaired();
    let mut report = SyncReport { success_count: 0, error_count: 0, repair_count: 0 };
    let mut i: usize = 0;
    while i < outcomes.len()
        invariant
            i <= outcomes.len(),
            ok == |o: RepoOutcome| o.succeeded(),
            bad == |o: RepoOutcome| !o.succeeded(),
            fixed == |o: RepoOutcome| o.was_repaired(),
            report.success_count == count_where(outcomes@.take(i as int), ok),
            report.error_count == count_where(outcomes@.take(i as int), bad),
            report.repair_count == count_where(outcomes@.take(i as int), fixed),
            report.success_count + report.error_count == i,
        decreases outcomes.len() - i,
    {
        proof {
            let next = outcomes@.take(i + 1);
            assert(next.drop_last() =~= outcomes@.take(i as int));
            assert(next.last() == outcomes[i as int]);
            lemma_count_bound(outcomes@.take(i as int), fixed);
        }
        match outcomes[i] {
            RepoOutcome::NotFound => {
                report.error_count = report.error_count + 1;
            },
            RepoOutcome::Refreshed { repaired } => {
                report.success_count = report.success_count + 1;
                if repaired {
                    report.repair_count = report.repair_count + 1;
                }
            },
            RepoOutcome::Failed { repaired } => {
                report.error_count = report.error_count + 1;
                if repaired {
                    report.repair_count = report.repair_count + 1;
                }
            },
        }
        i = i + 1;
    }
    proof {
        assert(outcomes@.take(i as int) =~= outcomes@);
    }
    report
}

} // verus!
