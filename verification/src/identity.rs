//! Contributor identities: the alias table that maps the many spellings of an
//! author's name and e-mail address to one canonical name.

use crate::text::{lowercase, lowercase_of, same_ignoring_case, texts_of};
use vstd::prelude::*;

verus! {

/// A canonical contributor name with the other names and e-mail addresses
/// that are known to mean the same person.
#[derive(Debug, Clone)]
pub struct UserAliases {
    pub canonical: String,
    pub aliases: Vec<String>,
}

/// The alias table. Entries keep the order in which they were added, and no
/// canonical name stands in it twice.
#[derive(Debug, Clone)]
pub struct AliasTable {
    entries: Vec<UserAliases>,
}

impl View for UserAliases {
    type V = (Seq<char>, Seq<Seq<char>>);

    open spec fn view(&self) -> (Seq<char>, Seq<Seq<char>>) {
        (self.canonical@, texts_of(self.aliases@))
    }
}

impl View for AliasTable {
    type V = Seq<(Seq<char>, Seq<Seq<char>>)>;

    closed spec fn view(&self) -> Seq<(Seq<char>, Seq<Seq<char>>)> {
        Seq::new(self.entries.len() as nat, |i: int| self.entries[i]@)
    }
}

/// No canonical name stands in the table twice.
pub open spec fn distinct_canonicals(table: Seq<(Seq<char>, Seq<Seq<char>>)>) -> bool {
    forall|i: int, j: int| 0 <= i < j < table.len() ==> table[i].0 != table[j].0
}

/// Some alias has the lowercase form `lower`.
pub open spec fn any_alias_is(aliases: Seq<Seq<char>>, lower: Seq<char>) -> bool {
    exists|k: int| 0 <= k < aliases.len() && lowercase_of(#[trigger] aliases[k]) == lower
}

/// The entry's canonical name or one of its aliases has the lowercase form
/// `lower`.
pub open spec fn entry_matches(entry: (Seq<char>, Seq<Seq<char>>), lower: Seq<char>) -> bool {
    lowercase_of(entry.0) == lower || any_alias_is(entry.1, lower)
}

/// Index of the first entry that matches `lower`, or the table's length.
pub open spec fn first_match(table: Seq<(Seq<char>, Seq<Seq<char>>)>, lower: Seq<char>) -> int
    decreases table.len(),
{
    if table.len() == 0 {
        0
    } else {
        let m = first_match(table.drop_last(), lower);
        if m < table.len() - 1 {
            m
        } else if entry_matches(table.last(), lower) {
            table.len() - 1
        } else {
            table.len() as int
        }
    }
}

/// The canonical name of an identity: that of the first entry whose name or
/// alias equals it up to letter case, or the identity itself.
pub open spec fn normalized(table: Seq<(Seq<char>, Seq<Seq<char>>)>, who: Seq<char>) -> Seq<char> {
    let i = first_match(table, lowercase_of(who));
    if i < table.len() {
        table[i].0
    } else {
        who
    }
}

/// Some entry of the table matches the identity.
pub open spec fn is_known(table: Seq<(Seq<char>, Seq<Seq<char>>)>, who: Seq<char>) -> bool {
    first_match(table, lowercase_of(who)) < table.len()
}

/// The entry knows the name, as canonical name or alias, or knows the e-mail
/// address as an alias.
pub open spec fn entry_maps(
    entry: (Seq<char>, Seq<Seq<char>>),
    name_lower: Seq<char>,
    email_lower: Seq<char>,
) -> bool {
    entry_matches(entry, name_lower) || any_alias_is(entry.1, email_lower)
}

/// Some entry of the table knows the name or the e-mail address.
pub open spec fn author_mapped(
    table: Seq<(Seq<char>, Seq<Seq<char>>)>,
    name: Seq<char>,
    email: Seq<char>,
) -> bool {
    exists|i: int|
        0 <= i < table.len() && entry_maps(
            #[trigger] table[i],
            lowercase_of(name),
            lowercase_of(email),
        )
}

/// The entry is the one a newly seen author belongs to: it knows the name,
/// or the e-mail address is not empty and the entry knows it as an alias.
pub open spec fn entry_claims(
    entry: (Seq<char>, Seq<Seq<char>>),
    name_lower: Seq<char>,
    email_lower: Seq<char>,
) -> bool {
    entry_matches(entry, name_lower) || (email_lower.len() > 0 && any_alias_is(
        entry.1,
        email_lower,
    ))
}

/// Index of the first entry that claims the author, or the table's length.
pub open spec fn first_claim(
    table: Seq<(Seq<char>, Seq<Seq<char>>)>,
    name_lower: Seq<char>,
    email_lower: Seq<char>,
) -> int
    decreases table.len(),
{
    if table.len() == 0 {
        0
    } else {
        let m = first_claim(table.drop_last(), name_lower, email_lower);
        if m < table.len() - 1 {
            m
        } else if entry_claims(table.last(), name_lower, email_lower) {
            table.len() - 1
        } else {
            table.len() as int
        }
    }
}

/// The table with one more alias at the end of entry `i`.
pub open spec fn with_alias(
    table: Seq<(Seq<char>, Seq<Seq<char>>)>,
    i: int,
    alias: Seq<char>,
) -> Seq<(Seq<char>, Seq<Seq<char>>)> {
    table.update(i, (table[i].0, table[i].1.push(alias)))
}

/// Whether recording the author changes the table.
pub open spec fn recording_adds(
    table: Seq<(Seq<char>, Seq<Seq<char>>)>,
    name: Seq<char>,
    email: Seq<char>,
) -> bool {
    let name_lower = lowercase_of(name);
    let email_lower = lowercase_of(email);
    let i = first_claim(table, name_lower, email_lower);
    i < table.len() && entry_matches(table[i], name_lower) ==> email_lower.len() > 0
        && !any_alias_is(table[i].1, email_lower)
}

/// The table after a newly seen author was recorded. Where an entry claims
/// the author, whichever of name and e-mail address it lacks becomes a new
/// alias of it; where none does, the author becomes a new entry under their
/// name, with the e-mail address as its first alias.
pub open spec fn table_after_recording(
    table: Seq<(Seq<char>, Seq<Seq<char>>)>,
    name: Seq<char>,
    email: Seq<char>,
) -> Seq<(Seq<char>, Seq<Seq<char>>)> {
    let name_lower = lowercase_of(name);
    let email_lower = lowercase_of(email);
    let i = first_claim(table, name_lower, email_lower);
    if i >= table.len() {
        table.push((name, seq![email]))
    } else if !entry_matches(table[i], name_lower) {
        with_alias(table, i, name)
    } else if email_lower.len() > 0 && !any_alias_is(table[i].1, email_lower) {
        with_alias(table, i, email)
    } else {
        table
    }
}

/// Position of the entry with exactly this canonical name, or the table's
/// length.
pub open spec fn canonical_index(table: Seq<(Seq<char>, Seq<Seq<char>>)>, canonical: Seq<char>) -> int
    decreases table.len(),
{
    if table.len() == 0 {
        0
    } else {
        let m = canonical_index(table.drop_last(), canonical);
        if m < table.len() - 1 {
            m
        } else if table.last().0 == canonical {
            table.len() - 1
        } else {
            table.len() as int
        }
    }
}

/// Some entry has exactly this canonical name.
pub open spec fn holds_canonical(table: Seq<(Seq<char>, Seq<Seq<char>>)>, canonical: Seq<char>) -> bool {
    canonical_index(table, canonical) < table.len()
}

/// The table with the aliases of a canonical name set: in place of those of
/// the entry with exactly this name, or as a new entry at the end.
pub open spec fn with_entry(
    table: Seq<(Seq<char>, Seq<Seq<char>>)>,
    canonical: Seq<char>,
    aliases: Seq<Seq<char>>,
) -> Seq<(Seq<char>, Seq<Seq<char>>)> {
    let i = canonical_index(table, canonical);
    if i < table.len() {
        table.update(i, (canonical, aliases))
    } else {
        table.push((canonical, aliases))
    }
}

/// `canonical_index` is the least index of an entry of that name.
pub proof fn lemma_canonical_index(table: Seq<(Seq<char>, Seq<Seq<char>>)>, canonical: Seq<char>)
    ensures
        0 <= canonical_index(table, canonical) <= table.len(),
        canonical_index(table, canonical) < table.len() ==> table[canonical_index(
            table,
            canonical,
        )].0 == canonical,
        forall|j: int| 0 <= j < canonical_index(table, canonical) ==> table[j].0 != canonical,
    decreases table.len(),
{
    if table.len() > 0 {
        let init = table.drop_last();
        lemma_canonical_index(init, canonical);
        assert(forall|j: int| 0 <= j < init.len() ==> init[j] == table[j]);
    }
}

/// The table with one more entry at the end, unless it holds an entry with
/// exactly this canonical name.
pub open spec fn with_entry_if_absent(
    table: Seq<(Seq<char>, Seq<Seq<char>>)>,
    canonical: Seq<char>,
    aliases: Seq<Seq<char>>,
) -> Seq<(Seq<char>, Seq<Seq<char>>)> {
    if holds_canonical(table, canonical) {
        table
    } else {
        table.push((canonical, aliases))
    }
}

/// `first_match` is the least index of a matching entry.
pub proof fn lemma_first_match(table: Seq<(Seq<char>, Seq<Seq<char>>)>, lower: Seq<char>)
    ensures
        0 <= first_match(table, lower) <= table.len(),
        first_match(table, lower) < table.len() ==> entry_matches(
            table[first_match(table, lower)],
            lower,
        ),
        forall|j: int| 0 <= j < first_match(table, lower) ==> !entry_matches(table[j], lower),
    decreases table.len(),
{
    if table.len() > 0 {
        let init = table.drop_last();
        lemma_first_match(init, lower);
        assert(forall|j: int| 0 <= j < init.len() ==> init[j] == table[j]);
    }
}

/// `first_claim` is the least index of a claiming entry.
pub proof fn lemma_first_claim(
    table: Seq<(Seq<char>, Seq<Seq<char>>)>,
    name_lower: Seq<char>,
    email_lower: Seq<char>,
)
    ensures
        0 <= first_claim(table, name_lower, email_lower) <= table.len(),
        first_claim(table, name_lower, email_lower) < table.len() ==> entry_claims(
            table[first_claim(table, name_lower, email_lower)],
            name_lower,
            email_lower,
        ),
        forall|j: int|
            0 <= j < first_claim(table, name_lower, email_lower) ==> !entry_claims(
                table[j],
                name_lower,
                email_lower,
            ),
    decreases table.len(),
{
    if table.len() > 0 {
        let init = table.drop_last();
        lemma_first_claim(init, name_lower, email_lower);
        assert(forall|j: int| 0 <= j < init.len() ==> init[j] == table[j]);
    }
}

/// Identities that agree up to letter case have the same canonical name
/// whenever the table knows either of them.
pub proof fn normalization_ignores_case(
    table: Seq<(Seq<char>, Seq<Seq<char>>)>,
    a: Seq<char>,
    b: Seq<char>,
)
    requires
        same_ignoring_case(a, b),
        is_known(table, a) || is_known(table, b),
    ensures
        is_known(table, a) && is_known(table, b),
        normalized(table, a) == normalized(table, b),
{
}

/// An identity that is itself a canonical name or an alias in the table is
/// known to it, in any letter case.
pub proof fn listed_identity_is_known(
    table: Seq<(Seq<char>, Seq<Seq<char>>)>,
    i: int,
    who: Seq<char>,
)
    requires
        0 <= i < table.len(),
        entry_matches(table[i], lowercase_of(who)),
    ensures
        is_known(table, who),
        first_match(table, lowercase_of(who)) <= i,
{
    lemma_first_match(table, lowercase_of(who));
}

/// Whether some alias has the lowercase form `lower`.
pub fn alias_is(aliases: &Vec<String>, lower: &String) -> (found: bool)
    ensures
        found == any_alias_is(texts_of(aliases@), lower@),
{
    let ghost texts = texts_of(aliases@);
    let mut k: usize = 0;
    while k < aliases.len()
        invariant
            k <= aliases.len(),
            texts == texts_of(aliases@),
            forall|j: int| 0 <= j < k ==> lowercase_of(#[trigger] texts[j]) != lower@,
        decreases aliases.len() - k,
    {
        let alias_lower = lowercase(aliases[k].as_str());
        if alias_lower == *lower {
            assert(lowercase_of(texts[k as int]) == lower@);
            return true;
        }
        k = k + 1;
    }
    false
}

impl UserAliases {
    /// Whether the canonical name or an alias has the lowercase form `lower`.
    pub fn matches(&self, lower: &String) -> (found: bool)
        ensures
            found == entry_matches(self@, lower@),
    {
        let canonical_lower = lowercase(self.canonical.as_str());
        if canonical_lower == *lower {
            return true;
        }
        alias_is(&self.aliases, lower)
    }
}

impl AliasTable {
    /// The table's invariant: no canonical name stands in it twice.
    pub open spec fn wf(&self) -> bool {
        distinct_canonicals(self@)
    }

    /// The empty table.
    pub fn new() -> (table: AliasTable)
        ensures
            table@ == Seq::<(Seq<char>, Seq<Seq<char>>)>::empty(),
            table.wf(),
    {
        let table = AliasTable { entries: Vec::new() };
        proof {
            assert(table@ =~= Seq::<(Seq<char>, Seq<Seq<char>>)>::empty());
        }
        table
    }

    /// Number of entries.
    pub fn len(&self) -> (n: usize)
        ensures
            n == self@.len(),
    {
        self.entries.len()
    }

    /// The entry at position `i`.
    pub fn entry(&self, i: usize) -> (e: &UserAliases)
        requires
            i < self@.len(),
        ensures
            e@ == self@[i as int],
    {
        &self.entries[i]
    }

    /// Position of the entry with exactly this canonical name.
    pub fn position_of(&self, canonical: &str) -> (pos: Option<usize>)
        ensures
            match pos {
                Some(i) => i < self@.len() && i == canonical_index(self@, canonical@),
                None => canonical_index(self@, canonical@) == self@.len(),
            },
    {
        let wanted = canonical.to_owned();
        let mut i: usize = 0;
        while i < self.entries.len()
            invariant
                i <= self.entries.len(),
                wanted@ == canonical@,
                forall|j: int| 0 <= j < i ==> self@[j].0 != canonical@,
            decreases self.entries.len() - i,
        {
            if self.entries[i].canonical == wanted {
                proof {
                    lemma_canonical_index(self@, canonical@);
                    assert(self@[i as int].0 == canonical@);
                }
                return Some(i);
            }
            i = i + 1;
        }
        proof {
            lemma_canonical_index(self@, canonical@);
        }
        None
    }

    /// Sets the aliases of a canonical name: replaces those of the entry with
    /// exactly this name, or adds a new entry at the end.
    pub fn insert(&mut self, canonical: String, aliases: Vec<String>)
        requires
            old(self).wf(),
        ensures
            final(self).wf(),
            final(self)@ == with_entry(old(self)@, canonical@, texts_of(aliases@)),
    {
        let ghost before = self@;
        proof {
            lemma_canonical_index(before, canonical@);
        }
        let pos = self.position_of(canonical.as_str());
        let entry = UserAliases { canonical, aliases };
        match pos {
            Some(i) => {
                self.entries.set(i, entry);
                proof {
                    assert(self@ =~= before.update(i as int, entry@));
                }
            },
            None => {
                self.entries.push(entry);
                proof {
                    assert(self@ =~= before.push(entry@));
                }
            },
        }
    }

    /// Adds an entry for a canonical name unless the table holds an entry
    /// with exactly this name already.
    pub fn insert_if_absent(&mut self, canonical: String, aliases: Vec<String>)
        requires
            old(self).wf(),
        ensures
            final(self).wf(),
            final(self)@ == with_entry_if_absent(old(self)@, canonical@, texts_of(aliases@)),
    {
        let ghost before = self@;
        proof {
            lemma_canonical_index(before, canonical@);
        }
        match self.position_of(canonical.as_str()) {
            Some(_) => {},
            None => {
                let entry = UserAliases { canonical, aliases };
                self.entries.push(entry);
                proof {
                    assert(self@ =~= before.push(entry@));
                }
            },
        }
    }

    /// The canonical name of an identity: that of the first entry whose name
    /// or alias equals it up to letter case, or the identity unchanged.
    pub fn normalize(&self, who: &str) -> (canonical: String)
        ensures
            canonical@ == normalized(self@, who@),
    {
        let lower = lowercase(who);
        let mut i: usize = 0;
        while i < self.entries.len()
            invariant
                i <= self.entries.len(),
                lower@ == lowercase_of(who@),
                forall|j: int| 0 <= j < i ==> !entry_matches(self@[j], lower@),
            decreases self.entries.len() - i,
        {
            if self.entries[i].matches(&lower) {
                proof {
                    lemma_first_match(self@, lower@);
                    assert(entry_matches(self@[i as int], lower@));
                }
                return self.entries[i].canonical.clone();
            }
            i = i + 1;
        }
        proof {
            lemma_first_match(self@, lower@);
        }
        who.to_owned()
    }

    /// Whether some entry knows the name, as canonical name or alias, or knows
    /// the e-mail address as an alias.
    pub fn is_author_mapped(&self, name: &str, email: &str) -> (mapped: bool)
        ensures
            mapped == author_mapped(self@, name@, email@),
    {
        let name_lower = lowercase(name);
        let email_lower = lowercase(email);
        let mut i: usize = 0;
        while i < self.entries.len()
            invariant
                i <= self.entries.len(),
                name_lower@ == lowercase_of(name@),
                email_lower@ == lowercase_of(email@),
                forall|j: int| 0 <= j < i ==> !entry_maps(self@[j], name_lower@, email_lower@),
            decreases self.entries.len() - i,
        {
            if self.entries[i].matches(&name_lower) {
                assert(entry_maps(self@[i as int], name_lower@, email_lower@));
                return true;
            }
            if alias_is(&self.entries[i].aliases, &email_lower) {
                assert(entry_maps(self@[i as int], name_lower@, email_lower@));
                return true;
            }
            i = i + 1;
        }
        false
    }

    /// Position of the first entry that claims the author.
    fn claiming_entry(&self, name_lower: &String, email_lower: &String) -> (pos: Option<usize>)
        ensures
            match pos {
                Some(i) => i == first_claim(self@, name_lower@, email_lower@) && i < self@.len(),
                None => first_claim(self@, name_lower@, email_lower@) == self@.len(),
            },
    {
        let has_email = !email_lower.as_str().is_empty();
        let mut i: usize = 0;
        while i < self.entries.len()
            invariant
                i <= self.entries.len(),
                has_email == (email_lower@.len() > 0),
                forall|j: int| 0 <= j < i ==> !entry_claims(self@[j], name_lower@, email_lower@),
            decreases self.entries.len() - i,
        {
            if self.entries[i].matches(name_lower) || (has_email && alias_is(
                &self.entries[i].aliases,
                email_lower,
            )) {
                proof {
                    lemma_first_claim(self@, name_lower@, email_lower@);
                    assert(entry_claims(self@[i as int], name_lower@, email_lower@));
                }
                return Some(i);
            }
            i = i + 1;
        }
        proof {
            lemma_first_claim(self@, name_lower@, email_lower@);
        }
        None
    }

    /// Adds one alias at the end of entry `i`.
    fn push_alias(&mut self, i: usize, alias: String)
        requires
            i < old(self)@.len(),
            old(self).wf(),
        ensures
            final(self)@ == with_alias(old(self)@, i as int, alias@),
            final(self).wf(),
    {
        let ghost before = self@;
        let mut entry = self.entries.remove(i);
        let ghost aliases_before = entry.aliases@;
        entry.aliases.push(alias);
        proof {
            assert(texts_of(entry.aliases@) =~= texts_of(aliases_before).push(alias@));
        }
        self.entries.insert(i, entry);
        proof {
            assert(self@ =~= with_alias(before, i as int, alias@));
        }
    }

    /// Records a newly seen author. Where an entry claims the author (it knows
    /// the name, or the e-mail address is not empty and the entry knows it),
    /// whichever of the two it lacks becomes a new alias of the first such
    /// entry; where none does, the author becomes a new entry under their
    /// name with the e-mail address as its first alias. Returns whether the
    /// table changed.
    pub fn add_unmapped_authors(&mut self, name: String, email: String) -> (added: bool)
        requires
            old(self).wf(),
        ensures
            final(self).wf(),
            final(self)@ == table_after_recording(old(self)@, name@, email@),
            added == recording_adds(old(self)@, name@, email@),
    {
        let name_lower = lowercase(name.as_str());
        let email_lower = lowercase(email.as_str());
        let ghost before = self@;
        match self.claiming_entry(&name_lower, &email_lower) {
            Some(i) => {
                if !self.entries[i].matches(&name_lower) {
                    self.push_alias(i, name);
                    true
                } else if !email_lower.as_str().is_empty() && !alias_is(
                    &self.entries[i].aliases,
                    &email_lower,
                ) {
                    self.push_alias(i, email);
                    true
                } else {
                    false
                }
            },
            None => {
                proof {
                    lemma_first_claim(before, name_lower@, email_lower@);
                    assert forall|j: int| 0 <= j < before.len() implies before[j].0 != name@ by {
                        assert(!entry_claims(before[j], name_lower@, email_lower@));
                    }
                }
                let mut aliases: Vec<String> = Vec::new();
                aliases.push(email);
                let entry = UserAliases { canonical: name, aliases };
                self.entries.push(entry);
                proof {
                    assert(texts_of(entry.aliases@) =~= seq![email@]);
                    assert(self@ =~= before.push((name@, seq![email@])));
                }
                true
            },
        }
    }
}

/// The canonical name of an author in the given alias table.
pub fn normalize_author(author: &str, user_aliases: &AliasTable) -> (canonical: String)
    ensures
        canonical@ == normalized(user_aliases@, author@),
{
    user_aliases.normalize(author)
}

} // verus!
