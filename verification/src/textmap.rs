//! A map from text to text that remembers the order in which keys came.

use crate::text::same_text;
use vstd::prelude::*;

verus! {

/// One key with its value.
#[derive(Debug, Clone)]
pub struct TextEntry {
    pub key: String,
    pub value: String,
}

/// A map from text to text. No key stands in it twice; keys keep the order
/// in which they were first set.
#[derive(Debug, Clone)]
pub struct TextMap {
    entries: Vec<TextEntry>,
}

impl View for TextMap {
    type V = Seq<(Seq<char>, Seq<char>)>;

    closed spec fn view(&self) -> Seq<(Seq<char>, Seq<char>)> {
        Seq::new(self.entries.len() as nat, |i: int| (self.entries[i].key@, self.entries[i].value@))
    }
}

/// No key stands in the pairs twice.
pub open spec fn distinct_keys(pairs: Seq<(Seq<char>, Seq<char>)>) -> bool {
    forall|i: int, j: int| 0 <= i < j < pairs.len() ==> pairs[i].0 != pairs[j].0
}

/// Position of a key in the pairs, or their length.
pub open spec fn position_of_key(pairs: Seq<(Seq<char>, Seq<char>)>, key: Seq<char>) -> int
    decreases pairs.len(),
{
    if pairs.len() == 0 {
        0
    } else {
        let m = position_of_key(pairs.drop_last(), key);
        if m < pairs.len() - 1 {
            m
        } else if pairs.last().0 == key {
            pairs.len() - 1
        } else {
            pairs.len() as int
        }
    }
}

/// The value that the pairs hold for a key.
pub open spec fn value_of(pairs: Seq<(Seq<char>, Seq<char>)>, key: Seq<char>) -> Option<Seq<char>> {
    let i = position_of_key(pairs, key);
    if i < pairs.len() {
        Some(pairs[i].1)
    } else {
        None
    }
}

/// The pairs with `key` set to `value`: in place where the key is held,
/// else at the end.
pub open spec fn with_value(
    pairs: Seq<(Seq<char>, Seq<char>)>,
    key: Seq<char>,
    value: Seq<char>,
) -> Seq<(Seq<char>, Seq<char>)> {
    let i = position_of_key(pairs, key);
    if i < pairs.len() {
        pairs.update(i, (key, value))
    } else {
        pairs.push((key, value))
    }
}

/// The pairs with `key` set to `value` unless the key is held already.
pub open spec fn with_default(
    pairs: Seq<(Seq<char>, Seq<char>)>,
    key: Seq<char>,
    value: Seq<char>,
) -> Seq<(Seq<char>, Seq<char>)> {
    if position_of_key(pairs, key) < pairs.len() {
        pairs
    } else {
        pairs.push((key, value))
    }
}

/// `position_of_key` is the least index that holds the key.
pub proof fn lemma_position_of_key(pairs: Seq<(Seq<char>, Seq<char>)>, key: Seq<char>)
    ensures
        0 <= position_of_key(pairs, key) <= pairs.len(),
        position_of_key(pairs, key) < pairs.len() ==> pairs[position_of_key(pairs, key)].0 == key,
        forall|j: int| 0 <= j < position_of_key(pairs, key) ==> pairs[j].0 != key,
    decreases pairs.len(),
{
    if pairs.len() > 0 {
        let init = pairs.drop_last();
        lemma_position_of_key(init, key);
        assert(forall|j: int| 0 <= j < init.len() ==> init[j] == pairs[j]);
    }
}

/// Setting a key makes it hold the value, leaves every other key alone and
/// keeps keys distinct.
pub proof fn lemma_with_value(
    pairs: Seq<(Seq<char>, Seq<char>)>,
    key: Seq<char>,
    value: Seq<char>,
    other: Seq<char>,
)
    requires
        distinct_keys(pairs),
    ensures
        distinct_keys(with_value(pairs, key, value)),
        value_of(with_value(pairs, key, value), key) == Some(value),
        other != key ==> value_of(with_value(pairs, key, value), other) == value_of(pairs, other),
{
    let after = with_value(pairs, key, value);
    lemma_position_of_key(pairs, key);
    lemma_position_of_key(pairs, other);
    lemma_position_of_key(after, key);
    lemma_position_of_key(after, other);
    let i = position_of_key(pairs, key);
    let ia = position_of_key(after, key);
    assert(after[i].0 == key);
    if ia < i {
        assert(pairs[ia].0 == key);
    }
    if other != key {
        let po = position_of_key(pairs, other);
        let pa = position_of_key(after, other);
        if po < pairs.len() {
            assert(after[po].0 == other);
            if pa < po {
                assert(pairs[pa].0 == other);
            }
        } else if pa < after.len() {
            if pa < pairs.len() {
                assert(pairs[pa].0 == other);
            }
        }
    }
}

impl TextMap {
    /// The map's invariant: no key stands in it twice.
    pub open spec fn wf(&self) -> bool {
        distinct_keys(self@)
    }

    /// The empty map.
    pub fn new() -> (map: TextMap)
        ensures
            map@ == Seq::<(Seq<char>, Seq<char>)>::empty(),
            map.wf(),
    {
        let map = TextMap { entries: Vec::new() };
        proof {
            assert(map@ =~= Seq::<(Seq<char>, Seq<char>)>::empty());
        }
        map
    }

    /// Number of keys.
    pub fn len(&self) -> (n: usize)
        ensures
            n == self@.len(),
    {
        self.entries.len()
    }

    /// Whether the map holds no key.
    pub fn is_empty(&self) -> (empty: bool)
        ensures
            empty == (self@.len() == 0),
    {
        self.entries.len() == 0
    }

    /// The entry at position `i`.
    pub fn entry(&self, i: usize) -> (e: &TextEntry)
        requires
            i < self@.len(),
        ensures
            (e.key@, e.value@) == self@[i as int],
    {
        &self.entries[i]
    }

    /// Position of a key.
    fn find(&self, key: &str) -> (pos: Option<usize>)
        ensures
            match pos {
                Some(i) => i < self@.len() && i == position_of_key(self@, key@),
                None => position_of_key(self@, key@) == self@.len(),
            },
    {
        let mut i: usize = 0;
        while i < self.entries.len()
            invariant
                i <= self.entries.len(),
                forall|j: int| 0 <= j < i ==> self@[j].0 != key@,
            decreases self.entries.len() - i,
        {
            if same_text(self.entries[i].key.as_str(), key) {
                proof {
                    lemma_position_of_key(self@, key@);
                    assert(self@[i as int].0 == key@);
                }
                return Some(i);
            }
            i = i + 1;
        }
        proof {
            lemma_position_of_key(self@, key@);
        }
        None
    }

    /// The value of a key, if the map holds it.
    pub fn get(&self, key: &str) -> (found: Option<&String>)
        ensures
            match found {
                Some(value) => value_of(self@, key@) == Some(value@),
                None => value_of(self@, key@) is None,
            },
    {
        match self.find(key) {
            Some(i) => Some(&self.entries[i].value),
            None => None,
        }
    }

    /// Whether the map holds a key.
    pub fn contains_key(&self, key: &str) -> (held: bool)
        ensures
            held == (value_of(self@, key@) is Some),
    {
        self.find(key).is_some()
    }

    /// Sets a key to a value, in place of the value it had.
    pub fn insert(&mut self, key: String, value: String)
        requires
            old(self).wf(),
        ensures
            final(self)@ == with_value(old(self)@, key@, value@),
            final(self).wf(),
    {
        let ghost before = self@;
        proof {
            lemma_with_value(before, key@, value@, key@);
        }
        match self.find(key.as_str()) {
            Some(i) => {
                self.entries.set(i, TextEntry { key, value });
                proof {
                    assert(self@ =~= before.update(i as int, (key@, value@)));
                }
            },
            None => {
                self.entries.push(TextEntry { key, value });
                proof {
                    assert(self@ =~= before.push((key@, value@)));
                }
            },
        }
    }

    /// Sets a key to a value unless the map holds the key already.
    pub fn insert_if_absent(&mut self, key: String, value: String)
        requires
            old(self).wf(),
        ensures
            final(self)@ == with_default(old(self)@, key@, value@),
            final(self).wf(),
    {
        let ghost before = self@;
        proof {
            lemma_with_value(before, key@, value@, key@);
        }
        if !self.contains_key(key.as_str()) {
            self.entries.push(TextEntry { key, value });
            proof {
                assert(self@ =~= before.push((key@, value@)));
            }
        }
    }
}

} // verus!
