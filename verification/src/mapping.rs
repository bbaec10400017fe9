//! The mapping from key to value that a store holds in memory.
//!
//! It is kept as a list of entries in which no key occurs twice. The list's
//! order is the order in which the entries are handed out and written.

use crate::format::pairs_view;
use vstd::prelude::*;

verus! {

/// Some entry has the key.
pub open spec fn has_key(entries: Seq<(Seq<char>, Seq<char>)>, key: Seq<char>) -> bool {
    exists|i: int| 0 <= i < entries.len() && (#[trigger] entries[i]).0 == key
}

/// Where an entry with the key stands.
pub open spec fn index_of_key(entries: Seq<(Seq<char>, Seq<char>)>, key: Seq<char>) -> int {
    choose|i: int| 0 <= i < entries.len() && (#[trigger] entries[i]).0 == key
}

/// The value of an entry with the key.
pub open spec fn value_of(entries: Seq<(Seq<char>, Seq<char>)>, key: Seq<char>) -> Seq<char> {
    entries[index_of_key(entries, key)].1
}

/// No key occurs twice.
pub open spec fn distinct_keys(entries: Seq<(Seq<char>, Seq<char>)>) -> bool {
    forall|i: int, j: int|
        0 <= i < j < entries.len() ==> (#[trigger] entries[i]).0 != (#[trigger] entries[j]).0
}

/// The mapping that the entries list.
pub open spec fn as_map(entries: Seq<(Seq<char>, Seq<char>)>) -> Map<Seq<char>, Seq<char>> {
    Map::new(|key: Seq<char>| has_key(entries, key), |key: Seq<char>| value_of(entries, key))
}

/// The entries once `key` maps to `value`: the entry of the key gets the
/// value, and stays where it is; a new key comes last.
pub open spec fn inserted(
    entries: Seq<(Seq<char>, Seq<char>)>,
    key: Seq<char>,
    value: Seq<char>,
) -> Seq<(Seq<char>, Seq<char>)> {
    if has_key(entries, key) {
        entries.update(index_of_key(entries, key), (key, value))
    } else {
        entries.push((key, value))
    }
}

/// The entries without the one of `key`.
pub open spec fn removed(entries: Seq<(Seq<char>, Seq<char>)>, key: Seq<char>) -> Seq<
    (Seq<char>, Seq<char>),
> {
    if has_key(entries, key) {
        entries.remove(index_of_key(entries, key))
    } else {
        entries
    }
}

/// The entries that a list of records leaves when they are inserted one
/// after another: of two records with one key the later one counts.
pub open spec fn collected(records: Seq<(Seq<char>, Seq<char>)>) -> Seq<(Seq<char>, Seq<char>)>
    decreases records.len(),
{
    if records.len() == 0 {
        Seq::empty()
    } else {
        inserted(collected(records.drop_last()), records.last().0, records.last().1)
    }
}

/// In entries with distinct keys, an entry is found under its key.
pub proof fn lemma_index_of_key(entries: Seq<(Seq<char>, Seq<char>)>, i: int)
    requires
        distinct_keys(entries),
        0 <= i < entries.len(),
    ensures
        has_key(entries, entries[i].0),
        index_of_key(entries, entries[i].0) == i,
        value_of(entries, entries[i].0) == entries[i].1,
{
    let j = index_of_key(entries, entries[i].0);
    assert(entries[j].0 == entries[i].0);
}

/// Inserting keeps the keys distinct and changes the mapping at the key
/// alone.
pub proof fn lemma_inserted(entries: Seq<(Seq<char>, Seq<char>)>, key: Seq<char>, value: Seq<char>)
    requires
        distinct_keys(entries),
    ensures
        distinct_keys(inserted(entries, key, value)),
        as_map(inserted(entries, key, value)) == as_map(entries).insert(key, value),
{
    let after = inserted(entries, key, value);
    let at = if has_key(entries, key) {
        index_of_key(entries, key)
    } else {
        entries.len() as int
    };
    assert(after[at] == (key, value));
    assert forall|i: int| 0 <= i < after.len() && i != at implies #[trigger] after[i]
        == entries[i] && after[i].0 != key by {}
    assert forall|k: Seq<char>| #[trigger] has_key(after, k) == (k == key || has_key(entries, k)) by {
        if has_key(after, k) {
            let i = index_of_key(after, k);
            if i != at {
                assert(entries[i].0 == k);
            }
        }
        if has_key(entries, k) {
            let i = index_of_key(entries, k);
            assert(after[i].0 == k);
        }
    }
    assert forall|k: Seq<char>| has_key(after, k) implies #[trigger] value_of(after, k) == (if k
        == key {
        value
    } else {
        value_of(entries, k)
    }) by {
        let i = index_of_key(after, k);
        lemma_index_of_key(after, i);
        if k != key {
            lemma_index_of_key(entries, i);
        }
    }
    assert(as_map(after) =~= as_map(entries).insert(key, value));
}

/// Removing keeps the keys distinct and takes the key, and nothing else,
/// out of the mapping.
pub proof fn lemma_removed(entries: Seq<(Seq<char>, Seq<char>)>, key: Seq<char>)
    requires
        distinct_keys(entries),
    ensures
        distinct_keys(removed(entries, key)),
        as_map(removed(entries, key)) == as_map(entries).remove(key),
{
    let after = removed(entries, key);
    if has_key(entries, key) {
        let at = index_of_key(entries, key);
        assert forall|i: int| 0 <= i < after.len() implies #[trigger] after[i] == entries[if i
            < at {
            i
        } else {
            i + 1
        }] by {}
        assert forall|k: Seq<char>| #[trigger] has_key(after, k) == (k != key && has_key(
            entries,
            k,
        )) by {
            if has_key(after, k) {
                let i = index_of_key(after, k);
                let j = if i < at {
                    i
                } else {
                    i + 1
                };
                assert(entries[j].0 == k);
            }
            if k != key && has_key(entries, k) {
                let j = index_of_key(entries, k);
                let i = if j < at {
                    j
                } else {
                    j - 1
                };
                assert(after[i].0 == k);
            }
        }
        assert forall|k: Seq<char>| has_key(after, k) implies #[trigger] value_of(after, k)
            == value_of(entries, k) by {
            let i = index_of_key(after, k);
            let j = if i < at {
                i
            } else {
                i + 1
            };
            lemma_index_of_key(after, i);
            lemma_index_of_key(entries, j);
        }
        assert(as_map(after) =~= as_map(entries).remove(key));
    } else {
        assert(as_map(after) =~= as_map(entries).remove(key));
    }
}

/// Records with distinct keys are left as they are, in their order, when
/// they are inserted one after another.
pub proof fn lemma_collected_of_distinct(records: Seq<(Seq<char>, Seq<char>)>)
    requires
        distinct_keys(records),
    ensures
        collected(records) == records,
    decreases records.len(),
{
    if records.len() > 0 {
        let front = records.drop_last();
        lemma_collected_of_distinct(front);
        if has_key(front, records.last().0) {
            let i = index_of_key(front, records.last().0);
            assert(records[i].0 == records.last().0);
        }
        assert(front.push(records.last()) =~= records);
    }
}

/// A mapping from key to value, both text.
pub struct Mapping {
    rows: Vec<(String, String)>,
}

impl View for Mapping {
    type V = Map<Seq<char>, Seq<char>>;

    open spec fn view(&self) -> Map<Seq<char>, Seq<char>> {
        as_map(self.entries())
    }
}

impl Mapping {
    /// The entries, in the order in which they are handed out.
    pub closed spec fn entries(&self) -> Seq<(Seq<char>, Seq<char>)> {
        pairs_view(self.rows@)
    }

    /// No key occurs twice.
    pub open spec fn wf(&self) -> bool {
        distinct_keys(self.entries())
    }

    /// An empty mapping.
    pub fn new() -> (mapping: Self)
        ensures
            mapping.wf(),
            mapping.entries() == Seq::<(Seq<char>, Seq<char>)>::empty(),
    {
        let mapping = Mapping { rows: Vec::new() };
        assert(mapping.entries() =~= Seq::<(Seq<char>, Seq<char>)>::empty());
        mapping
    }

    /// Where the entry of `key` stands.
    fn position(&self, key: &String) -> (r: Option<usize>)
        requires
            self.wf(),
        ensures
            match r {
                Some(i) => i < self.rows.len() && has_key(self.entries(), key@) && index_of_key(
                    self.entries(),
                    key@,
                ) == i,
                None => !has_key(self.entries(), key@),
            },
    {
        let mut i: usize = 0;
        while i < self.rows.len()
            invariant
                self.wf(),
                i <= self.rows.len(),
                forall|j: int| 0 <= j < i ==> (#[trigger] self.entries()[j]).0 != key@,
            decreases self.rows.len() - i,
        {
            if self.rows[i].0 == *key {
                proof {
                    assert(self.entries()[i as int].0 == key@);
                    lemma_index_of_key(self.entries(), i as int);
                }
                return Some(i);
            }
            assert(self.entries()[i as int].0 != key@);
            i += 1;
        }
        None
    }

    /// Whether the mapping holds `key`.
    pub fn contains_key(&self, key: &String) -> (r: bool)
        requires
            self.wf(),
        ensures
            r == has_key(self.entries(), key@),
    {
        self.position(key).is_some()
    }

    /// The value under `key`.
    pub fn get(&self, key: &String) -> (r: Option<&String>)
        requires
            self.wf(),
        ensures
            match r {
                Some(value) => has_key(self.entries(), key@) && value@ == value_of(
                    self.entries(),
                    key@,
                ),
                None => !has_key(self.entries(), key@),
            },
    {
        match self.position(key) {
            Some(i) => Some(&self.rows[i].1),
            None => None,
        }
    }

    /// Lets `key` map to `value` and returns the value that it mapped to
    /// before.
    pub fn insert(&mut self, key: String, value: String) -> (r: Option<String>)
        requires
            old(self).wf(),
        ensures
            final(self).wf(),
            final(self).entries() == inserted(old(self).entries(), key@, value@),
            final(self)@ == old(self)@.insert(key@, value@),
            match r {
                Some(before) => has_key(old(self).entries(), key@) && before@ == value_of(
                    old(self).entries(),
                    key@,
                ),
                None => !has_key(old(self).entries(), key@),
            },
    {
        proof {
            lemma_inserted(self.entries(), key@, value@);
        }
        match self.position(&key) {
            Some(i) => {
                let before = self.rows.remove(i);
                self.rows.insert(i, (key, value));
                assert(self.entries() =~= old(self).entries().update(i as int, (key@, value@)));
                Some(before.1)
            },
            None => {
                self.rows.push((key, value));
                assert(self.entries() =~= old(self).entries().push((key@, value@)));
                None
            },
        }
    }

    /// Takes `key` out and returns the value that it mapped to.
    pub fn remove(&mut self, key: &String) -> (r: Option<String>)
        requires
            old(self).wf(),
        ensures
            final(self).wf(),
            final(self).entries() == removed(old(self).entries(), key@),
            final(self)@ == old(self)@.remove(key@),
            match r {
                Some(before) => has_key(old(self).entries(), key@) && before@ == value_of(
                    old(self).entries(),
                    key@,
                ),
                None => !has_key(old(self).entries(), key@),
            },
    {
        proof {
            lemma_removed(self.entries(), key@);
        }
        match self.position(key) {
            Some(i) => {
                let before = self.rows.remove(i);
                assert(self.entries() =~= old(self).entries().remove(i as int));
                Some(before.1)
            },
            None => None,
        }
    }

    /// Takes every entry out.
    pub fn clear(&mut self)
        ensures
            final(self).wf(),
            final(self).entries() == Seq::<(Seq<char>, Seq<char>)>::empty(),
    {
        self.rows.clear();
        assert(self.entries() =~= Seq::<(Seq<char>, Seq<char>)>::empty());
    }

    /// The entries as pairs of key and value, in their order.
    pub fn to_vec(&self) -> (pairs: Vec<(String, String)>)
        ensures
            pairs_view(pairs@) == self.entries(),
    {
        let mut pairs: Vec<(String, String)> = Vec::new();
        let mut i: usize = 0;
        while i < self.rows.len()
            invariant
                i <= self.rows.len(),
                pairs_view(pairs@) == self.entries().take(i as int),
            decreases self.rows.len() - i,
        {
            let ghost done = pairs_view(pairs@);
            pairs.push((self.rows[i].0.clone(), self.rows[i].1.clone()));
            assert(pairs_view(pairs@) =~= done.push(self.entries()[i as int]));
            assert(self.entries().take(i + 1) =~= self.entries().take(i as int).push(
                self.entries()[i as int],
            ));
            i += 1;
        }
        assert(self.entries().take(self.rows.len() as int) =~= self.entries());
        pairs
    }
}

} // verus!
