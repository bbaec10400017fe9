//! What the operations of a store do, stated over its entries.
//!
//! Every store of this crate, whether it lives in a file or in memory only,
//! behaves as these functions say.

use crate::error::{Failure, StoreError};
use crate::mapping::{distinct_keys, has_key, lemma_index_of_key, removed, value_of};
use vstd::prelude::*;

verus! {

/// Why a result is a failure, if it is one.
pub open spec fn failure_of<T>(result: Result<T, StoreError>) -> Option<Failure> {
    match result {
        Ok(_) => None,
        Err(error) => Some(error@),
    }
}

/// Adding is refused under a key that the store holds.
pub open spec fn add_failure(entries: Seq<(Seq<char>, Seq<char>)>, key: Seq<char>) -> Option<
    Failure,
> {
    if has_key(entries, key) {
        Some(Failure::DuplicateKey(key))
    } else {
        None
    }
}

/// The entries after adding: the new record comes last, and a refused one
/// changes nothing.
pub open spec fn after_add(
    entries: Seq<(Seq<char>, Seq<char>)>,
    key: Seq<char>,
    value: Seq<char>,
) -> Seq<(Seq<char>, Seq<char>)> {
    if has_key(entries, key) {
        entries
    } else {
        entries.push((key, value))
    }
}

/// The value under a key, or the failure to find the key.
pub open spec fn lookup(entries: Seq<(Seq<char>, Seq<char>)>, key: Seq<char>) -> Result<
    Seq<char>,
    Failure,
> {
    if has_key(entries, key) {
        Ok(value_of(entries, key))
    } else {
        Err(Failure::NotFound(key))
    }
}

/// Removing fails under a key that the store does not hold.
pub open spec fn remove_failure(entries: Seq<(Seq<char>, Seq<char>)>, key: Seq<char>) -> Option<
    Failure,
> {
    if has_key(entries, key) {
        None
    } else {
        Some(Failure::NotFound(key))
    }
}

/// The entries after removing: the record of the key is gone, and a failed
/// removal changes nothing.
pub open spec fn after_remove(entries: Seq<(Seq<char>, Seq<char>)>, key: Seq<char>) -> Seq<
    (Seq<char>, Seq<char>),
> {
    removed(entries, key)
}

/// The entries after clearing: none.
pub open spec fn after_clear(entries: Seq<(Seq<char>, Seq<char>)>) -> Seq<(Seq<char>, Seq<char>)> {
    Seq::empty()
}

/// A store never overwrites: once a record was added under a key, adding
/// under that key again fails as a duplicate and changes nothing, and the
/// key still gives the value of the first record.
pub proof fn lemma_no_silent_overwrite(
    entries: Seq<(Seq<char>, Seq<char>)>,
    key: Seq<char>,
    first: Seq<char>,
    second: Seq<char>,
)
    requires
        distinct_keys(entries),
    ensures
        add_failure(after_add(entries, key, first), key) == Some(Failure::DuplicateKey(key)),
        after_add(after_add(entries, key, first), key, second) == after_add(entries, key, first),
        add_failure(entries, key) is None ==> lookup(
            after_add(after_add(entries, key, first), key, second),
            key,
        ) == Ok::<_, Failure>(first),
{
    if !has_key(entries, key) {
        let once = entries.push((key, first));
        assert(once[entries.len() as int].0 == key);
        assert forall|i: int, j: int| 0 <= i < j < once.len() implies (#[trigger] once[i]).0 != (
        #[trigger] once[j]).0 by {
            if j == entries.len() {
                assert(entries[i].0 != key);
            }
        }
        lemma_index_of_key(once, entries.len() as int);
    }
}

/// Under a key that the store does not hold, getting and removing fail and
/// leave every entry as it was.
pub proof fn lemma_missing_key_changes_nothing(entries: Seq<(Seq<char>, Seq<char>)>, key: Seq<char>)
    requires
        !has_key(entries, key),
    ensures
        lookup(entries, key) == Err::<Seq<char>, _>(Failure::NotFound(key)),
        remove_failure(entries, key) == Some(Failure::NotFound(key)),
        after_remove(entries, key) == entries,
{
}

/// After clearing, a store holds no entry, whatever it held before.
pub proof fn lemma_clear_is_total(entries: Seq<(Seq<char>, Seq<char>)>)
    ensures
        after_clear(entries).len() == 0,
        forall|key: Seq<char>| !has_key(after_clear(entries), key),
{
}

} // verus!
