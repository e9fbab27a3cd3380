//! What the operations of a trie mean for the entries it holds, stated on
//! maps from keys to values, and the laws that follow.

use crate::error::TrieError;
use vstd::prelude::*;

verus! {

/// What a lookup of `key` yields in a trie that holds `entries`.
pub open spec fn get_result<T>(entries: Map<Seq<char>, T>, key: Seq<char>) -> Option<T> {
    if entries.contains_key(key) {
        Some(entries[key])
    } else {
        None
    }
}

/// What an insertion under `key` reports in a trie that holds `entries`.
pub open spec fn insert_result<T>(entries: Map<Seq<char>, T>, key: Seq<char>) -> Result<
    (),
    TrieError,
> {
    if key.len() == 0 {
        Err(TrieError::EmptyKey)
    } else if entries.contains_key(key) {
        Err(TrieError::DuplicateKey)
    } else {
        Ok(())
    }
}

/// What a trie that held `entries` holds after an insertion of `value`
/// under `key`: one entry more where the insertion succeeds, the same
/// entries where it fails.
pub open spec fn after_insert<T>(entries: Map<Seq<char>, T>, key: Seq<char>, value: T) -> Map<
    Seq<char>,
    T,
> {
    if insert_result(entries, key) is Ok {
        entries.insert(key, value)
    } else {
        entries
    }
}

/// What a removal of `key` reports in a trie that holds `entries`.
pub open spec fn remove_result<T>(entries: Map<Seq<char>, T>, key: Seq<char>) -> Result<
    (),
    TrieError,
> {
    if key.len() == 0 {
        Err(TrieError::EmptyKey)
    } else if entries.contains_key(key) {
        Ok(())
    } else {
        Err(TrieError::NotFound)
    }
}

/// What a trie that held `entries` holds after a removal of `key`: one
/// entry less where the removal succeeds, the same entries where it fails.
pub open spec fn after_remove<T>(entries: Map<Seq<char>, T>, key: Seq<char>) -> Map<Seq<char>, T> {
    if remove_result(entries, key) is Ok {
        entries.remove(key)
    } else {
        entries
    }
}

/// The paths that lead to a node in a trie whose keys are `keys`: the
/// non-empty prefixes of its keys, and no others.
pub open spec fn key_prefixes(keys: Set<Seq<char>>) -> Set<Seq<char>> {
    Set::new(
        |path: Seq<char>|
            path.len() > 0 && exists|key: Seq<char>|
                keys.contains(key) && #[trigger] path.is_prefix_of(key),
    )
}

/// A value that was stored is found: after a successful insertion of
/// `value` under `key`, a lookup of `key` yields `value`.
pub proof fn law_stored_value_is_found<T>(entries: Map<Seq<char>, T>, key: Seq<char>, value: T)
    requires
        insert_result(entries, key) is Ok,
    ensures
        get_result(after_insert(entries, key, value), key) == Some(value),
{
}

/// A stored value outlasts every insertion: whatever is inserted next, under
/// the same key or another, a lookup of `key` yields what it did before.
pub proof fn law_stored_value_outlasts_insertion<T>(
    entries: Map<Seq<char>, T>,
    key: Seq<char>,
    other: Seq<char>,
    value: T,
)
    requires
        get_result(entries, key) is Some,
    ensures
        get_result(after_insert(entries, other, value), key) == get_result(entries, key),
{
}

/// A stored value outlasts every removal but a successful one of its own
/// key: after a removal of another key, or a failed one, a lookup of `key`
/// yields what it did before.
pub proof fn law_stored_value_outlasts_removal<T>(
    entries: Map<Seq<char>, T>,
    key: Seq<char>,
    other: Seq<char>,
)
    requires
        other != key || remove_result(entries, other) is Err,
    ensures
        get_result(after_remove(entries, other), key) == get_result(entries, key),
{
}

/// A successful removal of `key` ends the life of its value: a lookup of
/// `key` then yields none.
pub proof fn law_removed_value_is_gone<T>(entries: Map<Seq<char>, T>, key: Seq<char>)
    requires
        remove_result(entries, key) is Ok,
    ensures
        get_result(after_remove(entries, key), key) is None,
{
}

/// The empty key is refused by insertion and by removal, whatever the trie
/// holds, and the trie holds afterwards what it held before.
pub proof fn law_empty_key_is_refused<T>(entries: Map<Seq<char>, T>, value: T)
    ensures
        insert_result(entries, Seq::<char>::empty()) == Err::<(), TrieError>(TrieError::EmptyKey),
        remove_result(entries, Seq::<char>::empty()) == Err::<(), TrieError>(TrieError::EmptyKey),
        after_insert(entries, Seq::<char>::empty(), value) == entries,
        after_remove(entries, Seq::<char>::empty()) == entries,
{
}

/// A key is inserted once: after a successful insertion under `key`, a
/// second one under the same key is refused as a duplicate, and the first
/// value stays.
pub proof fn law_second_insertion_is_refused<T>(
    entries: Map<Seq<char>, T>,
    key: Seq<char>,
    first: T,
    second: T,
)
    requires
        insert_result(entries, key) is Ok,
    ensures
        insert_result(after_insert(entries, key, first), key) == Err::<(), TrieError>(
            TrieError::DuplicateKey,
        ),
        after_insert(after_insert(entries, key, first), key, second) == after_insert(
            entries,
            key,
            first,
        ),
        get_result(after_insert(after_insert(entries, key, first), key, second), key) == Some(
            first,
        ),
{
}

/// The removal of a non-empty key that holds no value is reported as not
/// found and changes nothing: every lookup yields what it did before.
pub proof fn law_absent_key_is_not_found<T>(
    entries: Map<Seq<char>, T>,
    key: Seq<char>,
    other: Seq<char>,
)
    requires
        key.len() > 0,
        !entries.contains_key(key),
    ensures
        remove_result(entries, key) == Err::<(), TrieError>(TrieError::NotFound),
        after_remove(entries, key) == entries,
        get_result(after_remove(entries, key), other) == get_result(entries, other),
{
}

/// A removal leaves the nodes of every other key in place: each non-empty
/// prefix of a key that still holds a value still leads to a node.
pub proof fn law_removal_spares_other_keys<T>(
    entries: Map<Seq<char>, T>,
    key: Seq<char>,
    other: Seq<char>,
    path: Seq<char>,
)
    requires
        entries.contains_key(other),
        other != key,
        path.len() > 0,
        path.is_prefix_of(other),
    ensures
        key_prefixes(after_remove(entries, key).dom()).contains(path),
{
    assert(after_remove(entries, key).dom().contains(other));
}

/// A removal prunes every node that only the removed key needed: a path
/// that is the prefix of no remaining key leads to no node, and where the
/// removed key was the only one, no node is left at all.
pub proof fn law_removal_prunes_unneeded_nodes<T>(
    entries: Map<Seq<char>, T>,
    key: Seq<char>,
    path: Seq<char>,
)
    requires
        remove_result(entries, key) is Ok,
        forall|other: Seq<char>|
            entries.contains_key(other) && #[trigger] path.is_prefix_of(other) ==> other == key,
    ensures
        !key_prefixes(after_remove(entries, key).dom()).contains(path),
        entries.dom() == set![key] ==> key_prefixes(after_remove(entries, key).dom())
            == Set::<Seq<char>>::empty(),
{
    if entries.dom() == set![key] {
        assert(after_remove(entries, key).dom() =~= Set::<Seq<char>>::empty());
        assert(key_prefixes(after_remove(entries, key).dom()) =~= Set::<Seq<char>>::empty());
    }
}

} // verus!
