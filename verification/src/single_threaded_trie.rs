//! The trie for one owner at a time.

use crate::error::TrieError;
use crate::key::{code_of, key_chars, lemma_code_injective, lemma_same_head_and_tail};
use crate::model::{
    after_insert, after_remove, get_result, insert_result, key_prefixes, remove_result,
};
use crate::node::{
    forest_entries, forest_has_path, forest_lookup, forest_paths, forest_well_formed,
    lemma_nodes_are_key_prefixes, remove_below, TrieNode,
};
use std::collections::HashMap;
use vstd::prelude::*;
use vstd::slice::slice_subrange;

verus! {

broadcast use {vstd::std_specs::hash::group_hash_axioms, vstd::string::group_string_axioms};

/// A map from non-empty character sequences to values, in which keys with
/// a common prefix share the nodes of that prefix.
#[derive(Debug)]
pub struct Trie<T> {
    top_level_nodes: HashMap<u32, TrieNode<T>>,
}

impl<T> View for Trie<T> {
    type V = Map<Seq<char>, T>;

    /// The keys of the trie, each with its value.
    closed spec fn view(&self) -> Map<Seq<char>, T> {
        forest_entries(self.top_level_nodes@)
    }
}

impl<T> Default for Trie<T> {
    /// A trie without keys.
    fn default() -> (trie: Self)
        ensures
            trie@ == Map::<Seq<char>, T>::empty(),
            trie.nodes() == Set::<Seq<char>>::empty(),
    {
        let trie = Trie { top_level_nodes: HashMap::new() };
        trie
    }
}

impl<T> Trie<T> {
    /// Every node of the trie is alive: it holds a value or has a child.
    #[verifier::type_invariant]
    spec fn well_formed(&self) -> bool {
        forest_well_formed(self.top_level_nodes@)
    }

    /// The paths that lead to a node of the trie.
    pub closed spec fn nodes(&self) -> Set<Seq<char>> {
        forest_paths(self.top_level_nodes@)
    }

    /// The empty key is never held, whatever else the trie holds.
    pub proof fn lemma_empty_key_is_absent(self)
        ensures
            !self@.contains_key(Seq::<char>::empty()),
    {
    }

    /// A trie without keys.
    pub fn new() -> (trie: Self)
        ensures
            trie@ == Map::<Seq<char>, T>::empty(),
            trie.nodes() == Set::<Seq<char>>::empty(),
    {
        Self::default()
    }

    /// Whether a node of the trie stands at the end of `path`.
    ///
    /// A node stands there exactly when `path` is not empty and some key
    /// that holds a value begins with it.
    pub fn has_node(&self, path: &str) -> (found: bool)
        ensures
            found == self.nodes().contains(path@),
            self.nodes() == key_prefixes(self@.dom()),
    {
        proof {
            use_type_invariant(self);
            lemma_nodes_are_key_prefixes(self.top_level_nodes@);
            assert(path@.skip(0) =~= path@);
        }
        let mut map = &self.top_level_nodes;
        let mut found = false;
        for c in it: path.chars()
            invariant
                it.seq() == path@,
                self.nodes() == key_prefixes(self@.dom()),
                it.index() == path@.len() ==> found == forest_has_path(
                    self.top_level_nodes@,
                    path@,
                ),
                it.index() < path@.len() ==> forest_has_path(self.top_level_nodes@, path@)
                    == forest_has_path(map@, path@.skip(it.index())),
        {
            let ghost rest = path@.skip(it.index());
            proof {
                assert(rest.drop_first() =~= path@.skip(it.index() + 1));
            }
            if let Some(node) = map.get(&code_of(c)) {
                map = &node.child_nodes;
                found = true;
            } else {
                return false;
            }
        }
        found
    }

    /// The place where the value of `key` stands: the value slot of the node
    /// that `key` leads to, or an empty one where no node is there.
    ///
    /// The walk starts in the top level and takes one character at a time;
    /// it ends at the first character that has no node.
    pub fn slot(&self, key: &str) -> (slot: &Option<T>)
        ensures
            *slot == get_result(self@, key@),
            key@.len() == 0 ==> *slot is None,
    {
        let mut map = &self.top_level_nodes;
        let mut output: &Option<T> = &None;
        proof {
            assert(key@.skip(0) =~= key@);
        }
        for c in it: key.chars()
            invariant
                it.seq() == key@,
                it.index() == key@.len() ==> *output == forest_lookup(
                    self.top_level_nodes@,
                    key@,
                ),
                it.index() < key@.len() ==> forest_lookup(self.top_level_nodes@, key@)
                    == forest_lookup(map@, key@.skip(it.index())),
        {
            let ghost rest = key@.skip(it.index());
            proof {
                assert(rest.drop_first() =~= key@.skip(it.index() + 1));
            }
            if let Some(node) = map.get(&code_of(c)) {
                map = &node.child_nodes;
                output = &node.value;
            } else {
                return &None;
            }
        }
        output
    }

    /// The value stored under `key`, if there is one.
    pub fn get(&self, key: &str) -> (res: Option<&T>)
        ensures
            match res {
                Some(value) => get_result(self@, key@) == Some(*value),
                None => get_result(self@, key@) is None,
            },
            key@.len() == 0 ==> res is None,
    {
        self.slot(key).as_ref()
    }

    /// Stores `value` under `key`.
    ///
    /// The empty key is refused, and so is a key that already holds a
    /// value: an insertion never replaces one.
    pub fn insert(&mut self, key: &str, value: T) -> (res: Result<(), TrieError>)
        ensures
            res == insert_result(old(self)@, key@),
            final(self)@ == after_insert(old(self)@, key@, value),
            final(self).nodes() == key_prefixes(final(self)@.dom()),
    {
        proof {
            use_type_invariant(&*self);
            lemma_nodes_are_key_prefixes(self.top_level_nodes@);
        }
        if key.is_empty() {
            return Err(TrieError::EmptyKey);
        }
        let chars = key_chars(key);
        let first_key = chars[0];
        let rest = slice_subrange(chars.as_slice(), 1, chars.len());
        let mut nodes = HashMap::new();
        std::mem::swap(&mut nodes, &mut self.top_level_nodes);
        let ghost before = nodes@;
        let first_trie_node = nodes.entry(code_of(first_key)).or_insert(
            TrieNode::new_top_level_node(),
        );
        let res = first_trie_node.insert(rest, value);
        proof {
            assert forall|k: Seq<char>| #[trigger]
                forest_lookup(nodes@, k) == if res is Ok && k == key@ {
                    Some(value)
                } else {
                    forest_lookup(before, k)
                } by {
                if k.len() > 0 && k[0] == first_key {
                    if k.drop_first() == rest@ {
                        lemma_same_head_and_tail(k, key@);
                    }
                } else if k.len() > 0 {
                    lemma_code_injective(k[0], first_key);
                }
            }
            lemma_nodes_are_key_prefixes(nodes@);
        }
        self.top_level_nodes = nodes;
        res
    }

    /// Takes the value stored under `key` out of the trie, together with
    /// every node that only this key kept alive.
    ///
    /// The empty key is refused, and a key that holds no value is reported
    /// as not found, whether no path leads to it or the path ends at a node
    /// that only longer keys pass through.
    pub fn remove(&mut self, key: &str) -> (res: Result<(), TrieError>)
        ensures
            res == remove_result(old(self)@, key@),
            final(self)@ == after_remove(old(self)@, key@),
            final(self).nodes() == key_prefixes(final(self)@.dom()),
    {
        proof {
            use_type_invariant(&*self);
            lemma_nodes_are_key_prefixes(self.top_level_nodes@);
        }
        if key.is_empty() {
            return Err(TrieError::EmptyKey);
        }
        let chars = key_chars(key);
        let mut nodes = HashMap::new();
        std::mem::swap(&mut nodes, &mut self.top_level_nodes);
        let res = remove_below(&mut nodes, chars.as_slice());
        self.top_level_nodes = nodes;
        res
    }
}

} // verus!
