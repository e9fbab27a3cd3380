//! The nodes of a trie: what a node holds, what a walk along a key finds,
//! and the two walks that change the tree, insertion and pruning removal.

use crate::error::TrieError;
use crate::key::{
    code, code_of, is_code, lemma_code_injective, lemma_prefix_step, lemma_same_head_and_tail,
};
use crate::model::key_prefixes;
use std::collections::HashMap;
use vstd::prelude::*;
use vstd::slice::slice_subrange;
use vstd::std_specs::hash::OccupiedEntrySpecFns;

verus! {

broadcast use vstd::std_specs::hash::group_hash_axioms;

/// One character position along one or more keys.
///
/// A node owns its children, one per next character, and holds a value
/// exactly when some key ends at it.
#[derive(Debug)]
pub struct TrieNode<T> {
    pub(crate) value: Option<T>,
    pub(crate) child_nodes: HashMap<u32, TrieNode<T>>,
}

/// The value that `key` leads to when the walk starts in the map `nodes`.
pub open spec fn forest_lookup<T>(nodes: Map<u32, TrieNode<T>>, key: Seq<char>) -> Option<T> {
    if key.len() > 0 && nodes.contains_key(code(key[0])) {
        nodes[code(key[0])].lookup(key.drop_first())
    } else {
        None
    }
}

/// Whether the walk along `path` from the map `nodes` ends at a node.
pub open spec fn forest_has_path<T>(nodes: Map<u32, TrieNode<T>>, path: Seq<char>) -> bool {
    path.len() > 0 && nodes.contains_key(code(path[0])) && nodes[code(path[0])].has_path(
        path.drop_first(),
    )
}

/// Every node in the map `nodes` is filed under a character, is alive, and
/// is well formed below.
pub open spec fn forest_well_formed<T>(nodes: Map<u32, TrieNode<T>>) -> bool {
    forall|k: u32| #[trigger]
        nodes.contains_key(k) ==> is_code(k) && nodes[k].alive() && nodes[k].well_formed()
}

/// The keys below the map `nodes`, each with its value.
pub open spec fn forest_entries<T>(nodes: Map<u32, TrieNode<T>>) -> Map<Seq<char>, T> {
    Map::new(
        |key: Seq<char>| forest_lookup(nodes, key) is Some,
        |key: Seq<char>| forest_lookup(nodes, key)->0,
    )
}

/// The paths below the map `nodes` that end at a node.
pub open spec fn forest_paths<T>(nodes: Map<u32, TrieNode<T>>) -> Set<Seq<char>> {
    Set::new(|path: Seq<char>| forest_has_path(nodes, path))
}

impl<T> TrieNode<T> {
    /// The value stored at this node, if a key ends here.
    pub open(crate) spec fn value(&self) -> Option<T> {
        self.value
    }

    /// The children of this node, by the code point of the next character.
    pub open(crate) spec fn children(&self) -> Map<u32, TrieNode<T>> {
        self.child_nodes@
    }

    /// The value that the walk along `key` from this node ends at.
    pub open spec fn lookup(&self, key: Seq<char>) -> Option<T>
        decreases key.len(),
    {
        if key.len() == 0 {
            self.value()
        } else if self.children().contains_key(code(key[0])) {
            self.children()[code(key[0])].lookup(key.drop_first())
        } else {
            None
        }
    }

    /// Whether the walk along `path` from this node ends at a node.
    pub open spec fn has_path(&self, path: Seq<char>) -> bool
        decreases path.len(),
    {
        if path.len() == 0 {
            true
        } else if self.children().contains_key(code(path[0])) {
            self.children()[code(path[0])].has_path(path.drop_first())
        } else {
            false
        }
    }

    /// A node is alive while it holds a value or has a child.
    pub open spec fn alive(&self) -> bool {
        self.value() is Some || !self.children().is_empty()
    }

    /// Every node below this one is filed under a character and alive.
    pub open spec fn well_formed(&self) -> bool
        decreases self,
    {
        forall|k: u32| #[trigger]
            self.children().contains_key(k) ==> is_code(k) && self.children()[k].alive()
                && self.children()[k].well_formed()
    }

    /// Whether some key ends exactly at this node.
    pub fn is_end(&self) -> (end: bool)
        ensures
            end == self.value().is_some(),
    {
        self.value.is_some()
    }

    /// A node without value or children, to be linked below another node.
    pub fn new() -> (node: Self)
        ensures
            node.value() is None,
            node.children() == Map::<u32, TrieNode<T>>::empty(),
    {
        TrieNode { value: None, child_nodes: HashMap::new() }
    }

    /// A node without value or children, to be filed in a trie's top level.
    pub fn new_top_level_node() -> (node: Self)
        ensures
            node.value() is None,
            node.children() == Map::<u32, TrieNode<T>>::empty(),
    {
        TrieNode::new()
    }

    /// Stores `value` under `key`, counted from this node, creating the
    /// nodes that the walk along `key` lacks.
    ///
    /// A key that already holds a value keeps it: the call fails and leaves
    /// every value and every node as it was.
    pub fn insert(&mut self, key: &[char], value: T) -> (res: Result<(), TrieError>)
        ensures
            res == if old(self).lookup(key@) is Some {
                Err::<(), TrieError>(TrieError::DuplicateKey)
            } else {
                Ok::<(), TrieError>(())
            },
            forall|k: Seq<char>| #[trigger]
                final(self).lookup(k) == if res is Ok && k == key@ {
                    Some(value)
                } else {
                    old(self).lookup(k)
                },
            forall|p: Seq<char>| #[trigger]
                final(self).has_path(p) == (old(self).has_path(p) || (res is Ok && p.is_prefix_of(
                    key@,
                ))),
            old(self).well_formed() ==> final(self).well_formed(),
            res is Ok ==> final(self).alive(),
            res is Err ==> final(self).alive() == old(self).alive(),
        decreases key@.len(),
    {
        if key.len() == 0 {
            if self.is_end() {
                Err(TrieError::DuplicateKey)
            } else {
                self.value = Some(value);
                proof {
                    assert forall|p: Seq<char>| #[trigger]
                        self.has_path(p) == (old(self).has_path(p) || p.is_prefix_of(
                            key@,
                        )) by {}
                    assert forall|k: Seq<char>| #[trigger]
                        self.lookup(k) == if k == key@ {
                            Some(value)
                        } else {
                            old(self).lookup(k)
                        } by {
                        if k.len() == 0 {
                            assert(k =~= key@);
                        }
                    }
                }
                Ok(())
            }
        } else {
            let c = key[0];
            let rest = slice_subrange(key, 1, key.len());
            let child = self.child_nodes.entry(code_of(c)).or_insert(TrieNode::new());
            let ghost start = *child;
            let res = child.insert(rest, value);
            proof {
                let after = self.children()[code(c)];
                assert forall|k: Seq<char>| #[trigger]
                    self.lookup(k) == if res is Ok && k == key@ {
                        Some(value)
                    } else {
                        old(self).lookup(k)
                    } by {
                    if k.len() > 0 && k[0] == c {
                        let tail = k.drop_first();
                        assert(self.lookup(k) == after.lookup(tail));
                        if tail == rest@ {
                            lemma_same_head_and_tail(k, key@);
                        }
                    } else if k.len() > 0 {
                        lemma_code_injective(k[0], c);
                    }
                }
                assert forall|p: Seq<char>| #[trigger]
                    self.has_path(p) == (old(self).has_path(p) || (res is Ok && p.is_prefix_of(
                        key@,
                    ))) by {
                    if p.len() > 0 {
                        lemma_prefix_step(p, key@);
                    }
                    if p.len() > 0 && p[0] == c {
                        let tail = p.drop_first();
                        assert(after.has_path(tail) == (start.has_path(tail) || (res is Ok
                            && tail.is_prefix_of(rest@))));
                    } else if p.len() > 0 {
                        lemma_code_injective(p[0], c);
                    }
                }
            }
            res
        }
    }

    /// Whether this node holds neither a value nor a child.
    pub fn is_dead(&self) -> (dead: bool)
        ensures
            dead == !self.alive(),
    {
        self.value.is_none() && self.child_nodes.is_empty()
    }

    /// Replaces the value of this node; its children stay.
    pub fn set_value(&mut self, value: Option<T>)
        ensures
            final(self).value() == value,
            final(self).children() == old(self).children(),
    {
        self.value = value;
    }

    /// The child for `key`, if there is one, for changing in place.
    pub fn get_node_mut(&mut self, key: &char) -> (child: Option<&mut TrieNode<T>>)
        ensures
            final(self).value() == old(self).value(),
            match child {
                Some(node) => {
                    &&& old(self).children().contains_key(code(*key))
                    &&& *node == old(self).children()[code(*key)]
                    &&& final(self).children() == old(self).children().insert(
                        code(*key),
                        *final(node),
                    )
                },
                None => {
                    &&& !old(self).children().contains_key(code(*key))
                    &&& final(self).children() == old(self).children()
                },
            },
    {
        match self.child_nodes.entry(code_of(*key)) {
            std::collections::hash_map::Entry::Occupied(e) => Some(e.into_mut()),
            std::collections::hash_map::Entry::Vacant(_e) => None,
        }
    }
}

/// Takes the value stored under `key` out of the nodes filed in `nodes`, and
/// with it every node on the way to it that the removal leaves without
/// value and without child.
///
/// The walk goes down along `key` to the node where it ends. On the way back
/// up each node that was passed is looked at once more: a node that has
/// become dead is unlinked from the map that held it, and the first node
/// that still has a value or a child ends the pruning. A key that holds no
/// value is reported as not found, and every value and node stays.
pub fn remove_below<T>(nodes: &mut HashMap<u32, TrieNode<T>>, key: &[char]) -> (res: Result<
    (),
    TrieError,
>)
    ensures
        res == if forest_lookup(old(nodes)@, key@) is Some {
            Ok::<(), TrieError>(())
        } else {
            Err::<(), TrieError>(TrieError::NotFound)
        },
        forall|k: Seq<char>| #[trigger]
            forest_lookup(final(nodes)@, k) == if res is Ok && k == key@ {
                None
            } else {
                forest_lookup(old(nodes)@, k)
            },
        forall|p: Seq<char>| #[trigger]
            forest_has_path(final(nodes)@, p) ==> forest_has_path(old(nodes)@, p),
        forall|p: Seq<char>|
            forest_has_path(old(nodes)@, p) && !(res is Ok && p.is_prefix_of(key@))
                ==> #[trigger] forest_has_path(final(nodes)@, p),
        forest_well_formed(old(nodes)@) ==> forest_well_formed(final(nodes)@),
        forest_well_formed(old(nodes)@) ==> forest_paths(final(nodes)@) == key_prefixes(
            forest_entries(final(nodes)@).dom(),
        ),
        res is Err ==> final(nodes)@.dom() == old(nodes)@.dom(),
    decreases key@.len(),
{
    proof {
        if forest_well_formed(nodes@) {
            lemma_nodes_are_key_prefixes(nodes@);
        }
    }
    if key.len() == 0 {
        return Err(TrieError::NotFound);
    }
    let c = key[0];
    let rest = slice_subrange(key, 1, key.len());
    let ghost siblings = nodes@;
    let ghost mut after: TrieNode<T> = arbitrary();
    let res = match nodes.entry(code_of(c)) {
        std::collections::hash_map::Entry::Occupied(mut entry) => {
            let node = entry.get_mut();
            let res = if rest.len() == 0 {
                if node.is_end() {
                    node.set_value(None);
                    Ok(())
                } else {
                    Err(TrieError::NotFound)
                }
            } else {
                remove_below(&mut node.child_nodes, rest)
            };
            proof {
                after = entry.value();
            }
            if res.is_ok() && entry.get().is_dead() {
                let _ = entry.remove();
            }
            res
        },
        std::collections::hash_map::Entry::Vacant(_entry) => Err(TrieError::NotFound),
    };
    proof {
        if siblings.contains_key(code(c)) {
            // What the step below did to the node filed under `c`, before
            // that node was looked at for pruning.
            let start = siblings[code(c)];
            assert(after.value() == if res is Ok && rest@.len() == 0 {
                None
            } else {
                start.value()
            });
            assert forall|k: Seq<char>| #[trigger]
                after.lookup(k) == if res is Ok && k == rest@ {
                    None
                } else {
                    start.lookup(k)
                } by {
                if k.len() == 0 {
                    if rest@.len() == 0 {
                        assert(k =~= rest@);
                    }
                } else {
                    assert(after.lookup(k) == forest_lookup(after.children(), k));
                }
            }
            assert forall|p: Seq<char>| #[trigger] after.has_path(p) implies start.has_path(p) by {
                if p.len() > 0 {
                    assert(after.has_path(p) == forest_has_path(after.children(), p));
                }
            }
            assert forall|p: Seq<char>|
                start.has_path(p) && !(res is Ok && p.is_prefix_of(
                    rest@,
                )) implies #[trigger] after.has_path(p) by {
                if p.len() > 0 {
                    assert(after.has_path(p) == forest_has_path(after.children(), p));
                }
            }
            // What that means for the map, with the node kept or unlinked.
            assert forall|k: Seq<char>| #[trigger]
                forest_lookup(nodes@, k) == if res is Ok && k == key@ {
                    None
                } else {
                    forest_lookup(siblings, k)
                } by {
                if k.len() > 0 && k[0] == c {
                    if k.drop_first() == rest@ {
                        lemma_same_head_and_tail(k, key@);
                    }
                } else if k.len() > 0 {
                    lemma_code_injective(k[0], c);
                }
            }
            assert forall|p: Seq<char>| #[trigger] forest_has_path(nodes@, p) implies forest_has_path(
                siblings,
                p,
            ) by {
                if p.len() > 0 && p[0] != c {
                    lemma_code_injective(p[0], c);
                }
            }
            assert forall|p: Seq<char>|
                forest_has_path(siblings, p) && !(res is Ok && p.is_prefix_of(
                    key@,
                )) implies #[trigger] forest_has_path(nodes@, p) by {
                lemma_prefix_step(p, key@);
                if p[0] != c {
                    lemma_code_injective(p[0], c);
                }
            }
        }
        if forest_well_formed(siblings) {
            lemma_nodes_are_key_prefixes(nodes@);
        }
    }
    res
}

/// Every prefix of a key that holds a value leads to a node.
pub proof fn lemma_key_runs_along_nodes<T>(node: TrieNode<T>, key: Seq<char>, path: Seq<char>)
    requires
        node.lookup(key) is Some,
        path.is_prefix_of(key),
    ensures
        node.has_path(path),
    decreases path.len(),
{
    if path.len() > 0 {
        lemma_prefix_step(path, key);
        lemma_key_runs_along_nodes(
            node.children()[code(key[0])],
            key.drop_first(),
            path.drop_first(),
        );
    }
}

/// A node that is alive and well formed has a key at or below it.
pub proof fn lemma_alive_node_has_key<T>(node: TrieNode<T>) -> (key: Seq<char>)
    requires
        node.alive(),
        node.well_formed(),
    ensures
        node.lookup(key) is Some,
    decreases node,
{
    if node.value() is Some {
        Seq::empty()
    } else {
        let k = choose|k: u32| node.children().contains_key(k);
        assert(node.children().contains_key(k)) by {
            if forall|j: u32| !node.children().contains_key(j) {
                assert(node.children().dom() =~= Set::<u32>::empty());
            }
        }
        let c = choose|c: char| code(c) == k;
        let below = lemma_alive_node_has_key(node.children()[k]);
        let key = seq![c] + below;
        assert(key.drop_first() =~= below);
        key
    }
}

/// In a well-formed node every path that leads to a node is the prefix of
/// a key that holds a value; for the empty path, where the node is alive.
pub proof fn lemma_node_lies_on_key<T>(node: TrieNode<T>, path: Seq<char>) -> (key: Seq<char>)
    requires
        node.well_formed(),
        node.has_path(path),
        path.len() > 0 || node.alive(),
    ensures
        node.lookup(key) is Some,
        path.is_prefix_of(key),
    decreases path.len(),
{
    if path.len() == 0 {
        lemma_alive_node_has_key(node)
    } else {
        let child = node.children()[code(path[0])];
        let below = lemma_node_lies_on_key(child, path.drop_first());
        let key = seq![path[0]] + below;
        assert(key.drop_first() =~= below);
        lemma_prefix_step(path, key);
        key
    }
}

/// In a well-formed map of nodes the paths that lead to a node are the
/// non-empty prefixes of the keys that hold a value: no node is left that
/// no key needs.
pub proof fn lemma_nodes_are_key_prefixes<T>(nodes: Map<u32, TrieNode<T>>)
    requires
        forest_well_formed(nodes),
    ensures
        forest_paths(nodes) == key_prefixes(forest_entries(nodes).dom()),
{
    assert forall|path: Seq<char>|
        forest_paths(nodes).contains(path) == key_prefixes(forest_entries(nodes).dom()).contains(
            path,
        ) by {
        if forest_has_path(nodes, path) {
            let below = lemma_node_lies_on_key(nodes[code(path[0])], path.drop_first());
            let key = seq![path[0]] + below;
            assert(key.drop_first() =~= below);
            lemma_prefix_step(path, key);
        }
        if key_prefixes(forest_entries(nodes).dom()).contains(path) {
            let key = choose|key: Seq<char>|
                forest_entries(nodes).dom().contains(key) && #[trigger] path.is_prefix_of(key);
            lemma_prefix_step(path, key);
            lemma_key_runs_along_nodes(
                nodes[code(key[0])],
                key.drop_first(),
                path.drop_first(),
            );
        }
    }
}

} // verus!
