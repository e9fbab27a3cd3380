use prefix_trie::error::TrieError;
use prefix_trie::key::{code_of, key_chars};
use prefix_trie::node::{remove_below, TrieNode};
use std::collections::HashMap;

#[test]
fn a_new_node_is_dead() {
    let node: TrieNode<u32> = TrieNode::new();
    assert!(!node.is_end());
    assert!(node.is_dead());
    let node: TrieNode<u32> = TrieNode::new_top_level_node();
    assert!(!node.is_end());
    assert!(node.is_dead());
}

#[test]
fn set_value_makes_and_unmakes_an_end() {
    let mut node = TrieNode::new();
    node.set_value(Some(5));
    assert!(node.is_end());
    assert!(!node.is_dead());
    node.set_value(None);
    assert!(!node.is_end());
    assert!(node.is_dead());
}

#[test]
fn node_insert_creates_the_missing_path() {
    let mut node = TrieNode::new();
    assert_eq!(node.insert(&['a', 'b'], 1), Ok(()));
    assert!(!node.is_end());
    assert!(!node.is_dead());
    assert!(node.get_node_mut(&'x').is_none());

    let a = node.get_node_mut(&'a').expect("a child for 'a'");
    assert!(!a.is_end());
    let b = a.get_node_mut(&'b').expect("a child for 'b'");
    assert!(b.is_end());
    assert!(b.get_node_mut(&'c').is_none());
}

#[test]
fn node_insert_with_the_empty_key_sets_the_node_itself() {
    let mut node = TrieNode::new();
    assert_eq!(node.insert(&[], 1), Ok(()));
    assert!(node.is_end());
    assert_eq!(node.insert(&[], 2), Err(TrieError::DuplicateKey));
    assert!(node.is_end());
}

#[test]
fn node_insert_refuses_a_duplicate() {
    let mut node = TrieNode::new();
    assert_eq!(node.insert(&['a', 'b'], 1), Ok(()));
    assert_eq!(node.insert(&['a', 'b'], 2), Err(TrieError::DuplicateKey));
    assert_eq!(node.insert(&['a'], 3), Ok(()));
    assert_eq!(node.insert(&['a'], 4), Err(TrieError::DuplicateKey));
}

#[test]
fn a_child_is_changed_in_place() {
    let mut node = TrieNode::new();
    assert_eq!(node.insert(&['a'], 1), Ok(()));
    node.get_node_mut(&'a').expect("a child for 'a'").set_value(None);
    assert!(!node.get_node_mut(&'a').expect("a child for 'a'").is_end());
    assert_eq!(node.insert(&['a'], 2), Ok(()));
}

#[test]
fn remove_below_prunes_dead_nodes_only() {
    let mut nodes: HashMap<u32, TrieNode<u8>> = HashMap::new();
    let mut h = TrieNode::new_top_level_node();
    assert_eq!(h.insert(&['i'], 1), Ok(()));
    assert_eq!(h.insert(&['o', 'p'], 2), Ok(()));
    nodes.insert(code_of('h'), h);

    assert_eq!(remove_below(&mut nodes, &[]), Err(TrieError::NotFound));
    assert_eq!(remove_below(&mut nodes, &['h']), Err(TrieError::NotFound));
    assert_eq!(remove_below(&mut nodes, &['h', 'o']), Err(TrieError::NotFound));
    assert_eq!(remove_below(&mut nodes, &['x']), Err(TrieError::NotFound));
    assert_eq!(nodes.len(), 1);

    assert_eq!(remove_below(&mut nodes, &['h', 'o', 'p']), Ok(()));
    {
        let h = nodes.get_mut(&code_of('h')).expect("the node for 'h'");
        assert!(h.get_node_mut(&'o').is_none());
        assert!(h.get_node_mut(&'i').is_some());
    }
    assert_eq!(remove_below(&mut nodes, &['h', 'i']), Ok(()));
    assert!(nodes.is_empty());
}

#[test]
fn remove_below_keeps_a_node_that_has_children() {
    let mut nodes: HashMap<u32, TrieNode<u8>> = HashMap::new();
    let mut a = TrieNode::new_top_level_node();
    assert_eq!(a.insert(&[], 1), Ok(()));
    assert_eq!(a.insert(&['b'], 2), Ok(()));
    nodes.insert(code_of('a'), a);

    assert_eq!(remove_below(&mut nodes, &['a']), Ok(()));
    let a = nodes.get_mut(&code_of('a')).expect("the node for 'a'");
    assert!(!a.is_end());
    assert!(a.get_node_mut(&'b').expect("a child for 'b'").is_end());
}

#[test]
fn code_of_is_the_code_point() {
    assert_eq!(code_of('a'), 97);
    assert_eq!(code_of('\0'), 0);
    assert_eq!(code_of('\u{e9}'), 0xe9);
    assert_eq!(code_of('\u{1f600}'), 0x1f600);
    assert_eq!(code_of('\u{10ffff}'), 0x10ffff);
}

#[test]
fn key_chars_lists_the_characters() {
    assert_eq!(key_chars(""), Vec::<char>::new());
    assert_eq!(key_chars("hey"), vec!['h', 'e', 'y']);
    assert_eq!(key_chars("h\u{e9}\u{1f600}"), vec!['h', '\u{e9}', '\u{1f600}']);
}
