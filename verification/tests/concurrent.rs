use prefix_trie::concurrent_trie::Trie;
use prefix_trie::error::TrieError;

#[test]
fn concurrent_trie_insert_multiple_values() {
    // Create new `Trie`
    let trie = Trie::new();

    // Insert values
    assert!(trie.insert("hello", 1).is_ok());
    assert!(trie.insert("hell", 2).is_ok());
    assert!(trie.insert("hel", 3).is_ok());
    assert!(trie.insert("hey", 4).is_ok());
    assert!(trie.insert("back", 4).is_ok());

    println!("{:?}", &trie);

    // Delete value
    assert!(trie.remove("hello").is_ok());
    assert!(trie.remove("hello").is_err());
    assert!(trie.remove("hell").is_ok());
    assert!(trie.remove("hel").is_ok());
    println!("{:?}", &trie);
    assert!(trie.remove("hey").is_ok());
    println!("{:?}", &trie);
    assert!(trie.remove("back").is_ok());
    println!("{:?}", &trie);

    // Get value
    assert_eq!(*trie.get("hello"), None);
}

#[test]
fn locked_lookup_reads_the_stored_value() {
    let trie = Trie::new();
    assert_eq!(trie.insert("hello", 99), Ok(()));
    assert_eq!(trie.insert("hello", 23), Err(TrieError::DuplicateKey));
    assert_eq!(trie.insert("bag", 11), Ok(()));
    assert_eq!(trie.insert("bucket", 9), Ok(()));

    assert_eq!(*trie.get("hello"), Some(99));
    assert_eq!(*trie.get("bag"), Some(11));
    assert_eq!(*trie.get("bucket"), Some(9));
    assert_eq!(*trie.get("b"), None);
    assert_eq!(*trie.get("bags"), None);
    assert_eq!(*trie.get(""), None);
}

#[test]
fn several_readers_hold_the_lock_together() {
    let trie = Trie::new();
    assert_eq!(trie.insert("hello", 99), Ok(()));
    assert_eq!(trie.insert("bag", 11), Ok(()));

    let first = trie.get("hello");
    let second = trie.get("bag");
    let third = trie.get("hello");
    assert_eq!(*first, Some(99));
    assert_eq!(*second, Some(11));
    assert_eq!(*third, Some(99));
}

#[test]
fn a_writer_proceeds_once_the_view_is_dropped() {
    let trie = Trie::new();
    assert_eq!(trie.insert("hello", 99), Ok(()));
    {
        let view = trie.get("hello");
        assert_eq!(*view, Some(99));
    }
    assert_eq!(trie.remove("hello"), Ok(()));
    assert_eq!(*trie.get("hello"), None);
}

#[test]
fn locked_trie_refuses_the_empty_key() {
    let trie = Trie::new();
    assert_eq!(trie.insert("", 1), Err(TrieError::EmptyKey));
    assert_eq!(trie.remove(""), Err(TrieError::EmptyKey));
    assert_eq!(trie.insert("a", 1), Ok(()));
    assert_eq!(trie.insert("", 2), Err(TrieError::EmptyKey));
    assert_eq!(trie.remove(""), Err(TrieError::EmptyKey));
    assert_eq!(*trie.get("a"), Some(1));
}

#[test]
fn locked_trie_reports_absent_and_duplicate_keys() {
    let trie = Trie::new();
    assert_eq!(trie.remove("hello"), Err(TrieError::NotFound));
    assert_eq!(trie.insert("hello", 1), Ok(()));
    assert_eq!(trie.insert("hello", 2), Err(TrieError::DuplicateKey));
    assert_eq!(trie.remove("hel"), Err(TrieError::NotFound));
    assert_eq!(*trie.get("hello"), Some(1));
    assert_eq!(trie.remove("hello"), Ok(()));
    assert_eq!(trie.remove("hello"), Err(TrieError::NotFound));
}

#[test]
fn default_locked_trie_is_empty() {
    let trie: Trie<u32> = Trie::default();
    assert_eq!(*trie.get("a"), None);
    assert_eq!(trie.remove("a"), Err(TrieError::NotFound));
}

#[test]
fn a_view_reads_the_same_at_every_call() {
    let trie = Trie::new();
    assert_eq!(trie.insert("hello", 99), Ok(()));
    let view = trie.get("hello");
    assert_eq!(*view, Some(99));
    assert_eq!(*view, Some(99));
    assert_eq!(view.as_ref(), Some(&99));
}

#[test]
fn the_empty_key_is_never_found_under_the_lock() {
    let trie = Trie::new();
    assert_eq!(*trie.get(""), None);
    assert_eq!(trie.insert("a", 1), Ok(()));
    assert_eq!(trie.insert("ab", 2), Ok(()));
    assert_eq!(*trie.get(""), None);
    assert_eq!(trie.remove("a"), Ok(()));
    assert_eq!(*trie.get(""), None);
}
