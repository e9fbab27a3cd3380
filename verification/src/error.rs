//! The errors that the operations of a trie report.

use vstd::prelude::*;

verus! {

/// The ways in which an operation on a trie can fail.
///
/// No failure changes the trie it was reported by.
#[derive(Clone, Copy, Debug, PartialEq, Eq, Structural)]
pub enum TrieError {
    /// The key was the empty sequence.
    EmptyKey,
    /// An insertion named a key that already holds a value.
    DuplicateKey,
    /// A removal named a key that holds no value.
    NotFound,
}

impl TrieError {
    /// The text that describes this error to a person.
    pub fn message(&self) -> (text: &'static str)
        ensures
            text@ == match *self {
                TrieError::EmptyKey => "Key can not be empty"@,
                TrieError::DuplicateKey => "Duplicate keys are not allowed"@,
                TrieError::NotFound => "No corresponding value"@,
            },
    {
        match self {
            TrieError::EmptyKey => "Key can not be empty",
            TrieError::DuplicateKey => "Duplicate keys are not allowed",
            TrieError::NotFound => "No corresponding value",
        }
    }
}

} // verus!
