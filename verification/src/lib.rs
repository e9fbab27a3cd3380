//! A prefix-indexed key/value container keyed by character sequences.
//!
//! [`single_threaded_trie::Trie`] is the plain container;
//! [`concurrent_trie::Trie`] shares one behind a read-write lock.

pub mod concurrent_trie;
pub mod error;
pub mod key;
pub mod model;
pub mod node;
pub mod single_threaded_trie;
