//! The trie behind a reader-writer lock, for sharing between threads.

use crate::error::TrieError;
use crate::model::get_result;
use crate::single_threaded_trie;
use vstd::prelude::*;

verus! {

/// `lock_api::RwLock`, the reader-writer lock that `parking_lot::RwLock`
/// names with its own raw lock. Nothing inside it is visible to the
/// verifier.
#[verifier::external_type_specification]
#[verifier::external_body]
#[verifier::reject_recursive_types(R)]
#[verifier::reject_recursive_types(T)]
pub struct ExRwLock<R, T: ?Sized>(parking_lot::lock_api::RwLock<R, T>);

/// `parking_lot::RawRwLock`, the raw lock inside `parking_lot::RwLock`.
#[verifier::external_type_specification]
#[verifier::external_body]
pub struct ExRawRwLock(parking_lot::RawRwLock);

/// Shared access to a locked trie: a `parking_lot::RwLockReadGuard`, which
/// releases the lock when it is dropped. The verifier sees nothing of it.
#[verifier::external_body]
#[verifier::reject_recursive_types(T)]
struct SharedAccess<'a, T> {
    guard: parking_lot::RwLockReadGuard<'a, single_threaded_trie::Trie<T>>,
}

/// Exclusive access to a locked trie: a `parking_lot::RwLockWriteGuard`,
/// which releases the lock when it is dropped. The verifier sees nothing of
/// it.
#[verifier::external_body]
#[verifier::reject_recursive_types(T)]
struct ExclusiveAccess<'a, T> {
    guard: parking_lot::RwLockWriteGuard<'a, single_threaded_trie::Trie<T>>,
}

/// Shared access to one part of what a lock protects: a
/// `parking_lot::MappedRwLockReadGuard`, which releases the lock when it is
/// dropped. The verifier sees nothing of it.
#[verifier::external_body]
#[verifier::reject_recursive_types(T)]
#[derive(Debug)]
struct MappedAccess<'a, T> {
    guard: parking_lot::MappedRwLockReadGuard<'a, T>,
}

/// A view of one part of what a lock protects, read in place. The lock
/// stays held for reading until this value is dropped, so what the view
/// points at stays as it is while the view lives.
#[verifier::reject_recursive_types(T)]
pub struct ReadGuard<'a, T> {
    guard: MappedAccess<'a, T>,
    target: Ghost<T>,
}

impl<'a, T> ReadGuard<'a, T> {
    /// What this view points at.
    pub closed spec fn target(&self) -> T {
        self.target@
    }
}

/// A trie that many threads may read at once and one at a time may change.
///
/// One reader-writer lock protects the whole trie. What a call finds
/// depends on what other threads did before it took the lock, so the
/// contracts here state what holds of every outcome;
/// [`single_threaded_trie::Trie`] states what each operation does to the
/// trie that it finds.
#[verifier::reject_recursive_types(T)]
#[derive(Debug)]
pub struct Trie<T: Send + Sync> {
    top_level_nodes: parking_lot::RwLock<single_threaded_trie::Trie<T>>,
}

/// Calls `lock_api::RwLock::new`, which puts `trie` behind a new, unlocked
/// lock. Nothing is claimed of the result.
#[verifier::external_body]
fn new_lock<T>(trie: single_threaded_trie::Trie<T>) -> parking_lot::RwLock<
    single_threaded_trie::Trie<T>,
> {
    parking_lot::RwLock::new(trie)
}

/// Calls `lock_api::RwLock::read`, which waits until no writer holds the
/// lock and then holds it for reading. Nothing is claimed of the trie that
/// is found behind it.
#[verifier::external_body]
fn read<'a, T>(lock: &'a parking_lot::RwLock<single_threaded_trie::Trie<T>>) -> SharedAccess<
    'a,
    T,
> {
    SharedAccess { guard: lock.read() }
}

/// Calls `lock_api::RwLockReadGuard::map`, which narrows shared access to
/// the part of the locked value that the closure picks: here the slot that
/// [`single_threaded_trie::Trie::slot`] finds for `key`. The contract
/// claims that the view points at what a lookup of `key` yields in some
/// trie, the one behind the lock; which trie that is, is not claimed.
#[verifier::external_body]
fn look_up<'a, T>(access: SharedAccess<'a, T>, key: &str) -> (res: ReadGuard<'a, Option<T>>)
    ensures
        exists|trie: single_threaded_trie::Trie<T>|
            res.target() == get_result(#[trigger] trie@, key@),
{
    ReadGuard {
        guard: MappedAccess {
            guard: parking_lot::RwLockReadGuard::map(
                access.guard,
                |trie: &single_threaded_trie::Trie<T>| trie.slot(key),
            ),
        },
        target: Ghost(arbitrary()),
    }
}

/// Calls `lock_api::RwLock::write`, which waits until nobody else holds the
/// lock and then holds it alone. Nothing is claimed of the trie that is
/// found behind it.
#[verifier::external_body]
fn write<'a, T>(lock: &'a parking_lot::RwLock<single_threaded_trie::Trie<T>>) -> ExclusiveAccess<
    'a,
    T,
> {
    ExclusiveAccess { guard: lock.write() }
}

/// Calls `deref_mut` of `lock_api::RwLockWriteGuard`, which hands out the
/// locked trie for changing in place. Nothing is claimed of the trie.
#[verifier::external_body]
fn locked_trie<'a, 'b, T>(access: &'b mut ExclusiveAccess<'a, T>) -> &'b mut single_threaded_trie::Trie<
    T,
> {
    &mut *access.guard
}

impl<'a, T> std::ops::Deref for ReadGuard<'a, T> {
    type Target = T;

    /// Calls `deref` of `lock_api::MappedRwLockReadGuard`, which hands out
    /// the part of the locked value that this view points at. The contract
    /// claims that this is the view's target, the same at every call.
    #[verifier::external_body]
    fn deref(&self) -> (r: &T)
        ensures
            *r == self.target(),
    {
        &*self.guard.guard
    }
}

impl<T: Send + Sync> Default for Trie<T> {
    /// A trie without keys.
    fn default() -> Self {
        Trie { top_level_nodes: new_lock(single_threaded_trie::Trie::new()) }
    }
}

impl<T: Send + Sync> Trie<T> {
    /// A trie without keys.
    pub fn new() -> Self {
        Self::default()
    }

    /// Looks `key` up under the read lock and hands out what was found,
    /// read in place: the value, or none where `key` holds none.
    ///
    /// The view points at what a lookup of `key` yields in the trie that the
    /// call finds behind the lock; for the empty key that is none, whatever
    /// the trie holds.
    ///
    /// The read lock is held until the view is dropped. Other readers may
    /// proceed meanwhile; a writer waits. A thread that still holds a view
    /// must drop it before it calls [`Trie::insert`] or [`Trie::remove`] on
    /// the same trie, or that call never returns. A thread that holds a
    /// view and asks for a second one may wait behind a writer that is
    /// queued between the two, and then neither returns.
    pub fn get(&self, key: &str) -> (res: ReadGuard<'_, Option<T>>)
        ensures
            exists|trie: single_threaded_trie::Trie<T>|
                res.target() == get_result(#[trigger] trie@, key@),
            key@.len() == 0 ==> res.target() is None,
    {
        let access = read(&self.top_level_nodes);
        let res = look_up(access, key);
        proof {
            let trie = choose|trie: single_threaded_trie::Trie<T>|
                res.target() == get_result(#[trigger] trie@, key@);
            trie.lemma_empty_key_is_absent();
            assert(key@.len() == 0 ==> key@ =~= Seq::<char>::empty());
        }
        res
    }

    /// Stores `value` under `key`, under the write lock.
    ///
    /// The empty key is always refused. Another key is stored unless the
    /// trie that the call finds already holds a value under it.
    pub fn insert(&self, key: &str, value: T) -> (res: Result<(), TrieError>)
        ensures
            key@.len() == 0 ==> res == Err::<(), TrieError>(TrieError::EmptyKey),
            key@.len() > 0 ==> res is Ok || res == Err::<(), TrieError>(TrieError::DuplicateKey),
    {
        let mut access = write(&self.top_level_nodes);
        let trie = locked_trie(&mut access);
        trie.insert(key, value)
    }

    /// Takes the value stored under `key` out of the trie, under the write
    /// lock.
    ///
    /// The empty key is always refused. Another key is removed unless the
    /// trie that the call finds holds no value under it.
    pub fn remove(&self, key: &str) -> (res: Result<(), TrieError>)
        ensures
            key@.len() == 0 ==> res == Err::<(), TrieError>(TrieError::EmptyKey),
            key@.len() > 0 ==> res is Ok || res == Err::<(), TrieError>(TrieError::NotFound),
    {
        let mut access = write(&self.top_level_nodes);
        let trie = locked_trie(&mut access);
        trie.remove(key)
    }
}

} // verus!
